use monit::config::{Config, ConfigError, ParserConfig, RecordConfig, RegexBundle};
use monit::filehandler::{next_read_action, ReadAction, ReadEvent};
use monit::logreader::{add_captured_group, read_log_step, search, split_lines, try_search, LogStep, ReadLogError};
use monit::mongointerface::{config_from_fields, mongo_uri};
use monit::pattern::LogPattern;
use monit::recordprocessor::BATCH_LIMIT;
use std::sync::mpsc::channel;

fn lines(text: &str) -> Vec<String> {
    split_lines(text)
}

#[test]
fn lines_split_at_lf_and_crlf() {
    assert_eq!(lines("a\nb\r\nc"), vec!["a", "b", "c"]);
    assert_eq!(lines("a\n"), vec!["a"]);
    assert_eq!(lines("a\r\n"), vec!["a"]);
    assert_eq!(lines(""), Vec::<String>::new());
    assert_eq!(lines("\n"), vec![""]);
    assert_eq!(lines("a\n\nb"), vec!["a", "", "b"]);
    assert_eq!(lines("a\r"), vec!["a\r"]);
    assert_eq!(lines("a\rb\n"), vec!["a\rb"]);
    assert_eq!(lines("x\r\r\ny"), vec!["x\r", "y"]);
    assert_eq!(lines("é\nü"), vec!["é", "ü"]);
}

#[test]
fn lines_agree_with_std() {
    for text in ["", "\n", "a", "a\n", "a\r\n", "a\r", "\r\n\r\n", "a\n\nb\r\nc\rd", "\r", "x\r\r\n"] {
        let expected: Vec<String> = text.lines().map(|l| l.to_string()).collect();
        assert_eq!(lines(text), expected, "{:?}", text);
    }
}

#[test]
fn search_skips_lines_without_match() {
    let re = LogPattern::new("id=(\\d+)").unwrap();
    assert_eq!(search(&re, "id=1\nnothing here\nid=22 and id=3\n"), vec!["1", "22"]);
    assert_eq!(search(&re, ""), Vec::<String>::new());
    assert_eq!(search(&re, "no ids"), Vec::<String>::new());
}

#[test]
fn search_of_joined_blocks_is_concatenation() {
    let re = LogPattern::new("v(\\w)").unwrap();
    let first = "va\nxx\nvb\n";
    let second = "vc\r\nvd";
    let joined = format!("{}{}", first, second);
    let mut expected = search(&re, first);
    expected.extend(search(&re, second));
    assert_eq!(search(&re, &joined), expected);
    assert_eq!(expected, vec!["a", "b", "c", "d"]);
}

#[test]
fn final_line_ending_does_not_change_search() {
    let re = LogPattern::new("k=(\\w+)").unwrap();
    let text = "k=one\nk=two";
    assert_eq!(search(&re, &format!("{}\n", text)), search(&re, text));
    assert_eq!(search(&re, &format!("{}\r\n", text)), search(&re, text));
    assert_eq!(search(&re, text), vec!["one", "two"]);
}

#[test]
fn crlf_is_not_part_of_the_line() {
    let re = LogPattern::new("(x.*)$").unwrap();
    assert_eq!(search(&re, "x1\r\nx2\r\n"), vec!["x1", "x2"]);
}

#[test]
fn try_search_reports_match_without_group() {
    let re = LogPattern::new("(a)|b").unwrap();
    assert!(try_search(&re, "a\nb\n").is_none());
    assert_eq!(try_search(&re, "a\nc\na").unwrap(), vec!["a", "a"]);
    let no_group = LogPattern::new("abc").unwrap();
    assert!(try_search(&no_group, "abc").is_none());
    assert_eq!(try_search(&no_group, "xyz").unwrap(), Vec::<String>::new());
}

#[test]
fn invalid_pattern_is_rejected() {
    assert!(LogPattern::new("foo(bar").is_err());
    assert!(LogPattern::new("foo(bar)").is_ok());
    assert_eq!(LogPattern::new("a+(b)").unwrap().as_str(), "a+(b)");
}

#[test]
fn config_new_shares_settings() {
    let (mut rec, mut parse) = Config::new(
        "id=(\\d+)".to_string(),
        "app.log".to_string(),
        "requestId".to_string(),
        "requests".to_string(),
    )
    .unwrap();
    assert_eq!(rec.base_config.filename, "app.log");
    assert_eq!(rec.base_config.key, "requestId");
    assert_eq!(rec.base_config.collectionName, "requests");
    assert_eq!(parse.base_config.filename, "app.log");
    assert_eq!(parse.base_config.key, "requestId");
    assert_eq!(parse.base_config.collectionName, "requests");
    assert_eq!(parse.regex.as_str(), "id=(\\d+)");
    parse.channel_tx.send("v".to_string()).unwrap();
    assert_eq!(rec.channel_rx.try_receive().unwrap(), "v");
    assert!(rec.channel_rx.try_receive().is_none());
}

#[test]
fn config_new_rejects_bad_regex() {
    let r = Config::new("(".to_string(), "f".to_string(), "k".to_string(), "c".to_string());
    assert!(matches!(r, Err(ConfigError::InvalidRegex(_))));
}

#[test]
fn config_from_fields_defaults_to_empty() {
    let (rec, parse) = config_from_fields(None, None, None, None).unwrap();
    assert_eq!(rec.base_config.filename, "");
    assert_eq!(rec.base_config.key, "");
    assert_eq!(rec.base_config.collectionName, "");
    assert_eq!(parse.regex.as_str(), "");
    let (rec, parse) = config_from_fields(
        Some("x.log".to_string()),
        Some("(a)".to_string()),
        Some("k".to_string()),
        None,
    )
    .unwrap();
    assert_eq!(rec.base_config.filename, "x.log");
    assert_eq!(rec.base_config.key, "k");
    assert_eq!(rec.base_config.collectionName, "");
    assert_eq!(parse.regex.as_str(), "(a)");
    assert!(config_from_fields(None, Some("[".to_string()), None, None).is_err());
}

#[test]
fn constructors_keep_their_parts() {
    let (tx, rx) = channel();
    let base = Config { filename: "f".to_string(), key: "k".to_string(), collectionName: "c".to_string() };
    let mut rec = RecordConfig::new(base.clone(), rx);
    let mut parse = ParserConfig::new(base, LogPattern::new("(z)").unwrap(), tx);
    assert_eq!(rec.base_config.filename, "f");
    assert_eq!(parse.base_config.collectionName, "c");
    parse.channel_tx.send("q".to_string()).unwrap();
    assert_eq!(rec.channel_rx.try_receive().unwrap(), "q");
}

#[test]
fn bundle_collects_rules_in_order() {
    let mut bundle = RegexBundle::new(7u8);
    assert_eq!(bundle.parser_configs.len(), 0);
    let (_r1, p1) = Config::new("(a)".to_string(), "f".to_string(), "k1".to_string(), "c".to_string()).unwrap();
    let (_r2, p2) = Config::new("(b)".to_string(), "f".to_string(), "k2".to_string(), "c".to_string()).unwrap();
    bundle.add_parse_config(p1);
    bundle.add_parse_config(p2);
    assert_eq!(bundle.parser_configs.len(), 2);
    assert_eq!(bundle.parser_configs[0].base_config.key, "k1");
    assert_eq!(bundle.parser_configs[1].base_config.key, "k2");
    assert_eq!(bundle.file_handler, 7u8);
}

#[test]
fn read_log_step_sends_and_counts() {
    let (mut rec_a, parse_a) = Config::new("a=(\\d)".to_string(), "f".to_string(), "ka".to_string(), "ca".to_string()).unwrap();
    let (mut rec_b, parse_b) = Config::new("b=(\\d)".to_string(), "f".to_string(), "kb".to_string(), "cb".to_string()).unwrap();
    let mut configs = vec![parse_a, parse_b];
    let step = read_log_step(&mut configs, "a=1 b=2\nb=3\nzzz\na=4\n", 5).unwrap();
    assert_eq!(step, LogStep::Continue(9));
    let batch_a = rec_a.next_batch().unwrap();
    assert_eq!(batch_a.records, vec!["1", "4"]);
    assert_eq!(batch_a.collectionName, "ca");
    assert_eq!(batch_a.key, "ka");
    let batch_b = rec_b.next_batch().unwrap();
    assert_eq!(batch_b.records, vec!["2", "3"]);
    assert_eq!(batch_b.collectionName, "cb");
    assert!(rec_a.next_batch().is_none());
    assert_eq!(read_log_step(&mut configs, "", 9), Ok(LogStep::Finished(9)));
    assert_eq!(read_log_step(&mut configs, "nothing", 9), Ok(LogStep::Continue(9)));
}

#[test]
fn read_log_step_errors() {
    let (_rec, parse) = Config::new("v(\\d)".to_string(), "f".to_string(), "k".to_string(), "c".to_string()).unwrap();
    let mut configs = vec![parse];
    assert_eq!(read_log_step(&mut configs, "v1\nv2", u32::MAX - 1), Err(ReadLogError::CountOverflow));
    assert_eq!(read_log_step(&mut configs, "v1", u32::MAX - 1), Ok(LogStep::Continue(u32::MAX)));
    let (_rec2, bad) = Config::new("(x)|y".to_string(), "f".to_string(), "k".to_string(), "c".to_string()).unwrap();
    let mut configs2 = vec![bad];
    assert_eq!(read_log_step(&mut configs2, "x\ny", 0), Err(ReadLogError::MissingCaptureGroup));
    let (rec3, parse3) = Config::new("(z)".to_string(), "f".to_string(), "k".to_string(), "c".to_string()).unwrap();
    drop(rec3);
    let mut configs3 = vec![parse3];
    assert_eq!(read_log_step(&mut configs3, "z", 0), Err(ReadLogError::ChannelClosed));
    assert_eq!(read_log_step(&mut configs3, "no match", 0), Ok(LogStep::Continue(0)));
}

#[test]
fn batches_hold_at_most_the_limit() {
    let (mut rec, mut parse) = Config::new("(.)".to_string(), "f".to_string(), "k".to_string(), "c".to_string()).unwrap();
    for i in 0..(BATCH_LIMIT + 5) {
        parse.channel_tx.send(format!("{}", i)).unwrap();
    }
    let first = rec.next_batch().unwrap();
    assert_eq!(first.records.len(), BATCH_LIMIT);
    assert_eq!(first.records[0], "0");
    let second = rec.next_batch().unwrap();
    assert_eq!(second.records, vec!["100000", "100001", "100002", "100003", "100004"]);
    assert!(rec.next_batch().is_none());
}

#[test]
fn read_decisions_follow_rotation() {
    assert_eq!(next_read_action(11, ReadEvent::BlockRead(40)), ReadAction::Return(40));
    assert_eq!(next_read_action(11, ReadEvent::BlockRead(0)), ReadAction::CheckRotation);
    assert_eq!(next_read_action(11, ReadEvent::FileInode(11)), ReadAction::Return(0));
    assert_eq!(next_read_action(11, ReadEvent::FileInode(12)), ReadAction::ReopenAndRead);
    assert_eq!(next_read_action(11, ReadEvent::ReopenedRead(17)), ReadAction::Return(17));
    assert_eq!(next_read_action(11, ReadEvent::ReopenedRead(0)), ReadAction::Return(0));
}

#[test]
fn mongo_uri_joins_host_and_port() {
    assert_eq!(mongo_uri("localhost", 27017), "mongodb://localhost:27017");
    assert_eq!(mongo_uri("127.0.0.1", 0), "mongodb://127.0.0.1:0");
    assert_eq!(mongo_uri("h", 9), "mongodb://h:9");
    assert_eq!(mongo_uri("h", 10), "mongodb://h:10");
    assert_eq!(mongo_uri("db", 65535), "mongodb://db:65535");
}

#[test]
fn counts_of_joined_blocks_add_up() {
    let (_rec, parse) = Config::new("n=(\\d)".to_string(), "f".to_string(), "k".to_string(), "c".to_string()).unwrap();
    let mut configs = vec![parse];
    let first = "n=1\nn=2\n";
    let second = "x\nn=3";
    let whole = format!("{}{}", first, second);
    let after_first = read_log_step(&mut configs, first, 0).unwrap();
    assert_eq!(after_first, LogStep::Continue(2));
    assert_eq!(read_log_step(&mut configs, second, 2), Ok(LogStep::Continue(3)));
    assert_eq!(read_log_step(&mut configs, &whole, 0), Ok(LogStep::Continue(3)));
}

#[test]
fn lines_have_no_line_feed() {
    for line in lines("a\n\r\nb\rc\n\n") {
        assert!(!line.contains('\n'));
    }
}

#[test]
fn search_results_are_pieces_of_their_lines() {
    let re = LogPattern::new("user=(\\w+)").unwrap();
    let text = "a user=alice b\nnone\r\nuser=bob\n";
    let results = search(&re, text);
    assert_eq!(results, vec!["alice", "bob"]);
    let text_lines = lines(text);
    for r in &results {
        assert!(!r.contains('\n'));
        assert!(text_lines.iter().any(|l| l.contains(r.as_str())));
    }
}

#[test]
fn values_reach_their_own_rule_in_order() {
    let (mut rec_a, parse_a) = Config::new("(\\d)".to_string(), "f".to_string(), "k".to_string(), "a".to_string()).unwrap();
    let (mut rec_b, parse_b) = Config::new("([a-z])".to_string(), "f".to_string(), "k".to_string(), "b".to_string()).unwrap();
    let mut configs = vec![parse_a, parse_b];
    assert_eq!(read_log_step(&mut configs, "1\nx\n2\ny\n", 0), Ok(LogStep::Continue(4)));
    assert_eq!(read_log_step(&mut configs, "3\n", 4), Ok(LogStep::Continue(5)));
    assert_eq!(rec_a.next_batch().unwrap().records, vec!["1", "2", "3"]);
    assert_eq!(rec_b.next_batch().unwrap().records, vec!["x", "y"]);
    assert!(rec_a.next_batch().is_none());
    assert!(rec_b.next_batch().is_none());
}

#[test]
fn captured_group_is_added_only_when_present() {
    let mut results = vec!["a".to_string()];
    assert!(add_captured_group(&mut results, Some(Some("b".to_string()))));
    assert_eq!(results, vec!["a", "b"]);
    assert!(!add_captured_group(&mut results, Some(None)));
    assert!(add_captured_group(&mut results, None));
    assert_eq!(results, vec!["a", "b"]);
}

#[test]
fn refused_send_hands_the_value_back() {
    let (rec, mut parse) = Config::new("(x)".to_string(), "f".to_string(), "k".to_string(), "c".to_string()).unwrap();
    assert_eq!(parse.channel_tx.send("kept".to_string()), Ok(()));
    drop(rec);
    assert_eq!(parse.channel_tx.send("back".to_string()), Err("back".to_string()));
}
