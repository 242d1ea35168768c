//! Picking values out of blocks of log text: a block is split into lines
//! and each line that the pattern matches yields its first capture group.
use vstd::prelude::*;
use crate::pattern::{LogPattern, regex_group, is_substring};
use crate::config::ParserConfig;

verus! {

/// The capture group whose text a search reports.
pub const VALUE_GROUP: usize = 1;

/// A line without the carriage return of a `\r\n` line ending.
pub open spec fn strip_cr(line: Seq<char>) -> Seq<char> {
    if line.len() > 0 && line.last() == '\r' {
        line.drop_last()
    } else {
        line
    }
}

/// Scanning `text` from the left: the lines that a `\n` has ended so far,
/// and the text of the line that is not ended yet.
pub open spec fn scan_lines(text: Seq<char>) -> (Seq<Seq<char>>, Seq<char>)
    decreases text.len(),
{
    if text.len() == 0 {
        (Seq::empty(), Seq::empty())
    } else {
        let (done, cur) = scan_lines(text.drop_last());
        if text.last() == '\n' {
            (done.push(strip_cr(cur)), Seq::empty())
        } else {
            (done, cur.push(text.last()))
        }
    }
}

/// The lines of `text` as `str::lines` yields them: split at `\n` or `\r\n`,
/// without the line endings, the final line ending being optional.
pub open spec fn lines_of(text: Seq<char>) -> Seq<Seq<char>> {
    let (done, cur) = scan_lines(text);
    if cur.len() == 0 {
        done
    } else {
        done.push(cur)
    }
}

/// Appends a character to a string (`String::push`).
#[verifier::external_body]
pub(crate) fn push_char(s: &mut String, c: char)
    ensures
        final(s)@ == old(s)@.push(c),
{
    s.push(c)
}

/// Splits `text` into its lines, as `str::lines` does.
pub fn split_lines(text: &str) -> (lines: Vec<String>)
    ensures
        lines.deep_view() == lines_of(text@),
{
    let mut done: Vec<String> = Vec::new();
    let mut cur = String::new();
    let mut pending_cr = false;
    let ghost mut seen: Seq<char> = Seq::empty();
    for c in it: text.chars()
        invariant
            it.seq() == text@,
            seen == it.history(),
            scan_lines(it.history()).0 == done.deep_view(),
            scan_lines(it.history()).1 == if pending_cr { cur@.push('\r') } else { cur@ },
            !pending_cr ==> (cur@.len() == 0 || cur@.last() != '\r'),
    {
        let ghost before = it.history();
        let ghost done_before = done.deep_view();
        let ghost after = before.push(c);
        assert(after.drop_last() == before);
        if c == '\n' {
            proof {
                let cur_line = if pending_cr { cur@.push('\r') } else { cur@ };
                assert(cur@.push('\r').drop_last() =~= cur@);
                assert(strip_cr(cur_line) == cur@);
            }
            let ghost line = cur@;
            done.push(cur);
            assert(done.deep_view() =~= done_before.push(line));
            cur = String::new();
            pending_cr = false;
        } else {
            if pending_cr {
                push_char(&mut cur, '\r');
            }
            if c == '\r' {
                pending_cr = true;
            } else {
                pending_cr = false;
                push_char(&mut cur, c);
            }
        }
        assert(scan_lines(after).0 == done.deep_view());
        proof {
            seen = after;
        }
    }
    assert(seen =~= text@);
    if pending_cr {
        push_char(&mut cur, '\r');
    }
    if !cur.as_str().is_empty() {
        done.push(cur);
    }
    done
}

/// The texts of a capture result: `None` for no match, `Some(None)` for a
/// match without the group, `Some(Some(g))` for the group's text.
pub open spec fn captured_text(captured: Option<Option<String>>) -> Option<Option<Seq<char>>> {
    match captured {
        None => None,
        Some(None) => Some(None),
        Some(Some(g)) => Some(Some(g@)),
    }
}

/// The values found so far, `found`, after a line whose capture result is
/// `captured`: the group's text is added when the group took part in a match.
pub open spec fn after_capture(found: Seq<Seq<char>>, captured: Option<Option<Seq<char>>>) -> Seq<Seq<char>> {
    match captured {
        Some(Some(g)) => found.push(g),
        _ => found,
    }
}

/// Takes the capture result of one line: when the group took part in a
/// match, its text is added to `results`. Returns `false` exactly when the
/// line matched without the group, so that it has no value to give.
pub fn add_captured_group(results: &mut Vec<String>, captured: Option<Option<String>>) -> (has_value: bool)
    ensures
        has_value == (captured_text(captured) != Some(None::<Seq<char>>)),
        final(results).deep_view() == after_capture(old(results).deep_view(), captured_text(captured)),
        captured matches Some(Some(g)) ==> final(results).deep_view() == old(results).deep_view().push(g@),
        !(captured matches Some(Some(_))) ==> final(results).deep_view() == old(results).deep_view(),
{
    match captured {
        Some(Some(g)) => {
            let ghost before = results.deep_view();
            let ghost gv = g@;
            results.push(g);
            assert(results.deep_view() =~= before.push(gv));
            true
        },
        Some(None) => false,
        None => true,
    }
}

/// The capture groups that `pattern` picks out of `lines`, in order: one
/// for each line that the pattern matches with group 1 taking part.
pub open spec fn groups_in(pattern: Seq<char>, lines: Seq<Seq<char>>) -> Seq<Seq<char>>
    decreases lines.len(),
{
    if lines.len() == 0 {
        Seq::empty()
    } else {
        after_capture(
            groups_in(pattern, lines.drop_last()),
            regex_group(pattern, lines.last(), VALUE_GROUP),
        )
    }
}

/// What a search of `text` with `pattern` yields.
pub open spec fn search_results(pattern: Seq<char>, text: Seq<char>) -> Seq<Seq<char>> {
    groups_in(pattern, lines_of(text))
}

/// Some line of `text` is matched by `pattern` without capture group 1
/// taking part; a search has no value to report for it.
pub open spec fn has_match_without_group(pattern: Seq<char>, text: Seq<char>) -> bool {
    exists|i: int|
        0 <= i < lines_of(text).len() && #[trigger] regex_group(pattern, lines_of(text)[i], VALUE_GROUP)
            == Some(None::<Seq<char>>)
}

/// `part` stands in one of `lines`.
pub open spec fn in_some_line(part: Seq<char>, lines: Seq<Seq<char>>) -> bool {
    exists|x: int| 0 <= x < lines.len() && #[trigger] is_substring(part, lines[x])
}

/// The indices of the lines from which `pattern` picks a value, in order.
pub open spec fn matched_lines(pattern: Seq<char>, lines: Seq<Seq<char>>) -> Seq<int>
    decreases lines.len(),
{
    if lines.len() == 0 {
        Seq::empty()
    } else {
        let earlier = matched_lines(pattern, lines.drop_last());
        match regex_group(pattern, lines.last(), VALUE_GROUP) {
            Some(Some(_)) => earlier.push(lines.len() - 1),
            _ => earlier,
        }
    }
}

/// For each line of `text_block` that `regex` matches, the text of its
/// capture group 1, in line order: value `k` is taken from line
/// `matched_lines(..)[k]`, of which it is a piece, and the lines increase.
pub fn search(regex: &LogPattern, text_block: &str) -> (results: Vec<String>)
    requires
        !has_match_without_group(regex@, text_block@),
    ensures
        results.deep_view() == search_results(regex@, text_block@),
        matched_lines(regex@, lines_of(text_block@)).len() == results@.len(),
        forall|k: int|
            0 <= k < results@.len() ==> {
                let x = matched_lines(regex@, lines_of(text_block@))[k];
                &&& 0 <= x < lines_of(text_block@).len()
                &&& is_substring(#[trigger] results@[k]@, lines_of(text_block@)[x])
                &&& regex_group(regex@, lines_of(text_block@)[x], VALUE_GROUP) == Some(
                    Some(results@[k]@),
                )
            },
        forall|j: int, k: int|
            0 <= j < k < results@.len() ==> #[trigger] matched_lines(regex@, lines_of(text_block@))[j]
                < #[trigger] matched_lines(regex@, lines_of(text_block@))[k],
        forall|k: int|
            0 <= k < results@.len() ==> in_some_line(#[trigger] results@[k]@, lines_of(text_block@)),
        forall|k: int, c: int|
            0 <= k < results@.len() && 0 <= c < results@[k]@.len() ==> #[trigger] results@[k]@[c]
                != '\n',
{
    let lines = split_lines(text_block);
    let ghost all = lines.deep_view();
    let mut results: Vec<String> = Vec::new();
    let mut i: usize = 0;
    while i < lines.len()
        invariant
            all == lines.deep_view(),
            all == lines_of(text_block@),
            !has_match_without_group(regex@, text_block@),
            0 <= i <= lines.len(),
            results.deep_view() == groups_in(regex@, all.take(i as int)),
            matched_lines(regex@, all.take(i as int)).len() == results@.len(),
            forall|k: int|
                0 <= k < results@.len() ==> 0 <= #[trigger] matched_lines(regex@, all.take(i as int))[k] < i,
            forall|k: int|
                0 <= k < results@.len() ==> {
                    let x = matched_lines(regex@, all.take(i as int))[k];
                    &&& is_substring(#[trigger] results@[k]@, all[x])
                    &&& regex_group(regex@, all[x], VALUE_GROUP) == Some(Some(results@[k]@))
                },
            forall|j: int, k: int|
                0 <= j < k < results@.len() ==> #[trigger] matched_lines(regex@, all.take(i as int))[j]
                    < #[trigger] matched_lines(regex@, all.take(i as int))[k],
        decreases lines.len() - i,
    {
        let ghost before = results.deep_view();
        let ghost ml = matched_lines(regex@, all.take(i as int));
        assert(all.take(i + 1).drop_last() =~= all.take(i as int));
        assert(all.take(i + 1).last() == lines[i as int]@);
        let captured = regex.capture(lines[i].as_str(), VALUE_GROUP);
        let ghost cv = captured_text(captured);
        assert(cv matches Some(Some(gv)) ==> is_substring(gv, lines[i as int]@));
        let ghost prev = results@;
        let _ = add_captured_group(&mut results, captured);
        let ghost ml2 = matched_lines(regex@, all.take(i + 1));
        proof {
            assert(lines[i as int]@ == all[i as int]);
            assert(cv == regex_group(regex@, all[i as int], VALUE_GROUP));
            if cv == Some(None::<Seq<char>>) {
                assert(regex_group(regex@, lines_of(text_block@)[i as int], VALUE_GROUP) == Some(None::<Seq<char>>));
                assert(false);
            }
            assert(results.deep_view().len() == results@.len());
            assert(before.len() == prev.len());
            assert forall|k: int| 0 <= k < prev.len() implies results@[k]@ == prev[k]@ by {
                assert(results.deep_view()[k] == before[k]);
            }
            match cv {
                Some(Some(gv)) => {
                    assert(ml2 == ml.push(i as int));
                    assert(results.deep_view()[prev.len() as int] == gv);
                    assert(results@[prev.len() as int]@ == gv);
                },
                _ => {
                    assert(ml2 == ml);
                    assert(results.deep_view() == before);
                    assert(results@.len() == prev.len());
                },
            }
            assert forall|k: int| 0 <= k < results@.len() implies 0 <= #[trigger] ml2[k] < i + 1 by {
                if k < prev.len() {
                    assert(ml2[k] == ml[k]);
                }
            }
            assert forall|k: int| 0 <= k < results@.len() implies {
                let x = ml2[k];
                &&& is_substring(#[trigger] results@[k]@, all[x])
                &&& regex_group(regex@, all[x], VALUE_GROUP) == Some(Some(results@[k]@))
            } by {
                if k < prev.len() {
                    assert(ml2[k] == ml[k]);
                    assert(is_substring(prev[k]@, all[ml[k]]));
                }
            }
            assert forall|j: int, k: int| 0 <= j < k < results@.len() implies #[trigger] ml2[j] < #[trigger] ml2[k] by {
                if k < prev.len() {
                    assert(ml2[j] == ml[j] && ml2[k] == ml[k]);
                    assert(ml[j] < ml[k]);
                } else {
                    assert(ml2[j] == ml[j]);
                    assert(is_substring(prev[j]@, all[ml[j]]));
                }
            }
        }
        i = i + 1;
        assert(matched_lines(regex@, all.take(i as int)) == ml2);
    }
    assert(all.take(i as int) =~= all);
    proof {
        lines_hold_no_line_feed(text_block@);
        assert forall|k: int| 0 <= k < results@.len() implies 0 <= #[trigger] matched_lines(regex@, all)[k] < all.len() by {
        }
        assert forall|k: int| 0 <= k < results@.len() implies in_some_line(#[trigger] results@[k]@, all) by {
            let x = matched_lines(regex@, all)[k];
            assert(is_substring(results@[k]@, all[x]));
        }
        assert forall|k: int, c: int|
            0 <= k < results@.len() && 0 <= c < results@[k]@.len() implies #[trigger] results@[k]@[c]
                != '\n' by {
            assert(in_some_line(results@[k]@, all));
            let x = choose|x: int| 0 <= x < all.len() && #[trigger] is_substring(results@[k]@, all[x]);
            let (a, b) = choose|a: int, b: int| 0 <= a <= b <= all[x].len() && #[trigger] all[x].subrange(a, b) == results@[k]@;
            assert(results@[k]@[c] == all[x][a + c]);
        }
    }
    results
}

/// Like `search`, but reports `None` when some matching line has no
/// capture group 1 to report.
pub fn try_search(regex: &LogPattern, text_block: &str) -> (results: Option<Vec<String>>)
    ensures
        results is None <==> has_match_without_group(regex@, text_block@),
        results matches Some(r) ==> r.deep_view() == search_results(regex@, text_block@),
        results matches Some(r) ==> forall|k: int|
            0 <= k < r@.len() ==> in_some_line(#[trigger] r@[k]@, lines_of(text_block@)),
{
    let lines = split_lines(text_block);
    let ghost all = lines.deep_view();
    let mut i: usize = 0;
    while i < lines.len()
        invariant
            all == lines.deep_view(),
            all == lines_of(text_block@),
            0 <= i <= lines.len(),
            forall|j: int| 0 <= j < i ==> #[trigger] regex_group(regex@, all[j], VALUE_GROUP) != Some(None::<Seq<char>>),
        decreases lines.len() - i,
    {
        assert(all[i as int] == lines[i as int]@);
        if let Some(None) = regex.capture(lines[i].as_str(), VALUE_GROUP) {
            return None;
        }
        i = i + 1;
    }
    Some(search(regex, text_block))
}

proof fn lemma_scan_concat(a: Seq<char>, b: Seq<char>)
    requires
        a.len() == 0 || a.last() == '\n',
    ensures
        scan_lines(a + b) == (scan_lines(a).0 + scan_lines(b).0, scan_lines(b).1),
        scan_lines(a).1.len() == 0,
    decreases b.len(),
{
    if a.len() > 0 {
        assert(scan_lines(a).1 == Seq::<char>::empty());
    }
    if b.len() == 0 {
        assert(a + b =~= a);
        assert(scan_lines(a).0 + scan_lines(b).0 =~= scan_lines(a).0);
    } else {
        lemma_scan_concat(a, b.drop_last());
        assert((a + b).drop_last() =~= a + b.drop_last());
        assert((a + b).last() == b.last());
        let (da, _) = scan_lines(a);
        let (db, cb) = scan_lines(b.drop_last());
        if b.last() == '\n' {
            assert((da + db).push(strip_cr(cb)) =~= da + db.push(strip_cr(cb)));
        }
    }
}

proof fn lemma_lines_concat(a: Seq<char>, b: Seq<char>)
    requires
        a.len() == 0 || a.last() == '\n',
    ensures
        lines_of(a + b) == lines_of(a) + lines_of(b),
{
    lemma_scan_concat(a, b);
    let (da, _) = scan_lines(a);
    let (db, cb) = scan_lines(b);
    if cb.len() > 0 {
        assert((da + db).push(cb) =~= da + db.push(cb));
    }
}

proof fn lemma_groups_concat(pattern: Seq<char>, x: Seq<Seq<char>>, y: Seq<Seq<char>>)
    ensures
        groups_in(pattern, x + y) == groups_in(pattern, x) + groups_in(pattern, y),
    decreases y.len(),
{
    if y.len() == 0 {
        assert(x + y =~= x);
        assert(groups_in(pattern, x) + groups_in(pattern, y) =~= groups_in(pattern, x));
    } else {
        lemma_groups_concat(pattern, x, y.drop_last());
        assert((x + y).drop_last() =~= x + y.drop_last());
        assert((x + y).last() == y.last());
        let gx = groups_in(pattern, x);
        let gy = groups_in(pattern, y.drop_last());
        match regex_group(pattern, y.last(), VALUE_GROUP) {
            Some(Some(g)) => {
                assert((gx + gy).push(g) =~= gx + gy.push(g));
            },
            _ => {},
        }
    }
}

/// Searching two blocks of text, the first of which ends at a line boundary,
/// gives the results of the first followed by those of the second; and the
/// joined block has a match without group 1 exactly when one of them has.
pub proof fn search_of_joined_blocks(pattern: Seq<char>, first: Seq<char>, second: Seq<char>)
    requires
        first.len() == 0 || first.last() == '\n',
    ensures
        search_results(pattern, first + second) == search_results(pattern, first)
            + search_results(pattern, second),
        has_match_without_group(pattern, first + second) <==> (has_match_without_group(pattern, first)
            || has_match_without_group(pattern, second)),
{
    lemma_lines_concat(first, second);
    lemma_groups_concat(pattern, lines_of(first), lines_of(second));
    let la = lines_of(first);
    let lb = lines_of(second);
    let l = lines_of(first + second);
    if has_match_without_group(pattern, first + second) {
        let i = choose|i: int|
            0 <= i < l.len() && #[trigger] regex_group(pattern, l[i], VALUE_GROUP) == Some(None::<Seq<char>>);
        if i < la.len() {
            assert(l[i] == la[i]);
        } else {
            assert(l[i] == lb[i - la.len()]);
        }
    }
    if has_match_without_group(pattern, first) {
        let i = choose|i: int|
            0 <= i < la.len() && #[trigger] regex_group(pattern, la[i], VALUE_GROUP) == Some(None::<Seq<char>>);
        assert(l[i] == la[i]);
    }
    if has_match_without_group(pattern, second) {
        let i = choose|i: int|
            0 <= i < lb.len() && #[trigger] regex_group(pattern, lb[i], VALUE_GROUP) == Some(None::<Seq<char>>);
        assert(l[la.len() + i] == lb[i]);
    }
}

/// The final line ending of a block is optional: a non-empty block searched
/// with a `\r\n` appended, or with a `\n` appended when it does not end in
/// `\r`, gives the same results.
pub proof fn search_ignores_final_line_ending(pattern: Seq<char>, text: Seq<char>)
    requires
        text.len() > 0,
        text.last() != '\n',
    ensures
        search_results(pattern, text + seq!['\r', '\n']) == search_results(pattern, text),
        text.last() != '\r' ==> search_results(pattern, text + seq!['\n']) == search_results(
            pattern,
            text,
        ),
{
    let (d, c) = scan_lines(text);
    let (d0, c0) = scan_lines(text.drop_last());
    assert(c == c0.push(text.last()));
    let with_cr = text + seq!['\r'];
    let with_crlf = text + seq!['\r', '\n'];
    assert(with_crlf.drop_last() =~= with_cr);
    assert(with_cr.drop_last() =~= text);
    assert(c.push('\r').drop_last() =~= c);
    assert(with_cr.last() == '\r');
    assert(scan_lines(with_cr) == (d, c.push('\r')));
    assert(with_crlf.last() == '\n');
    assert(scan_lines(with_crlf) == (d.push(c), Seq::<char>::empty()));
    assert(lines_of(with_crlf) == lines_of(text));
    let with_lf = text + seq!['\n'];
    assert(with_lf.drop_last() =~= text);
    assert(lines_of(with_lf) == d.push(strip_cr(c)));
}

/// What the reading loop does next after a block has been read.
#[derive(Debug, PartialEq, Eq)]
pub enum LogStep {
    /// The block was empty: the file is read to its end; the total so far.
    Finished(u32),
    /// The block's values were sent; the total of values sent so far.
    Continue(u32),
}

/// Why a block could not be handed on.
#[derive(Debug, PartialEq, Eq)]
pub enum ReadLogError {
    /// Some rule's pattern matched a line without capture group 1.
    MissingCaptureGroup,
    /// The count of values sent would exceed `u32::MAX`.
    CountOverflow,
    /// A rule's channel has no receiver any more.
    ChannelClosed,
}

/// The pattern texts of the rules, in order.
pub open spec fn patterns_of(configs: Seq<ParserConfig>) -> Seq<Seq<char>> {
    configs.map_values(|c: ParserConfig| c.regex@)
}

/// How many values the patterns pick out of `text` in all.
pub open spec fn total_found(patterns: Seq<Seq<char>>, text: Seq<char>) -> nat
    decreases patterns.len(),
{
    if patterns.len() == 0 {
        0
    } else {
        total_found(patterns.drop_last(), text) + search_results(patterns.last(), text).len()
    }
}

/// Some pattern matches a line of `text` without capture group 1.
pub open spec fn any_match_without_group(patterns: Seq<Seq<char>>, text: Seq<char>) -> bool {
    exists|i: int| 0 <= i < patterns.len() && #[trigger] has_match_without_group(patterns[i], text)
}

/// The values that the rules pick out of `text`: entry `i` for `configs[i]`.
pub open spec fn block_values(configs: Seq<ParserConfig>, text: Seq<char>) -> Seq<Seq<Seq<char>>> {
    Seq::new(configs.len(), |i: int| search_results(configs[i].regex@, text))
}

/// The values to send on each of `n` rules' channels: `found[i]` for rule
/// `i`, and nothing for a rule without an entry.
pub open spec fn planned_values(found: Seq<Vec<String>>, n: nat) -> Seq<Seq<Seq<char>>> {
    Seq::new(n, |i: int| if i < found.len() { found[i].deep_view() } else { Seq::empty() })
}

/// `after` holds the rules of `before`: the same settings, patterns and
/// channels, in the same order.
pub open spec fn same_rules(before: Seq<ParserConfig>, after: Seq<ParserConfig>) -> bool {
    &&& after.len() == before.len()
    &&& forall|i: int|
        0 <= i < before.len() ==> {
            &&& #[trigger] after[i].base_config == before[i].base_config
            &&& after[i].regex == before[i].regex
            &&& after[i].channel_tx.channel() == before[i].channel_tx.channel()
        }
}

/// From `before` to `after`, the channel of each rule `i < k` was handed all
/// of `plan[i]`, that of rule `k` the first `m` values of `plan[k]`, and the
/// others nothing; each in order, after what they had sent before.
pub open spec fn sent_through(
    before: Seq<ParserConfig>,
    after: Seq<ParserConfig>,
    plan: Seq<Seq<Seq<char>>>,
    k: int,
    m: int,
) -> bool {
    &&& same_rules(before, after)
    &&& plan.len() == before.len()
    &&& forall|i: int|
        0 <= i < before.len() ==> #[trigger] after[i].channel_tx.sent() == before[i].channel_tx.sent()
            + if i < k {
            plan[i]
        } else if i == k {
            plan[i].take(m)
        } else {
            Seq::empty()
        }
}

/// Every rule's channel was handed all of its planned values, in order.
pub open spec fn sent_all(before: Seq<ParserConfig>, after: Seq<ParserConfig>, plan: Seq<Seq<Seq<char>>>) -> bool {
    sent_through(before, after, plan, plan.len() as int, 0) && refusals_added(before, after, -1)
}

/// From `before` to `after`, the channel of rule `k` refused one more send
/// and no other channel refused any (`k` outside the rules: none refused).
pub open spec fn refusals_added(before: Seq<ParserConfig>, after: Seq<ParserConfig>, k: int) -> bool {
    &&& after.len() == before.len()
    &&& forall|i: int|
        0 <= i < before.len() ==> #[trigger] after[i].channel_tx.refusals() == before[i].channel_tx.refusals()
            + if i == k {
            1nat
        } else {
            0nat
        }
}

/// The channels were handed the planned values up to some value, the first
/// that a channel did not take: the send of that value was refused.
pub open spec fn sent_part(before: Seq<ParserConfig>, after: Seq<ParserConfig>, plan: Seq<Seq<Seq<char>>>) -> bool {
    exists|k: int, m: int|
        0 <= k < plan.len() && 0 <= m < plan[k].len() && #[trigger] sent_through(before, after, plan, k, m)
            && refusals_added(before, after, k)
}

/// Nothing was sent on any rule's channel.
pub open spec fn sent_nothing(before: Seq<ParserConfig>, after: Seq<ParserConfig>) -> bool {
    &&& same_rules(before, after)
    &&& refusals_added(before, after, -1)
    &&& forall|i: int| 0 <= i < before.len() ==> #[trigger] after[i].channel_tx.sent() == before[i].channel_tx.sent()
}

/// The values that each rule picks out of `text_block`: entry `i` holds
/// those of `configs[i]`, in line order. Fails exactly when some rule's
/// pattern matches a line without capture group 1.
pub fn values_in_block(configs: &Vec<ParserConfig>, text_block: &str) -> (r: Result<
    Vec<Vec<String>>,
    ReadLogError,
>)
    ensures
        r is Err <==> any_match_without_group(patterns_of(configs@), text_block@),
        r matches Err(e) ==> e == ReadLogError::MissingCaptureGroup,
        r matches Ok(found) ==> {
            &&& found@.len() == configs@.len()
            &&& forall|i: int|
                0 <= i < found@.len() ==> #[trigger] found@[i].deep_view() == search_results(
                    configs@[i].regex@,
                    text_block@,
                )
        },
{
    let ghost pats = patterns_of(configs@);
    let mut found: Vec<Vec<String>> = Vec::new();
    let mut i: usize = 0;
    while i < configs.len()
        invariant
            pats == patterns_of(configs@),
            0 <= i <= configs.len(),
            found@.len() == i,
            forall|j: int|
                0 <= j < i ==> #[trigger] found@[j].deep_view() == search_results(
                    configs@[j].regex@,
                    text_block@,
                ),
            forall|j: int| 0 <= j < i ==> !#[trigger] has_match_without_group(pats[j], text_block@),
        decreases configs.len() - i,
    {
        match try_search(&configs[i].regex, text_block) {
            None => {
                assert(has_match_without_group(pats[i as int], text_block@));
                return Err(ReadLogError::MissingCaptureGroup);
            },
            Some(results) => {
                found.push(results);
            },
        }
        i = i + 1;
    }
    Ok(found)
}

/// Some rule among `configs` has a value in `found` to send: an entry
/// `found[i]` that is not empty, with `configs[i]` there to send it.
pub open spec fn has_value_to_send(configs: Seq<ParserConfig>, found: Seq<Vec<String>>) -> bool {
    exists|i: int| 0 <= i < found.len() && i < configs.len() && #[trigger] found[i]@.len() > 0
}

/// Sends `found[i]`, in order, on the channel of `configs[i]`. Stops with
/// `ChannelClosed` at the first value that a channel does not take, the
/// values before it having been sent; when there is no value to send,
/// nothing is sent and it succeeds.
pub fn send_found(configs: &mut Vec<ParserConfig>, found: &Vec<Vec<String>>) -> (r: Result<
    (),
    ReadLogError,
>)
    ensures
        r is Ok ==> sent_all(old(configs)@, final(configs)@, planned_values(found@, old(configs)@.len())),
        r matches Err(e) ==> e == ReadLogError::ChannelClosed && sent_part(
            old(configs)@,
            final(configs)@,
            planned_values(found@, old(configs)@.len()),
        ),
        !has_value_to_send(old(configs)@, found@) ==> r == Ok::<(), ReadLogError>(()),
        r is Ok ==> forall|i: int|
            0 <= i < old(configs)@.len() && i < found@.len() ==> #[trigger] final(configs)@[i].channel_tx.sent()
                == old(configs)@[i].channel_tx.sent() + found@[i].deep_view(),
{
    let ghost before = configs@;
    let ghost plan = planned_values(found@, configs@.len());
    let mut i: usize = 0;
    while i < found.len() && i < configs.len()
        invariant
            before == old(configs)@,
            plan == planned_values(found@, before.len()),
            i <= found.len(),
            i <= before.len(),
            sent_through(before, configs@, plan, i as int, 0),
            refusals_added(before, configs@, -1),
            !has_value_to_send(before, found@) ==> forall|x: int|
                0 <= x < i ==> #[trigger] found@[x]@.len() == 0,
        decreases found.len() - i,
    {
        let mut j: usize = 0;
        while j < found[i].len()
            invariant
                before == old(configs)@,
                plan == planned_values(found@, before.len()),
                i < found.len(),
                i < before.len(),
                j <= found@[i as int]@.len(),
                sent_through(before, configs@, plan, i as int, j as int),
                refusals_added(before, configs@, -1),
            decreases found[i as int].len() - j,
        {
            let ghost cur = configs@;
            let value = found[i][j].clone();
            assert(plan[i as int] == found@[i as int].deep_view());
            assert(value@ == plan[i as int][j as int]);
            match configs[i].channel_tx.send(value) {
                Ok(()) => {
                    assert forall|x: int| 0 <= x < before.len() implies #[trigger] configs@[x].channel_tx.sent()
                        == before[x].channel_tx.sent() + if x < i {
                        plan[x]
                    } else if x == i {
                        plan[x].take(j + 1)
                    } else {
                        Seq::empty()
                    } by {
                        if x == i {
                            assert(plan[x].take(j + 1) =~= plan[x].take(j as int).push(plan[x][j as int]));
                            assert(cur[x].channel_tx.sent() == before[x].channel_tx.sent() + plan[x].take(j as int));
                        } else {
                            assert(configs@[x] == cur[x]);
                            assert(cur[x].channel_tx.sent() == before[x].channel_tx.sent() + if x < i {
                                plan[x]
                            } else {
                                Seq::empty()
                            });
                        }
                    }
                },
                Err(_) => {
                    assert forall|x: int| 0 <= x < before.len() implies #[trigger] configs@[x].channel_tx.sent()
                        == before[x].channel_tx.sent() + if x < i {
                        plan[x]
                    } else if x == i {
                        plan[x].take(j as int)
                    } else {
                        Seq::empty()
                    } by {
                        if x != i {
                            assert(configs@[x] == cur[x]);
                        }
                    }
                    assert(found@[i as int]@.len() > 0);
                    assert(has_value_to_send(before, found@));
                    assert(sent_through(before, configs@, plan, i as int, j as int));
                    return Err(ReadLogError::ChannelClosed);
                },
            }
            j = j + 1;
        }
        assert(plan[i as int].take(j as int) =~= plan[i as int]);
        assert forall|x: int| 0 <= x < before.len() implies #[trigger] configs@[x].channel_tx.sent()
            == before[x].channel_tx.sent() + if x < i + 1 {
            plan[x]
        } else if x == i + 1 {
            plan[x].take(0)
        } else {
            Seq::empty()
        } by {
            if x == i + 1 {
                assert(plan[x].take(0) =~= Seq::<Seq<char>>::empty());
            }
        }
        i = i + 1;
    }
    assert forall|x: int| 0 <= x < before.len() implies #[trigger] configs@[x].channel_tx.sent()
        == before[x].channel_tx.sent() + if x < before.len() {
        plan[x]
    } else if x == before.len() {
        plan[x].take(0)
    } else {
        Seq::empty()
    } by {
        if x >= i {
            assert(x >= found@.len());
            assert(plan[x] == Seq::<Seq<char>>::empty());
            assert(plan[x].take(0) =~= Seq::<Seq<char>>::empty());
        }
    }
    Ok(())
}

proof fn lemma_nothing_found(patterns: Seq<Seq<char>>, text: Seq<char>)
    requires
        total_found(patterns, text) == 0,
    ensures
        forall|i: int| 0 <= i < patterns.len() ==> #[trigger] search_results(patterns[i], text).len() == 0,
    decreases patterns.len(),
{
    if patterns.len() > 0 {
        lemma_nothing_found(patterns.drop_last(), text);
        assert forall|i: int| 0 <= i < patterns.len() implies #[trigger] search_results(patterns[i], text).len() == 0 by {
            if i < patterns.len() - 1 {
                assert(patterns[i] == patterns.drop_last()[i]);
            }
        }
    }
}

/// How many values were sent on the rules' channels in all, from `before`
/// to `after`.
pub open spec fn values_sent(before: Seq<ParserConfig>, after: Seq<ParserConfig>) -> int
    decreases before.len(),
{
    if before.len() == 0 || after.len() == 0 {
        0
    } else {
        values_sent(before.drop_last(), after.drop_last()) + after.last().channel_tx.sent().len()
            - before.last().channel_tx.sent().len()
    }
}

proof fn lemma_values_sent(before: Seq<ParserConfig>, after: Seq<ParserConfig>, text: Seq<char>)
    requires
        after.len() == before.len(),
        forall|i: int|
            0 <= i < before.len() ==> #[trigger] after[i].channel_tx.sent() == before[i].channel_tx.sent()
                + search_results(before[i].regex@, text),
    ensures
        values_sent(before, after) == total_found(patterns_of(before), text),
    decreases before.len(),
{
    if before.len() > 0 {
        let b = before.drop_last();
        let a = after.drop_last();
        assert forall|i: int| 0 <= i < b.len() implies #[trigger] a[i].channel_tx.sent() == b[i].channel_tx.sent()
            + search_results(b[i].regex@, text) by {
            assert(a[i] == after[i] && b[i] == before[i]);
        }
        lemma_values_sent(b, a, text);
        assert(patterns_of(before).drop_last() =~= patterns_of(b));
        let last = before.len() - 1;
        assert(after[last].channel_tx.sent() == before[last].channel_tx.sent() + search_results(before[last].regex@, text));
    }
}

/// One turn of the reading loop for a log file, after `text_block` was read
/// and `sent` values were sent before. An empty block ends the loop.
/// Otherwise the values that every rule finds in the block are sent on that
/// rule's channel, rule by rule and in line order, and the new total counts
/// them all. A match without group 1, or a total beyond `u32::MAX`, is
/// reported before anything is sent; a channel that takes no more values
/// stops the sending there.
pub fn read_log_step(configs: &mut Vec<ParserConfig>, text_block: &str, sent: u32) -> (r: Result<
    LogStep,
    ReadLogError,
>)
    ensures
        text_block@.len() == 0 ==> r == Ok::<LogStep, ReadLogError>(LogStep::Finished(sent))
            && sent_nothing(old(configs)@, final(configs)@),
        text_block@.len() > 0 && any_match_without_group(patterns_of(old(configs)@), text_block@) ==> r
            == Err::<LogStep, ReadLogError>(ReadLogError::MissingCaptureGroup) && sent_nothing(
            old(configs)@,
            final(configs)@,
        ),
        text_block@.len() > 0 && !any_match_without_group(patterns_of(old(configs)@), text_block@)
            && sent + total_found(patterns_of(old(configs)@), text_block@) > u32::MAX ==> r
            == Err::<LogStep, ReadLogError>(ReadLogError::CountOverflow) && sent_nothing(
            old(configs)@,
            final(configs)@,
        ),
        text_block@.len() > 0 && !any_match_without_group(patterns_of(old(configs)@), text_block@)
            && sent + total_found(patterns_of(old(configs)@), text_block@) <= u32::MAX ==> ((r
            == Ok::<LogStep, ReadLogError>(
            LogStep::Continue((sent + total_found(patterns_of(old(configs)@), text_block@)) as u32),
        ) && sent_all(old(configs)@, final(configs)@, block_values(old(configs)@, text_block@))) || (r
            == Err::<LogStep, ReadLogError>(ReadLogError::ChannelClosed) && sent_part(
            old(configs)@,
            final(configs)@,
            block_values(old(configs)@, text_block@),
        ))),
        text_block@.len() > 0 && !any_match_without_group(patterns_of(old(configs)@), text_block@)
            && total_found(patterns_of(old(configs)@), text_block@) == 0 ==> r == Ok::<
            LogStep,
            ReadLogError,
        >(LogStep::Continue(sent)),
        r matches Ok(LogStep::Continue(n)) ==> {
            &&& final(configs)@.len() == old(configs)@.len()
            &&& forall|i: int|
                0 <= i < old(configs)@.len() ==> #[trigger] final(configs)@[i].channel_tx.sent()
                    == old(configs)@[i].channel_tx.sent() + search_results(
                    old(configs)@[i].regex@,
                    text_block@,
                )
            &&& n == sent + values_sent(old(configs)@, final(configs)@)
        },
{
    if text_block.is_empty() {
        return Ok(LogStep::Finished(sent));
    }
    let found = match values_in_block(configs, text_block) {
        Ok(found) => found,
        Err(e) => return Err(e),
    };
    let ghost pats = patterns_of(configs@);
    let ghost text = text_block@;
    let mut total: u32 = sent;
    let mut overflow = false;
    let mut i: usize = 0;
    while i < found.len()
        invariant
            pats == patterns_of(configs@),
            text == text_block@,
            found@.len() == configs@.len(),
            forall|j: int|
                0 <= j < found@.len() ==> #[trigger] found@[j].deep_view() == search_results(
                    configs@[j].regex@,
                    text,
                ),
            0 <= i <= found.len(),
            overflow <==> sent + total_found(pats.take(i as int), text) > u32::MAX,
            !overflow ==> total == sent + total_found(pats.take(i as int), text),
        decreases found.len() - i,
    {
        assert(pats.take(i + 1).drop_last() =~= pats.take(i as int));
        assert(pats.take(i + 1).last() == configs@[i as int].regex@);
        assert(found@[i as int].deep_view().len() == found@[i as int]@.len());
        if !overflow {
            if found[i].len() > (u32::MAX - total) as usize {
                overflow = true;
            } else {
                total = total + found[i].len() as u32;
            }
        }
        i = i + 1;
    }
    assert(pats.take(i as int) =~= pats);
    if overflow {
        return Err(ReadLogError::CountOverflow);
    }
    assert(planned_values(found@, configs@.len()) =~= block_values(configs@, text));
    proof {
        if total_found(pats, text) == 0 {
            lemma_nothing_found(pats, text);
            if has_value_to_send(configs@, found@) {
                let x = choose|x: int| 0 <= x < found@.len() && x < configs@.len() && #[trigger] found@[x]@.len() > 0;
                assert(found@[x].deep_view().len() == found@[x]@.len());
                assert(search_results(pats[x], text).len() == 0);
            }
        }
    }
    let ghost before = configs@;
    match send_found(configs, &found) {
        Ok(()) => {
            proof {
                let plan = block_values(before, text);
                assert forall|x: int| 0 <= x < before.len() implies #[trigger] configs@[x].channel_tx.sent()
                    == before[x].channel_tx.sent() + search_results(before[x].regex@, text) by {
                    assert(plan[x] == search_results(before[x].regex@, text));
                }
                lemma_values_sent(before, configs@, text);
            }
            Ok(LogStep::Continue(total))
        },
        Err(e) => Err(e),
    }
}

/// Reading a log in two blocks that split it at a line boundary finds as
/// many values as reading it in one block.
pub proof fn total_found_of_joined_blocks(patterns: Seq<Seq<char>>, first: Seq<char>, second: Seq<char>)
    requires
        first.len() == 0 || first.last() == '\n',
    ensures
        total_found(patterns, first + second) == total_found(patterns, first) + total_found(
            patterns,
            second,
        ),
    decreases patterns.len(),
{
    if patterns.len() > 0 {
        total_found_of_joined_blocks(patterns.drop_last(), first, second);
        search_of_joined_blocks(patterns.last(), first, second);
    }
}

proof fn lemma_scan_no_line_feed(text: Seq<char>)
    ensures
        forall|i: int, j: int|
            0 <= i < scan_lines(text).0.len() && 0 <= j < scan_lines(text).0[i].len()
                ==> #[trigger] scan_lines(text).0[i][j] != '\n',
        forall|j: int| 0 <= j < scan_lines(text).1.len() ==> #[trigger] scan_lines(text).1[j] != '\n',
    decreases text.len(),
{
    if text.len() > 0 {
        lemma_scan_no_line_feed(text.drop_last());
        let (done, cur) = scan_lines(text.drop_last());
        if text.last() == '\n' {
            let line = strip_cr(cur);
            assert forall|j: int| 0 <= j < line.len() implies #[trigger] line[j] != '\n' by {
                assert(line[j] == cur[j]);
            }
            assert forall|i: int, j: int|
                0 <= i < done.push(line).len() && 0 <= j < done.push(line)[i].len()
                    implies #[trigger] done.push(line)[i][j] != '\n' by {
                if i < done.len() {
                    assert(done.push(line)[i] == done[i]);
                }
            }
        }
    }
}

/// No line of a text holds a line feed.
pub proof fn lines_hold_no_line_feed(text: Seq<char>)
    ensures
        forall|i: int, j: int|
            0 <= i < lines_of(text).len() && 0 <= j < lines_of(text)[i].len()
                ==> #[trigger] lines_of(text)[i][j] != '\n',
{
    lemma_scan_no_line_feed(text);
    let (done, cur) = scan_lines(text);
    assert forall|i: int, j: int|
        0 <= i < lines_of(text).len() && 0 <= j < lines_of(text)[i].len()
            implies #[trigger] lines_of(text)[i][j] != '\n' by {
        if i < done.len() {
            assert(lines_of(text)[i] == done[i]);
        } else {
            assert(lines_of(text)[i] == cur);
        }
    }
}

/// `line` gives a value under `pattern`: the pattern matches it with
/// group 1 taking part.
pub open spec fn gives_value(pattern: Seq<char>, line: Seq<char>) -> bool {
    exists|g: Seq<char>| regex_group(pattern, line, VALUE_GROUP) == Some(Some(g))
}

/// The text of group 1 in the first match of `pattern` in `line`.
pub open spec fn value_given(pattern: Seq<char>, line: Seq<char>) -> Seq<char> {
    choose|g: Seq<char>| regex_group(pattern, line, VALUE_GROUP) == Some(Some(g))
}

proof fn lemma_groups_are_filtered_values(pattern: Seq<char>, lines: Seq<Seq<char>>)
    ensures
        groups_in(pattern, lines) == lines.filter(|l: Seq<char>| gives_value(pattern, l)).map_values(
            |l: Seq<char>| value_given(pattern, l),
        ),
        groups_in(pattern, lines).len() == matched_lines(pattern, lines).len(),
        forall|x: int|
            0 <= x < lines.len() ==> (gives_value(pattern, lines[x]) <==> matched_lines(
                pattern,
                lines,
            ).contains(x)),
        forall|k: int|
            0 <= k < matched_lines(pattern, lines).len() ==> 0 <= #[trigger] matched_lines(
                pattern,
                lines,
            )[k] < lines.len(),
    decreases lines.len(),
{
    let pred = |l: Seq<char>| gives_value(pattern, l);
    let val = |l: Seq<char>| value_given(pattern, l);
    if lines.len() > 0 {
        let rest = lines.drop_last();
        let last = lines.last();
        lemma_groups_are_filtered_values(pattern, rest);
        let fr = rest.filter(pred);
        let mr = matched_lines(pattern, rest);
        reveal_with_fuel(Seq::filter, 1);
        assert(lines.filter(pred) == if pred(last) { fr.push(last) } else { fr });
        match regex_group(pattern, last, VALUE_GROUP) {
            Some(Some(g)) => {
                assert(pred(last));
                assert(val(last) == g);
                assert(fr.push(last).map_values(val) =~= fr.map_values(val).push(g));
                assert(matched_lines(pattern, lines) == mr.push(lines.len() - 1));
            },
            _ => {
                assert(!pred(last));
                assert(matched_lines(pattern, lines) == mr);
            },
        }
        assert forall|x: int| 0 <= x < lines.len() implies (gives_value(pattern, lines[x])
            <==> matched_lines(pattern, lines).contains(x)) by {
            if x < lines.len() - 1 {
                assert(lines[x] == rest[x]);
                if mr.contains(x) {
                    let k = choose|k: int| 0 <= k < mr.len() && mr[k] == x;
                    assert(matched_lines(pattern, lines)[k] == x);
                }
                if matched_lines(pattern, lines).contains(x) {
                    let k = choose|k: int|
                        0 <= k < matched_lines(pattern, lines).len() && matched_lines(pattern, lines)[k] == x;
                    if k < mr.len() {
                        assert(matched_lines(pattern, lines)[k] == mr[k]);
                    }
                }
            } else {
                if gives_value(pattern, lines[x]) {
                    let ml = matched_lines(pattern, lines);
                    assert(ml[ml.len() - 1] == x);
                } else {
                    if matched_lines(pattern, lines).contains(x) {
                        let k = choose|k: int|
                            0 <= k < mr.len() && mr[k] == x;
                        assert(0 <= mr[k] < rest.len());
                    }
                }
            }
        }
    }
}

/// A search reports the value of every line that gives one, each once and
/// in line order, whatever its text, and nothing else: the values are the
/// lines that the pattern matches with group 1 taking part, each mapped to
/// its group's text. Its line indices are exactly those of such lines.
pub proof fn search_reports_every_value(pattern: Seq<char>, text: Seq<char>)
    ensures
        search_results(pattern, text) == lines_of(text).filter(|l: Seq<char>| gives_value(pattern, l)).map_values(
            |l: Seq<char>| value_given(pattern, l),
        ),
        search_results(pattern, text).len() == matched_lines(pattern, lines_of(text)).len(),
        forall|x: int|
            0 <= x < lines_of(text).len() ==> (gives_value(pattern, lines_of(text)[x])
                <==> matched_lines(pattern, lines_of(text)).contains(x)),
{
    lemma_groups_are_filtered_values(pattern, lines_of(text));
}

/// The values found by a list of rules are those found by its first part
/// and those found by the rest, each rule counting all of its own values
/// even where another rule has the same pattern.
pub proof fn total_found_adds_up(first: Seq<Seq<char>>, rest: Seq<Seq<char>>, text: Seq<char>)
    ensures
        total_found(first + rest, text) == total_found(first, text) + total_found(rest, text),
    decreases rest.len(),
{
    if rest.len() == 0 {
        assert(first + rest =~= first);
    } else {
        total_found_adds_up(first, rest.drop_last(), text);
        assert((first + rest).drop_last() =~= first + rest.drop_last());
        assert((first + rest).last() == rest.last());
    }
}

/// One rule finds exactly the values of its own search.
pub proof fn total_found_of_one_rule(pattern: Seq<char>, text: Seq<char>)
    ensures
        total_found(seq![pattern], text) == search_results(pattern, text).len(),
{
    let one = seq![pattern];
    assert(one.drop_last() =~= Seq::<Seq<char>>::empty());
    assert(one.last() == pattern);
    assert(total_found(Seq::<Seq<char>>::empty(), text) == 0);
    assert(total_found(one, text) == total_found(one.drop_last(), text) + search_results(one.last(), text).len());
}

/// The values planned for sending on each rule's channel are the rule's own
/// search results, unchanged, and the values handed over for rule `i` are
/// `found[i]`, unchanged.
pub proof fn planned_values_are_the_values_found(configs: Seq<ParserConfig>, found: Seq<Vec<String>>, text: Seq<char>)
    ensures
        block_values(configs, text).len() == configs.len(),
        forall|i: int|
            0 <= i < configs.len() ==> #[trigger] block_values(configs, text)[i] == search_results(
                configs[i].regex@,
                text,
            ),
        planned_values(found, configs.len()).len() == configs.len(),
        forall|i: int|
            0 <= i < configs.len() && i < found.len() ==> #[trigger] planned_values(found, configs.len())[i]
                == found[i].deep_view(),
{
}

} // verus!
