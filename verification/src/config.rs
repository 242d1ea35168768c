//! What a monitoring configuration holds: the log file, the pattern that
//! picks values out of it, and where the values are stored.
use vstd::prelude::*;
use std::sync::mpsc::{Receiver, Sender};
use crate::channel::{open_channel, receiver_channel, sender_channel, RecordReceiver, RecordSender};
use crate::pattern::{LogPattern, regex_accepts};

verus! {

/// One monitoring rule: the log file to read, the key under which each
/// value is stored, and the collection that stores it.
#[derive(Clone, Debug)]
pub struct Config {
    pub filename: String,
    pub key: String,
    pub collectionName: String,
}

/// The storing half of a rule: its settings and the receiving end of the
/// channel on which extracted values arrive.
pub struct RecordConfig {
    pub base_config: Config,
    pub channel_rx: RecordReceiver,
}

/// The reading half of a rule: its settings, its pattern, and the sending
/// end of the channel for the values it extracts.
pub struct ParserConfig {
    pub base_config: Config,
    pub regex: LogPattern,
    pub channel_tx: RecordSender,
}

/// All reading rules of one log file, together with that file's handle.
pub struct RegexBundle<F> {
    pub parser_configs: Vec<ParserConfig>,
    pub file_handler: F,
}

/// Why a rule could not be set up.
#[derive(Debug)]
pub enum ConfigError {
    /// The regex crate rejected the pattern.
    InvalidRegex(regex::Error),
}

impl Config {
    /// Sets up a rule: compiles `regStr` and connects the reading half to
    /// the storing half by a new channel. Fails exactly when the pattern is
    /// rejected; both halves then carry the same settings and the two ends
    /// of one channel, through which nothing has gone yet.
    pub fn new(regStr: String, filename: String, key: String, collectionName: String) -> (r: Result<
        (RecordConfig, ParserConfig),
        ConfigError,
    >)
        ensures
            r is Ok <==> regex_accepts(regStr@),
            r matches Ok((rec, parse)) ==> {
                &&& rec.base_config == parse.base_config
                &&& rec.base_config.filename@ == filename@
                &&& rec.base_config.key@ == key@
                &&& rec.base_config.collectionName@ == collectionName@
                &&& parse.regex@ == regStr@
                &&& rec.channel_rx.channel() == parse.channel_tx.channel()
                &&& rec.channel_rx.received() == Seq::<Seq<char>>::empty()
                &&& !rec.channel_rx.ran_dry()
                &&& parse.channel_tx.sent() == Seq::<Seq<char>>::empty()
            },
    {
        let regex = match LogPattern::new(regStr.as_str()) {
            Ok(p) => p,
            Err(e) => return Err(ConfigError::InvalidRegex(e)),
        };
        let (channel_tx, channel_rx) = open_channel();
        let config_copy = Config {
            filename: filename.clone(),
            key: key.clone(),
            collectionName: collectionName.clone(),
        };
        let base_config = Config { filename, key, collectionName };
        let record_config = RecordConfig::new(base_config, channel_rx);
        let parse_config = ParserConfig::new(config_copy, regex, channel_tx);
        Ok((record_config, parse_config))
    }
}

impl RecordConfig {
    pub fn new(base_config: Config, channel_rx: Receiver<String>) -> (r: RecordConfig)
        ensures
            r.base_config == base_config,
            r.channel_rx.channel() == receiver_channel(channel_rx),
            r.channel_rx.received() == Seq::<Seq<char>>::empty(),
            !r.channel_rx.ran_dry(),
    {
        RecordConfig { base_config, channel_rx: RecordReceiver::new(channel_rx) }
    }
}

impl ParserConfig {
    pub fn new(base_config: Config, regex: LogPattern, channel_tx: Sender<String>) -> (r: ParserConfig)
        ensures
            r.base_config == base_config,
            r.regex == regex,
            r.channel_tx.channel() == sender_channel(channel_tx),
            r.channel_tx.sent() == Seq::<Seq<char>>::empty(),
    {
        ParserConfig { base_config, regex, channel_tx: RecordSender::new(channel_tx) }
    }
}

impl<F> RegexBundle<F> {
    /// A bundle for an opened log file, with no rules yet.
    pub fn new(file_handler: F) -> (r: RegexBundle<F>)
        ensures
            r.parser_configs@.len() == 0,
            r.file_handler == file_handler,
    {
        RegexBundle { parser_configs: Vec::new(), file_handler }
    }

    /// Adds a reading rule after those already there.
    pub fn add_parse_config(&mut self, config: ParserConfig)
        ensures
            final(self).parser_configs@ == old(self).parser_configs@.push(config),
            final(self).file_handler == old(self).file_handler,
    {
        self.parser_configs.push(config);
    }
}

} // verus!
