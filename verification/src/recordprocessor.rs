//! Batches of extracted values, ready to be stored.
use vstd::prelude::*;
use crate::config::{Config, RecordConfig};

verus! {

/// The most values that one batch holds.
pub const BATCH_LIMIT: usize = 100000;

/// Values to be stored in a collection, each under the same key.
#[derive(Debug)]
pub struct Record {
    pub collectionName: String,
    pub key: String,
    pub records: Vec<String>,
}

impl Record {
    /// The values `results` for the collection and key of `config`; `None`
    /// when there are no values, as such a record is not worth storing.
    pub fn new(config: &Config, results: Vec<String>) -> (r: Option<Record>)
        ensures
            r is None <==> results@.len() == 0,
            r matches Some(rec) ==> {
                &&& rec.collectionName == config.collectionName
                &&& rec.key == config.key
                &&& rec.records == results
            },
    {
        if results.len() == 0 {
            None
        } else {
            Some(
                Record {
                    collectionName: config.collectionName.clone(),
                    key: config.key.clone(),
                    records: results,
                },
            )
        }
    }
}

impl RecordConfig {
    /// Takes the values that are waiting on the rule's channel, in arrival
    /// order, as a batch for the rule's collection and key. It stops when no
    /// value is waiting or when the batch holds `BATCH_LIMIT` values; `None`
    /// when no value was waiting at all.
    pub fn next_batch(&mut self) -> (batch: Option<Record>)
        ensures
            final(self).base_config == old(self).base_config,
            final(self).channel_rx.channel() == old(self).channel_rx.channel(),
            batch is None ==> final(self).channel_rx.received() == old(self).channel_rx.received(),
            batch is None ==> final(self).channel_rx.ran_dry(),
            batch matches Some(rec) ==> {
                &&& rec.collectionName == old(self).base_config.collectionName
                &&& rec.key == old(self).base_config.key
                &&& 0 < rec.records@.len() <= BATCH_LIMIT
                &&& final(self).channel_rx.received() == old(self).channel_rx.received()
                    + rec.records.deep_view()
                &&& final(self).channel_rx.ran_dry() <==> rec.records@.len() < BATCH_LIMIT
            },
    {
        let mut records: Vec<String> = Vec::new();
        let mut drained = false;
        while !drained && records.len() < BATCH_LIMIT
            invariant
                records@.len() <= BATCH_LIMIT,
                self.base_config == old(self).base_config,
                self.channel_rx.channel() == old(self).channel_rx.channel(),
                self.channel_rx.received() == old(self).channel_rx.received() + records.deep_view(),
                drained ==> self.channel_rx.ran_dry() && records@.len() < BATCH_LIMIT,
                !drained && records@.len() > 0 ==> !self.channel_rx.ran_dry(),
            decreases BATCH_LIMIT - records@.len() + if drained { 0int } else { 1int },
        {
            let ghost before = records.deep_view();
            match self.channel_rx.try_receive() {
                Some(value) => {
                    let ghost v = value@;
                    records.push(value);
                    assert(records.deep_view() =~= before.push(v));
                },
                None => drained = true,
            }
        }
        Record::new(&self.base_config, records)
    }
}

} // verus!
