//! The `std::sync::mpsc` channels that carry extracted values from the log
//! readers to the record writers. Each end keeps a record of what went
//! through it: the sending end the values it handed over, the receiving end
//! the values it took, both in order.
use vstd::prelude::*;
use std::sync::mpsc::{Receiver, Sender};

verus! {

#[verifier::external_type_specification]
#[verifier::external_body]
#[verifier::reject_recursive_types(T)]
pub struct ExSender<T>(std::sync::mpsc::Sender<T>);

#[verifier::external_type_specification]
#[verifier::external_body]
#[verifier::reject_recursive_types(T)]
pub struct ExReceiver<T>(std::sync::mpsc::Receiver<T>);

/// The channel that a sending end belongs to (its identity).
pub uninterp spec fn sender_channel(tx: Sender<String>) -> int;

/// The channel that a receiving end belongs to (its identity).
pub uninterp spec fn receiver_channel(rx: Receiver<String>) -> int;

/// Calls `std::sync::mpsc::channel`. Trusted: the two ends it returns
/// belong to one channel. That the channel is new, and that the receiving
/// end takes what the sending end sends in order, is not stated.
#[verifier::external_body]
pub(crate) fn open_channel() -> (ends: (Sender<String>, Receiver<String>))
    ensures
        sender_channel(ends.0) == receiver_channel(ends.1),
{
    std::sync::mpsc::channel()
}

/// Calls `Sender::send` on the sending end `s` with `value`. Trusted: on
/// success the send took `value`, which the end records as sent; on failure
/// (the receiving end is gone) `value` comes back, as `SendError` hands it
/// back, and the end records one more refused send. Which of the two happens
/// depends on the other thread and is not stated.
#[verifier::external_body]
fn send_value(s: &mut RecordSender, value: String) -> (r: Result<(), String>)
    ensures
        final(s).channel() == old(s).channel(),
        r is Ok ==> final(s).sent() == old(s).sent().push(value@),
        r is Ok ==> final(s).refusals() == old(s).refusals(),
        r matches Err(v) ==> v == value,
        r is Err ==> final(s).sent() == old(s).sent(),
        r is Err ==> final(s).refusals() == old(s).refusals() + 1,
{
    s.tx.send(value).map_err(|e| e.0)
}

/// Calls `Receiver::try_recv`, giving `None` for either of its errors
/// (nothing pending, or all senders gone). What arrives depends on other
/// threads and is not stated.
#[verifier::external_body]
fn try_receive_value(rx: &Receiver<String>) -> (r: Option<String>) {
    rx.try_recv().ok()
}

/// The sending end of a channel, with the values it has handed over.
pub struct RecordSender {
    tx: Sender<String>,
    sent: Ghost<Seq<Seq<char>>>,
    refused: Ghost<nat>,
}

/// The receiving end of a channel, with the values it has taken.
pub struct RecordReceiver {
    rx: Receiver<String>,
    received: Ghost<Seq<Seq<char>>>,
    ran_dry: Ghost<bool>,
}

impl RecordSender {
    /// The channel this end belongs to.
    pub closed spec fn channel(&self) -> int {
        sender_channel(self.tx)
    }

    /// The values handed over through this end so far, in order.
    pub closed spec fn sent(&self) -> Seq<Seq<char>> {
        self.sent@
    }

    /// How many sends through this end have been refused.
    pub closed spec fn refusals(&self) -> nat {
        self.refused@
    }

    /// Takes the sending end `tx`, through which nothing has gone yet.
    pub fn new(tx: Sender<String>) -> (s: RecordSender)
        ensures
            s.channel() == sender_channel(tx),
            s.sent() == Seq::<Seq<char>>::empty(),
            s.refusals() == 0,
    {
        RecordSender { tx, sent: Ghost(Seq::empty()), refused: Ghost(0) }
    }

    /// Sends `value`. On success it is recorded as sent; on failure (the
    /// receiving end is gone) the value comes back, nothing is recorded as
    /// sent and the refusal is counted.
    pub fn send(&mut self, value: String) -> (r: Result<(), String>)
        ensures
            final(self).channel() == old(self).channel(),
            r is Ok ==> final(self).sent() == old(self).sent().push(value@),
            r is Ok ==> final(self).refusals() == old(self).refusals(),
            r matches Err(v) ==> v == value,
            r is Err ==> final(self).sent() == old(self).sent(),
            r is Err ==> final(self).refusals() == old(self).refusals() + 1,
    {
        send_value(self, value)
    }
}

impl RecordReceiver {
    /// The channel this end belongs to.
    pub closed spec fn channel(&self) -> int {
        receiver_channel(self.rx)
    }

    /// The values taken through this end so far, in order.
    pub closed spec fn received(&self) -> Seq<Seq<char>> {
        self.received@
    }

    /// The last attempt to take a value found none.
    pub closed spec fn ran_dry(&self) -> bool {
        self.ran_dry@
    }

    /// Takes the receiving end `rx`, through which nothing has gone yet.
    pub fn new(rx: Receiver<String>) -> (r: RecordReceiver)
        ensures
            r.channel() == receiver_channel(rx),
            r.received() == Seq::<Seq<char>>::empty(),
            !r.ran_dry(),
    {
        RecordReceiver { rx, received: Ghost(Seq::empty()), ran_dry: Ghost(false) }
    }

    /// Takes a value that is waiting, if there is one; records it as
    /// received, or records that none was waiting.
    pub fn try_receive(&mut self) -> (r: Option<String>)
        ensures
            final(self).channel() == old(self).channel(),
            r matches Some(v) ==> final(self).received() == old(self).received().push(v@),
            r matches Some(v) ==> !final(self).ran_dry(),
            r is None ==> final(self).received() == old(self).received(),
            r is None ==> final(self).ran_dry(),
    {
        let r = try_receive_value(&self.rx);
        match &r {
            Some(v) => {
                proof {
                    self.received@ = self.received@.push(v@);
                    self.ran_dry@ = false;
                }
            },
            None => {
                proof {
                    self.ran_dry@ = true;
                }
            },
        }
        r
    }
}

} // verus!
