//! The access port: requests that go out to the DHT engine and replies that
//! come back, as plain values.
//!
//! The engine runs elsewhere. A request is one outstanding exchange: it is
//! answered once, with a result or with an error, and never retried here.

use vstd::prelude::*;
use crate::record::{Record, RecordView};

verus! {

/// How many replicas must answer before a request counts as complete.
#[derive(Clone, Copy, Debug, PartialEq, Eq, Structural)]
pub enum Quorum {
    /// One replica is enough.
    One,
    /// More than half of the replicas.
    Majority,
    /// Every replica.
    All,
}

/// Why a request brought no result.
#[derive(Clone, Copy, Debug, PartialEq, Eq, Structural)]
pub enum PortError {
    /// The request could not be handed over: the engine no longer listens.
    CommandChannelClosed,
    /// The engine took the request and dropped it without an answer.
    ReplyChannelClosed,
    /// The engine answered that the request failed or timed out.
    Engine,
}

/// What comes back for a get: the records found under the key, or an error.
pub type GetReply = Result<Vec<Record>, PortError>;

/// What comes back for a put.
pub type PutReply = Result<(), PortError>;

/// A request for the records stored under a key.
#[derive(Clone, Debug)]
pub struct GetRequest {
    pub key: Vec<u8>,
    pub quorum: Quorum,
}

/// What a get request is in contracts.
pub struct GetRequestView {
    pub key: Seq<u8>,
    pub quorum: Quorum,
}

impl View for GetRequest {
    type V = GetRequestView;

    open spec fn view(&self) -> GetRequestView {
        GetRequestView { key: self.key@, quorum: self.quorum }
    }
}

impl DeepView for GetRequest {
    type V = GetRequestView;

    open spec fn deep_view(&self) -> GetRequestView {
        self@
    }
}

/// A request to store a record.
#[derive(Clone, Debug)]
pub struct PutRequest {
    pub record: Record,
    pub quorum: Quorum,
}

/// What a put request is in contracts.
pub struct PutRequestView {
    pub record: RecordView,
    pub quorum: Quorum,
}

impl View for PutRequest {
    type V = PutRequestView;

    open spec fn view(&self) -> PutRequestView {
        PutRequestView { record: self.record@, quorum: self.quorum }
    }
}

/// The value that a reply to a get offers: that of the first record, where
/// there is one. Further records are not looked at.
pub open spec fn answer_of(reply: GetReply) -> Option<Seq<u8>> {
    match reply {
        Ok(records) => if records@.len() > 0 {
            Some(records@[0].value@)
        } else {
            None
        },
        Err(_) => None,
    }
}

/// The values that a sequence of replies offers, reply by reply.
pub open spec fn answers_of(replies: Seq<GetReply>) -> Seq<Option<Seq<u8>>> {
    Seq::new(replies.len(), |i: int| answer_of(replies[i]))
}

/// Whether a reply to a put reports a failure.
pub open spec fn failed(reply: PutReply) -> bool {
    reply is Err
}

/// How many of the first `n` replies report a failure.
pub open spec fn failures_among(replies: Seq<PutReply>, n: nat) -> nat
    decreases n,
{
    if n == 0 {
        0
    } else {
        failures_among(replies, (n - 1) as nat) + if failed(replies[n - 1]) {
            1nat
        } else {
            0nat
        }
    }
}

/// How many of the replies report a failure.
pub open spec fn failures_of(replies: Seq<PutReply>) -> nat {
    failures_among(replies, replies.len())
}

/// Whether every reply reports a failure.
pub open spec fn all_failed(replies: Seq<PutReply>) -> bool {
    forall|i: int| 0 <= i < replies.len() ==> failed(#[trigger] replies[i])
}

/// Whether no reply reports a failure.
pub open spec fn none_failed(replies: Seq<PutReply>) -> bool {
    forall|i: int| 0 <= i < replies.len() ==> !failed(#[trigger] replies[i])
}

/// Among the first `n` replies there are at most `n` failures: `n` where each
/// of them failed and none where none of them did.
proof fn lemma_failures_among(replies: Seq<PutReply>, n: nat)
    requires
        n <= replies.len(),
    ensures
        failures_among(replies, n) <= n,
        all_failed(replies) ==> failures_among(replies, n) == n,
        none_failed(replies) ==> failures_among(replies, n) == 0,
    decreases n,
{
    if n > 0 {
        lemma_failures_among(replies, (n - 1) as nat);
        assert(all_failed(replies) ==> failed(replies[n - 1]));
        assert(none_failed(replies) ==> !failed(replies[n - 1]));
    }
}

/// There are no more failures than replies: as many where every reply is a
/// failure, and none where no reply is.
pub proof fn lemma_failures_of(replies: Seq<PutReply>)
    ensures
        failures_of(replies) <= replies.len(),
        all_failed(replies) ==> failures_of(replies) == replies.len(),
        none_failed(replies) ==> failures_of(replies) == 0,
{
    lemma_failures_among(replies, replies.len());
}

} // verus!
