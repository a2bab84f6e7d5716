//! Publishing a batch of cells with a bound on the puts in flight.
//!
//! Each cell becomes one record and one put. Puts are handed out in the order
//! of the cells, and while the parallelism limit is reached the next one
//! waits until a reply has come back. A limit of zero is no limit. A put that
//! fails is counted and otherwise forgotten: nothing is retried and nothing
//! is taken back. The batch ends in the ratio of the puts that did not fail.

use vstd::prelude::*;
use crate::codec::{record_of, DHTCell};
use crate::matrix::{Cell, CellView};
use crate::port::{failed, PutReply, PutRequest, Quorum};

verus! {

/// A ratio between zero and one, as a fraction.
#[derive(Clone, Copy, Debug, PartialEq, Eq, Structural)]
pub struct SuccessRatio {
    pub numerator: usize,
    pub denominator: usize,
}

impl SuccessRatio {
    /// A success ratio is a fraction of a whole that is not zero.
    pub open spec fn wf(self) -> bool {
        0 < self.denominator && self.numerator <= self.denominator
    }
}

/// The success ratio of a batch of `attempted` puts of which `failures`
/// failed, as numerator and denominator: one less the share of the failures.
/// A batch of no puts has succeeded as a whole.
pub open spec fn success_ratio(attempted: nat, failures: nat) -> (nat, nat)
    recommends
        failures <= attempted,
{
    if attempted == 0 {
        (1, 1)
    } else {
        ((attempted - failures) as nat, attempted)
    }
}

/// A batch of cells on its way into the DHT.
pub struct PublishBatch {
    block: u32,
    ttl: u64,
    cells: Vec<DHTCell>,
    limit: usize,
    issued: usize,
    completed: usize,
    failures: usize,
}

/// What a batch of puts is in contracts.
pub struct PublishBatchView {
    /// The block whose cells are published.
    pub block: u32,
    /// The seconds for which each record is to live.
    pub ttl: u64,
    /// The cells to publish, in the caller's order.
    pub cells: Seq<CellView>,
    /// The most puts that may be outstanding at once; zero for no limit.
    pub limit: nat,
    /// How many puts, from the front, were handed out.
    pub issued: nat,
    /// How many puts have had their reply.
    pub completed: nat,
    /// How many replies reported a failure.
    pub failures: nat,
}

impl PublishBatchView {
    /// What holds of every batch at every moment.
    pub open spec fn wf(self) -> bool {
        &&& self.failures <= self.completed <= self.issued <= self.cells.len()
        &&& self.limit > 0 ==> self.issued - self.completed <= self.limit
    }

    /// A new batch: nothing handed out, nothing answered.
    pub open spec fn start(block: u32, cells: Seq<CellView>, limit: nat, ttl: u64) -> Self {
        PublishBatchView { block, ttl, cells, limit, issued: 0, completed: 0, failures: 0 }
    }

    /// How many puts are outstanding.
    pub open spec fn in_flight(self) -> nat {
        (self.issued - self.completed) as nat
    }

    /// Whether a put may be handed out now: a cell is left and the limit, if
    /// there is one, is not reached.
    pub open spec fn may_issue(self) -> bool {
        self.issued < self.cells.len() && (self.limit == 0 || self.in_flight() < self.limit)
    }

    /// The batch after the next put was handed out.
    pub open spec fn issue(self) -> Self
        recommends
            self.may_issue(),
    {
        PublishBatchView { issued: self.issued + 1, ..self }
    }

    /// The batch after one outstanding put was answered.
    pub open spec fn record(self, reply: PutReply) -> Self
        recommends
            self.in_flight() > 0,
    {
        PublishBatchView {
            completed: self.completed + 1,
            failures: if failed(reply) {
                self.failures + 1
            } else {
                self.failures
            },
            ..self
        }
    }

    /// Whether every put has had its reply.
    pub open spec fn done(self) -> bool {
        self.completed == self.cells.len()
    }

    /// The success ratio of the batch as its replies stand.
    pub open spec fn ratio(self) -> (nat, nat) {
        success_ratio(self.cells.len(), self.failures)
    }
}

impl View for PublishBatch {
    type V = PublishBatchView;

    closed spec fn view(&self) -> PublishBatchView {
        PublishBatchView {
            block: self.block,
            ttl: self.ttl,
            cells: self.cells.deep_view(),
            limit: self.limit as nat,
            issued: self.issued as nat,
            completed: self.completed as nat,
            failures: self.failures as nat,
        }
    }
}

impl PublishBatch {
    /// A batch that publishes `cells` of block `block`, at most `limit` of
    /// them at once (all at once where `limit` is zero), each to live for
    /// `ttl` seconds.
    pub fn new(block: u32, cells: Vec<Cell>, limit: usize, ttl: u64) -> (batch: Self)
        ensures
            batch@ == PublishBatchView::start(block, cells.deep_view(), limit as nat, ttl),
            batch@.wf(),
    {
        let mut wrapped: Vec<DHTCell> = Vec::with_capacity(cells.len());
        let mut i: usize = 0;
        while i < cells.len()
            invariant
                i <= cells.len(),
                wrapped@.len() == i,
                forall|j: int| 0 <= j < i ==> (#[trigger] wrapped@[j])@ == cells@[j]@,
            decreases cells.len() - i,
        {
            wrapped.push(DHTCell(cells[i]));
            i += 1;
        }
        assert(wrapped.deep_view() =~= cells.deep_view());
        PublishBatch { block, ttl, cells: wrapped, limit, issued: 0, completed: 0, failures: 0 }
    }

    /// How many puts are outstanding. Where there is a limit, they never
    /// exceed it.
    pub fn in_flight(&self) -> (in_flight: usize)
        requires
            self@.wf(),
        ensures
            in_flight == self@.in_flight(),
            self@.limit > 0 ==> in_flight <= self@.limit,
    {
        self.issued - self.completed
    }

    /// Whether every put has had its reply.
    pub fn is_done(&self) -> (done: bool)
        ensures
            done == self@.done(),
    {
        self.completed == self.cells.len()
    }

    /// Hands out the next put, if one may go out now: the record of the next
    /// cell, to be stored on one replica at least. The record expires `ttl`
    /// seconds after this call, as far as the clock can tell.
    pub fn next_put(&mut self) -> (request: Option<PutRequest>)
        requires
            old(self)@.wf(),
        ensures
            final(self)@.wf(),
            request is Some <==> old(self)@.may_issue(),
            request is Some ==> final(self)@ == old(self)@.issue(),
            request is None ==> final(self)@ == old(self)@,
            request matches Some(put) ==> put@.quorum == Quorum::One && put@.record == record_of(
                old(self)@.block,
                old(self)@.cells[old(self)@.issued as int],
                put.record.expires,
            ),
    {
        if self.issued < self.cells.len() && (self.limit == 0 || self.issued - self.completed
            < self.limit) {
            let record = self.cells[self.issued].dht_record(self.block, self.ttl);
            self.issued = self.issued + 1;
            Some(PutRequest { record, quorum: Quorum::One })
        } else {
            None
        }
    }

    /// Takes the reply to one outstanding put. Which put it answers does not
    /// matter: a failure is counted, whichever cell it was.
    pub fn record_reply(&mut self, reply: &PutReply)
        requires
            old(self)@.wf(),
            old(self)@.in_flight() > 0,
        ensures
            final(self)@ == old(self)@.record(*reply),
            final(self)@.wf(),
    {
        self.completed = self.completed + 1;
        if reply.is_err() {
            self.failures = self.failures + 1;
        }
    }

    /// The success ratio of the batch as its replies stand: one less the
    /// share of the puts that failed, and one for a batch of no cells.
    pub fn success_ratio(&self) -> (ratio: SuccessRatio)
        requires
            self@.wf(),
        ensures
            ratio.wf(),
            (ratio.numerator as nat, ratio.denominator as nat) == self@.ratio(),
    {
        if self.cells.len() == 0 {
            SuccessRatio { numerator: 1, denominator: 1 }
        } else {
            SuccessRatio {
                numerator: self.cells.len() - self.failures,
                denominator: self.cells.len(),
            }
        }
    }
}

/// No more puts are outstanding than the limit allows, at any moment of any
/// batch: a new batch is well formed, handing out a put that may go out and
/// taking the reply to an outstanding one keep it so, and a well-formed batch
/// with a limit has at most that many puts in flight.
pub proof fn lemma_in_flight_is_bounded(batch: PublishBatchView, reply: PutReply)
    requires
        batch.wf(),
    ensures
        batch.limit > 0 ==> batch.in_flight() <= batch.limit,
        batch.may_issue() ==> batch.issue().wf(),
        batch.in_flight() > 0 ==> batch.record(reply).wf(),
{
}

/// A new batch is well formed and has nothing in flight.
pub proof fn lemma_start_is_well_formed(block: u32, cells: Seq<CellView>, limit: nat, ttl: u64)
    ensures
        PublishBatchView::start(block, cells, limit, ttl).wf(),
        PublishBatchView::start(block, cells, limit, ttl).in_flight() == 0,
{
}

/// The success ratio is a fraction between zero and one. It is one for a
/// batch of no puts and where no put failed, zero where every put of a batch
/// that is not empty failed, and where `failures` of `attempted` puts failed
/// it is `attempted - failures` over `attempted`.
pub proof fn lemma_success_ratio(attempted: nat, failures: nat)
    requires
        failures <= attempted,
    ensures
        0 < success_ratio(attempted, failures).1,
        success_ratio(attempted, failures).0 <= success_ratio(attempted, failures).1,
        attempted == 0 ==> success_ratio(attempted, failures) == (1nat, 1nat),
        failures == 0 ==> success_ratio(attempted, failures).0 == success_ratio(
            attempted,
            failures,
        ).1,
        attempted > 0 ==> success_ratio(attempted, failures) == ((attempted - failures) as nat, attempted),
        attempted > 0 && failures == attempted ==> success_ratio(attempted, failures).0 == 0,
{
}

} // verus!
