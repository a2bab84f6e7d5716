//! The client: a parallelism limit and a time to live, and the batches run
//! under them.
//!
//! The client itself sends nothing. [`Client::fetch_batch`] and
//! [`Client::publish_batch`] start a batch whose requests the caller sends
//! and whose replies the caller hands back. [`Client::fetch_cells_from_dht`],
//! [`Client::insert_into_dht`] and [`Client::bootstrap`] run a whole call
//! against replies that are already known, and say what the call returns for
//! them.

use vstd::prelude::*;
use vstd::slice::slice_subrange;
use crate::bootstrap::{
    bootstrap_result, first_error, lemma_first_error_stays, Bootstrap, BootstrapStep,
};
use crate::fetch::{
    all_found, fetched_cells, lemma_all_found, outcomes_of, positions_of, unfetched_positions,
    FetchBatch, FetchBatchView,
};
use crate::matrix::{Cell, Position};
use crate::port::{
    all_failed, answers_of, failures_among, failures_of, lemma_failures_of, none_failed, GetReply,
    PortError, PutReply,
};
use crate::publish::{success_ratio, PublishBatch, PublishBatchView, SuccessRatio};

verus! {

/// The settings under which cells are fetched and published.
#[derive(Clone, Copy, Debug)]
pub struct Client {
    /// Number of cells to fetch in parallel
    dht_parallelization_limit: usize,
    /// Cell time to live in DHT (in seconds)
    ttl: u64,
}

impl Client {
    /// The parallelism limit of the client.
    pub closed spec fn limit(self) -> usize {
        self.dht_parallelization_limit
    }

    /// The seconds for which the client's records live.
    pub closed spec fn time_to_live(self) -> u64 {
        self.ttl
    }

    /// A client that keeps at most `dht_parallelization_limit` requests in
    /// flight and publishes records that live for `ttl` seconds.
    pub fn new(dht_parallelization_limit: usize, ttl: u64) -> (client: Self)
        ensures
            client.limit() == dht_parallelization_limit,
            client.time_to_live() == ttl,
    {
        Client { dht_parallelization_limit, ttl }
    }

    /// The parallelism limit of the client.
    pub fn dht_parallelization_limit(&self) -> (limit: usize)
        ensures
            limit == self.limit(),
    {
        self.dht_parallelization_limit
    }

    /// The seconds for which the client's records live.
    pub fn ttl(&self) -> (ttl: u64)
        ensures
            ttl == self.time_to_live(),
    {
        self.ttl
    }

    /// Starts fetching the cells at `positions` in block `block_number`.
    pub fn fetch_batch(&self, block_number: u32, positions: &[Position]) -> (batch: FetchBatch)
        requires
            self.limit() > 0,
        ensures
            batch@ == FetchBatchView::start(block_number, positions@, self.limit() as nat),
            batch@.wf(),
    {
        FetchBatch::new(block_number, positions, self.dht_parallelization_limit)
    }

    /// Starts publishing `cells` of block `block`.
    pub fn publish_batch(&self, block: u32, cells: Vec<Cell>) -> (batch: PublishBatch)
        ensures
            batch@ == PublishBatchView::start(
                block,
                cells.deep_view(),
                self.limit() as nat,
                self.time_to_live(),
            ),
            batch@.wf(),
    {
        PublishBatch::new(block, cells, self.dht_parallelization_limit, self.ttl)
    }

    /// Fetches cells from the DHT, where `replies` holds what the DHT answers
    /// to the get of each position, in the order of the positions. Returns
    /// the fetched cells and the unfetched positions, each in the order of
    /// `positions`. The positions are asked for in chunks of the parallelism
    /// limit; what is returned does not depend on the limit.
    pub fn fetch_cells_from_dht(
        &self,
        block_number: u32,
        positions: &[Position],
        replies: &[GetReply],
    ) -> (split: (Vec<Cell>, Vec<Position>))
        requires
            self.limit() > 0,
            replies@.len() == positions@.len(),
        ensures
            split.0.deep_view() == fetched_cells(
                outcomes_of(positions@, answers_of(replies@)),
            ),
            split.1@ == unfetched_positions(
                positions@,
                outcomes_of(positions@, answers_of(replies@)),
            ),
            split.0@.len() + split.1@.len() == positions@.len(),
            positions_of(split.0.deep_view()).to_multiset().add(split.1@.to_multiset())
                == positions@.to_multiset(),
            all_found(answers_of(replies@)) ==> split.1@.len() == 0,
            all_found(answers_of(replies@)) ==> split.0@.len() == positions@.len(),
            all_found(answers_of(replies@)) ==> forall|i: int|
                0 <= i < positions@.len() ==> (#[trigger] split.0@[i]).position == positions@[i],
    {
        let ghost outcomes = outcomes_of(positions@, answers_of(replies@));
        proof {
            if all_found(answers_of(replies@)) {
                lemma_all_found(positions@, answers_of(replies@));
            }
        }
        let mut batch = self.fetch_batch(block_number, positions);
        let mut start: usize = 0;
        while !batch.is_done()
            invariant
                batch@.wf(),
                batch@.in_flight == 0,
                batch@.resolved == start,
                start <= positions.len(),
                batch@.positions == positions@,
                batch@.block_number == block_number,
                batch@.limit == self.limit(),
                replies@.len() == positions@.len(),
                outcomes == outcomes_of(positions@, answers_of(replies@)),
                forall|i: int| 0 <= i < start ==> batch@.outcomes[i] == outcomes[i],
            decreases positions@.len() - start,
        {
            let requests = batch.next_chunk();
            let count: usize = requests.len();
            assert(count == requests.deep_view().len());
            let chunk = slice_subrange(replies, start, start + count);
            batch.record_chunk(chunk);
            start = start + count;
        }
        assert(batch@.outcomes =~= outcomes);
        let split = batch.finish();
        proof {
            if all_found(answers_of(replies@)) {
                assert(split.0@.len() == split.0.deep_view().len());
                assert forall|i: int| 0 <= i < positions@.len() implies (#[trigger] split.0@[i]).position
                    == positions@[i] by {
                    assert(split.0.deep_view()[i] == split.0@[i]@);
                }
            }
        }
        split
    }

    /// Inserts cells into the DHT, where `replies` holds what the DHT answers
    /// to the put of each cell, in the order of the cells. There is no
    /// rollback and no retry: a failed put is counted and skipped. Returns
    /// the success ratio of the puts: one less the number of failures over
    /// the number of cells, and one where there are no cells. The puts go out
    /// under the parallelism limit; what is returned does not depend on the
    /// limit.
    pub fn insert_into_dht(&self, block: u32, cells: Vec<Cell>, replies: &[PutReply]) -> (ratio:
        SuccessRatio)
        requires
            replies@.len() == cells@.len(),
        ensures
            ratio.wf(),
            (ratio.numerator as nat, ratio.denominator as nat) == success_ratio(
                cells@.len(),
                failures_of(replies@),
            ),
            cells@.len() == 0 ==> ratio.numerator == 1 && ratio.denominator == 1,
            cells@.len() > 0 ==> ratio.denominator == cells@.len() && ratio.numerator
                == cells@.len() - failures_of(replies@),
            cells@.len() > 0 && all_failed(replies@) ==> ratio.numerator == 0,
            none_failed(replies@) ==> ratio.numerator == ratio.denominator,
    {
        proof {
            lemma_failures_of(replies@);
        }
        let total: usize = cells.len();
        let mut batch = self.publish_batch(block, cells);
        let mut answered: usize = 0;
        while !batch.is_done()
            invariant
                batch@.wf(),
                batch@.cells.len() == total,
                replies@.len() == total,
                batch@.completed == answered,
                batch@.failures == failures_among(replies@, answered as nat),
            decreases total - answered,
        {
            let mut more: bool = true;
            while more
                invariant
                    batch@.wf(),
                    batch@.cells.len() == total,
                    batch@.completed == answered,
                    batch@.failures == failures_among(replies@, answered as nat),
                    !more ==> !batch@.may_issue(),
                decreases
                        total - batch@.issued + if more {
                            1nat
                        } else {
                            0nat
                        },
            {
                match batch.next_put() {
                    Some(_) => {},
                    None => {
                        more = false;
                    },
                }
            }
            batch.record_reply(&replies[answered]);
            answered = answered + 1;
        }
        batch.success_ratio()
    }

    /// Bootstraps from `nodes` nodes, where `replies` holds what the engine
    /// answers to each node's address, in the order of the nodes, and after
    /// them what it answers to the bootstrap itself. Returns the first error
    /// among them. After an error nothing more is sent, so the replies that
    /// follow it are not looked at.
    pub fn bootstrap(&self, nodes: usize, replies: &[PutReply]) -> (result: Result<(), PortError>)
        requires
            replies@.len() == nodes + 1,
        ensures
            result == bootstrap_result(nodes as nat, replies@),
    {
        let mut plan = Bootstrap::new(nodes);
        loop
            invariant
                plan@.wf(),
                plan@.nodes == nodes,
                replies@.len() == nodes + 1,
                plan@.ended is None ==> first_error(replies@, plan@.added) is None,
                plan@.ended == Some(None::<PortError>) ==> first_error(
                    replies@,
                    (nodes + 1) as nat,
                ) is None,
                plan@.ended matches Some(Some(error)) ==> first_error(
                    replies@,
                    (nodes + 1) as nat,
                ) == Some(error),
            decreases
                    if plan@.ended is Some {
                        0
                    } else {
                        nodes - plan@.added + 2
                    },
        {
            let ghost before = plan@;
            match plan.step() {
                BootstrapStep::AddAddress(index) => {
                    plan.record_reply(&replies[index]);
                    proof {
                        if plan@.ended is Some {
                            lemma_first_error_stays(
                                replies@,
                                (before.added + 1) as nat,
                                (nodes + 1) as nat,
                            );
                        }
                    }
                },
                BootstrapStep::Bootstrap => {
                    plan.record_reply(&replies[nodes]);
                },
                BootstrapStep::Succeeded => {
                    return Ok(());
                },
                BootstrapStep::Failed(error) => {
                    return Err(error);
                },
            }
        }
    }
}

} // verus!
