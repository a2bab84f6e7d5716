//! Fetching a batch of cells in bounded chunks.
//!
//! The positions of a batch are asked for chunk by chunk, each chunk no longer
//! than the parallelism limit. A chunk is handed out as a whole, and the next
//! one only after every reply to it has come back. No failure ends the batch:
//! a position whose get failed, found nothing or found a value that is no
//! cell stays unfetched. At the end the positions are split, in their order,
//! into the cells fetched and the positions left.

use std::time::Instant;
use vstd::prelude::*;
use vstd::multiset::lemma_multiset_empty_len;
use vstd::seq_lib::{to_multiset_build, to_multiset_len};
use crate::codec::{decode, decode_spec, record_of};
use crate::matrix::{Cell, CellView, Position, CELL_SIZE};
use crate::port::{answer_of, answers_of, GetReply, GetRequest, GetRequestView, Quorum};
use crate::reference::{key_for, lemma_reference_injective, reference_bytes};

verus! {

/// What one get brought for `position`: the cell that the answer holds, if it
/// holds one.
pub open spec fn outcome_of(position: Position, answer: Option<Seq<u8>>) -> Option<CellView> {
    match answer {
        Some(value) => decode_spec(position, value),
        None => None,
    }
}

/// What the gets brought for `positions`, one answer for each.
pub open spec fn outcomes_of(positions: Seq<Position>, answers: Seq<Option<Seq<u8>>>) -> Seq<
    Option<CellView>,
>
    recommends
        answers.len() == positions.len(),
{
    Seq::new(positions.len(), |i: int| outcome_of(positions[i], answers[i]))
}

/// The cells among the first `n` outcomes, in their order.
pub open spec fn fetched_among(outcomes: Seq<Option<CellView>>, n: nat) -> Seq<CellView>
    decreases n,
{
    if n == 0 {
        Seq::empty()
    } else {
        let before = fetched_among(outcomes, (n - 1) as nat);
        match outcomes[n - 1] {
            Some(cell) => before.push(cell),
            None => before,
        }
    }
}

/// The cells among the outcomes, in their order.
pub open spec fn fetched_cells(outcomes: Seq<Option<CellView>>) -> Seq<CellView> {
    fetched_among(outcomes, outcomes.len())
}

/// Those of the first `n` positions that have no cell, in their order.
pub open spec fn unfetched_among(
    positions: Seq<Position>,
    outcomes: Seq<Option<CellView>>,
    n: nat,
) -> Seq<Position>
    decreases n,
{
    if n == 0 {
        Seq::empty()
    } else {
        let before = unfetched_among(positions, outcomes, (n - 1) as nat);
        match outcomes[n - 1] {
            Some(_) => before,
            None => before.push(positions[n - 1]),
        }
    }
}

/// The positions that have no cell, in their order.
pub open spec fn unfetched_positions(
    positions: Seq<Position>,
    outcomes: Seq<Option<CellView>>,
) -> Seq<Position>
    recommends
        outcomes.len() == positions.len(),
{
    unfetched_among(positions, outcomes, positions.len())
}

/// The request that asks for the cell at `position` in block `block_number`:
/// a get of the cell's key that is content with the first replica to answer.
pub open spec fn request_for(block_number: u32, position: Position) -> GetRequestView {
    GetRequestView { key: reference_bytes(block_number, position), quorum: Quorum::One }
}

/// A cell is asked for under the key under which it is published, and under
/// no other cell's key.
pub proof fn lemma_request_finds_record(
    block_number: u32,
    position: Position,
    block: u32,
    cell: CellView,
    expires: Option<Instant>,
)
    ensures
        request_for(block_number, position).key == record_of(block, cell, expires).key <==> (
        block_number == block && position == cell.position),
{
    lemma_reference_injective(block_number, position, block, cell.position);
}

/// The cell at `position` that a reply to its get brought, if any. An error,
/// an empty list of records and a first record whose value is no cell all
/// count as nothing found.
pub fn cell_from_reply(position: &Position, reply: &GetReply) -> (cell: Option<Cell>)
    ensures
        cell.deep_view() == outcome_of(*position, answer_of(*reply)),
{
    match reply {
        Ok(records) => {
            if records.len() == 0 {
                None
            } else {
                decode(position, records[0].value.as_slice())
            }
        },
        Err(_) => None,
    }
}

/// The positions of a sequence of cells, cell by cell.
pub open spec fn positions_of(cells: Seq<CellView>) -> Seq<Position> {
    Seq::new(cells.len(), |i: int| cells[i].position)
}

/// Whether each cell among the outcomes stands at the position that it was
/// asked for.
pub open spec fn outcomes_match(positions: Seq<Position>, outcomes: Seq<Option<CellView>>) -> bool {
    &&& outcomes.len() == positions.len()
    &&& forall|i: int|
        0 <= i < outcomes.len() ==> ((#[trigger] outcomes[i]) matches Some(cell) ==> cell.position
            == positions[i])
}

/// Among the first `n` positions, each is either fetched or unfetched, never
/// both and never neither.
proof fn lemma_split_among(positions: Seq<Position>, outcomes: Seq<Option<CellView>>, n: nat)
    requires
        outcomes_match(positions, outcomes),
        n <= positions.len(),
    ensures
        fetched_among(outcomes, n).len() + unfetched_among(positions, outcomes, n).len() == n,
        positions_of(fetched_among(outcomes, n)).to_multiset().add(
            unfetched_among(positions, outcomes, n).to_multiset(),
        ) == positions.take(n as int).to_multiset(),
    decreases n,
{
    if n == 0 {
        assert(positions_of(fetched_among(outcomes, 0)) =~= Seq::<Position>::empty());
        assert(positions.take(0) =~= Seq::<Position>::empty());
        let nothing = Seq::<Position>::empty();
        to_multiset_len(nothing);
        lemma_multiset_empty_len(nothing.to_multiset());
        assert(nothing.to_multiset().add(nothing.to_multiset()) =~= nothing.to_multiset());
    } else {
        let m = (n - 1) as nat;
        lemma_split_among(positions, outcomes, m);
        let fetched = positions_of(fetched_among(outcomes, m));
        let unfetched = unfetched_among(positions, outcomes, m);
        let position = positions[m as int];
        assert(positions.take(n as int) =~= positions.take(m as int).push(position));
        to_multiset_build(positions.take(m as int), position);
        match outcomes[m as int] {
            Some(cell) => {
                assert(positions_of(fetched_among(outcomes, n)) =~= fetched.push(position));
                to_multiset_build(fetched, position);
                assert(fetched.to_multiset().insert(position).add(unfetched.to_multiset())
                    =~= fetched.to_multiset().add(unfetched.to_multiset()).insert(position));
            },
            None => {
                to_multiset_build(unfetched, position);
                assert(fetched.to_multiset().add(unfetched.to_multiset().insert(position))
                    =~= fetched.to_multiset().add(unfetched.to_multiset()).insert(position));
            },
        }
    }
}

/// Every position of a batch comes out exactly once: the cells fetched and
/// the positions left unfetched are together as many as the positions asked
/// for, and the positions of the one with those of the other are the
/// positions asked for, each as often as it was asked for.
pub proof fn lemma_split_is_partition(positions: Seq<Position>, outcomes: Seq<Option<CellView>>)
    requires
        outcomes_match(positions, outcomes),
    ensures
        fetched_cells(outcomes).len() + unfetched_positions(positions, outcomes).len()
            == positions.len(),
        positions_of(fetched_cells(outcomes)).to_multiset().add(
            unfetched_positions(positions, outcomes).to_multiset(),
        ) == positions.to_multiset(),
{
    lemma_split_among(positions, outcomes, positions.len());
    assert(positions.take(positions.len() as int) =~= positions);
}

/// Whatever the DHT answers, every position asked for comes out exactly once,
/// as a cell fetched or as a position left unfetched.
pub proof fn lemma_fetch_is_partition(positions: Seq<Position>, answers: Seq<Option<Seq<u8>>>)
    ensures
        outcomes_match(positions, outcomes_of(positions, answers)),
        fetched_cells(outcomes_of(positions, answers)).len() + unfetched_positions(
            positions,
            outcomes_of(positions, answers),
        ).len() == positions.len(),
        positions_of(fetched_cells(outcomes_of(positions, answers))).to_multiset().add(
            unfetched_positions(positions, outcomes_of(positions, answers)).to_multiset(),
        ) == positions.to_multiset(),
{
    lemma_split_is_partition(positions, outcomes_of(positions, answers));
}

/// A batch of no positions fetches nothing and leaves nothing.
pub proof fn lemma_empty_batch(answers: Seq<Option<Seq<u8>>>)
    ensures
        fetched_cells(outcomes_of(Seq::empty(), answers)) == Seq::<CellView>::empty(),
        unfetched_positions(Seq::empty(), outcomes_of(Seq::empty(), answers)) == Seq::<
            Position,
        >::empty(),
{
}

/// Where every outcome among the first `n` is a cell, the cells fetched among
/// them are these cells and no position among them is left.
proof fn lemma_all_found_among(positions: Seq<Position>, outcomes: Seq<Option<CellView>>, n: nat)
    requires
        n <= outcomes.len(),
        forall|i: int| 0 <= i < n ==> (#[trigger] outcomes[i]) is Some,
    ensures
        unfetched_among(positions, outcomes, n) == Seq::<Position>::empty(),
        fetched_among(outcomes, n) == Seq::new(n, |i: int| outcomes[i]->Some_0),
    decreases n,
{
    if n > 0 {
        lemma_all_found_among(positions, outcomes, (n - 1) as nat);
        assert(outcomes[n - 1] is Some);
    }
    assert(fetched_among(outcomes, n) =~= Seq::new(n, |i: int| outcomes[i]->Some_0));
}

/// Whether every answer is a value of the size of a cell.
pub open spec fn all_found(answers: Seq<Option<Seq<u8>>>) -> bool {
    forall|i: int|
        0 <= i < answers.len() ==> ((#[trigger] answers[i]) matches Some(value) && value.len()
            == CELL_SIZE)
}

/// The cells that stand at `positions` and hold the values of `answers`,
/// position by position.
pub open spec fn cells_of(positions: Seq<Position>, answers: Seq<Option<Seq<u8>>>) -> Seq<
    CellView,
>
    recommends
        answers.len() == positions.len(),
        all_found(answers),
{
    Seq::new(
        positions.len(),
        |i: int| (CellView { position: positions[i], content: answers[i]->Some_0 }),
    )
}

/// Where every get is answered with a value of the size of a cell, no
/// position is left unfetched, and the cells fetched are, position by
/// position, the answers at the positions asked for.
pub proof fn lemma_all_found(positions: Seq<Position>, answers: Seq<Option<Seq<u8>>>)
    requires
        answers.len() == positions.len(),
        all_found(answers),
    ensures
        unfetched_positions(positions, outcomes_of(positions, answers)) == Seq::<
            Position,
        >::empty(),
        fetched_cells(outcomes_of(positions, answers)) == cells_of(positions, answers),
{
    let outcomes = outcomes_of(positions, answers);
    assert forall|i: int| 0 <= i < outcomes.len() implies (#[trigger] outcomes[i]) is Some by {
        assert(answers[i] is Some);
    }
    lemma_all_found_among(positions, outcomes, positions.len());
    assert(fetched_cells(outcomes) =~= cells_of(positions, answers)) by {
        assert forall|i: int| 0 <= i < positions.len() implies outcomes[i]->Some_0 == (CellView {
            position: positions[i],
            content: answers[i]->Some_0,
        }) by {
            assert(answers[i] is Some);
        }
    }
}

/// Where no outcome among the first `n` is a cell, nothing is fetched among
/// them and each of these positions is left.
proof fn lemma_none_found_among(positions: Seq<Position>, outcomes: Seq<Option<CellView>>, n: nat)
    requires
        n <= outcomes.len(),
        outcomes.len() == positions.len(),
        forall|i: int| 0 <= i < n ==> (#[trigger] outcomes[i]) is None,
    ensures
        fetched_among(outcomes, n) == Seq::<CellView>::empty(),
        unfetched_among(positions, outcomes, n) == positions.take(n as int),
    decreases n,
{
    if n > 0 {
        lemma_none_found_among(positions, outcomes, (n - 1) as nat);
        assert(outcomes[n - 1] is None);
    }
    assert(unfetched_among(positions, outcomes, n) =~= positions.take(n as int));
}

/// Where no get brings a cell, nothing is fetched and every position asked
/// for is left unfetched, in the order in which it was asked for.
pub proof fn lemma_none_found(positions: Seq<Position>, outcomes: Seq<Option<CellView>>)
    requires
        outcomes.len() == positions.len(),
        forall|i: int| 0 <= i < outcomes.len() ==> (#[trigger] outcomes[i]) is None,
    ensures
        fetched_cells(outcomes) == Seq::<CellView>::empty(),
        unfetched_positions(positions, outcomes) == positions,
{
    lemma_none_found_among(positions, outcomes, positions.len());
    assert(positions.take(positions.len() as int) =~= positions);
}

/// A batch of positions on its way through the DHT.
pub struct FetchBatch {
    block_number: u32,
    positions: Vec<Position>,
    limit: usize,
    outcomes: Vec<Option<Cell>>,
    resolved: usize,
    in_flight: usize,
}

/// What a batch is in contracts.
pub struct FetchBatchView {
    /// The block whose cells are asked for.
    pub block_number: u32,
    /// The positions asked for, in the caller's order.
    pub positions: Seq<Position>,
    /// The most requests that may be outstanding at once.
    pub limit: nat,
    /// For each position the cell found there, if one was found so far.
    pub outcomes: Seq<Option<CellView>>,
    /// How many positions, from the front, have had their reply.
    pub resolved: nat,
    /// How many requests are outstanding.
    pub in_flight: nat,
}

impl FetchBatchView {
    /// What holds of every batch at every moment.
    pub open spec fn wf(self) -> bool {
        &&& self.limit > 0
        &&& self.in_flight <= self.limit
        &&& self.resolved + self.in_flight <= self.positions.len()
        &&& outcomes_match(self.positions, self.outcomes)
        &&& forall|i: int|
            self.resolved <= i < self.outcomes.len() ==> (#[trigger] self.outcomes[i]) is None
    }

    /// A new batch: nothing asked for, nothing found.
    pub open spec fn start(block_number: u32, positions: Seq<Position>, limit: nat) -> Self {
        FetchBatchView {
            block_number,
            positions,
            limit,
            outcomes: Seq::new(positions.len(), |i: int| None),
            resolved: 0,
            in_flight: 0,
        }
    }

    /// Whether every position has had its reply.
    pub open spec fn done(self) -> bool {
        self.resolved == self.positions.len()
    }

    /// How many requests may be handed out now: none while a chunk is
    /// outstanding, else as many as positions are left, up to the limit.
    pub open spec fn chunk_len(self) -> nat {
        if self.in_flight > 0 {
            0
        } else if self.positions.len() - self.resolved < self.limit {
            (self.positions.len() - self.resolved) as nat
        } else {
            self.limit
        }
    }

    /// The requests that may be handed out now, in the order of their
    /// positions.
    pub open spec fn chunk(self) -> Seq<GetRequestView> {
        Seq::new(
            self.chunk_len(),
            |i: int| request_for(self.block_number, self.positions[self.resolved + i]),
        )
    }

    /// The batch after the requests of [`FetchBatchView::chunk`] were handed
    /// out.
    pub open spec fn issue(self) -> Self {
        FetchBatchView { in_flight: self.in_flight + self.chunk_len(), ..self }
    }

    /// The batch after the outstanding chunk was answered by `answers`, one
    /// for each request and in the order of the requests.
    pub open spec fn record(self, answers: Seq<Option<Seq<u8>>>) -> Self
        recommends
            answers.len() == self.in_flight,
    {
        FetchBatchView {
            outcomes: Seq::new(
                self.outcomes.len(),
                |i: int|
                    if self.resolved <= i < self.resolved + self.in_flight {
                        outcome_of(self.positions[i], answers[i - self.resolved])
                    } else {
                        self.outcomes[i]
                    },
            ),
            resolved: self.resolved + self.in_flight,
            in_flight: 0,
            ..self
        }
    }

    /// The cells fetched so far, in the order of their positions.
    pub open spec fn fetched(self) -> Seq<CellView> {
        fetched_cells(self.outcomes)
    }

    /// The positions with no cell so far, in their order.
    pub open spec fn unfetched(self) -> Seq<Position> {
        unfetched_positions(self.positions, self.outcomes)
    }
}

impl View for FetchBatch {
    type V = FetchBatchView;

    closed spec fn view(&self) -> FetchBatchView {
        FetchBatchView {
            block_number: self.block_number,
            positions: self.positions@,
            limit: self.limit as nat,
            outcomes: self.outcomes.deep_view(),
            resolved: self.resolved as nat,
            in_flight: self.in_flight as nat,
        }
    }
}

impl FetchBatch {
    /// A batch that asks for the cells at `positions` in block `block_number`,
    /// at most `limit` of them at once.
    pub fn new(block_number: u32, positions: &[Position], limit: usize) -> (batch: Self)
        requires
            limit > 0,
        ensures
            batch@ == FetchBatchView::start(block_number, positions@, limit as nat),
            batch@.wf(),
    {
        let mut own: Vec<Position> = Vec::with_capacity(positions.len());
        let mut outcomes: Vec<Option<Cell>> = Vec::with_capacity(positions.len());
        let mut i: usize = 0;
        while i < positions.len()
            invariant
                i <= positions.len(),
                own@ == positions@.take(i as int),
                outcomes@.len() == i,
                forall|j: int| 0 <= j < i ==> (#[trigger] outcomes@[j]) is None,
            decreases positions.len() - i,
        {
            own.push(positions[i]);
            outcomes.push(None);
            i += 1;
            assert(own@ =~= positions@.take(i as int));
        }
        assert(own@ =~= positions@);
        let batch = FetchBatch { block_number, positions: own, limit, outcomes, resolved: 0, in_flight: 0 };
        assert(batch@.outcomes =~= Seq::new(positions@.len(), |i: int| None::<CellView>));
        batch
    }

    /// The most requests that may be outstanding at once.
    pub fn limit(&self) -> (limit: usize)
        ensures
            limit == self@.limit,
    {
        self.limit
    }

    /// How many requests are outstanding. It never exceeds the limit.
    pub fn in_flight(&self) -> (in_flight: usize)
        requires
            self@.wf(),
        ensures
            in_flight == self@.in_flight,
            in_flight <= self@.limit,
    {
        self.in_flight
    }

    /// Whether every position has had its reply.
    pub fn is_done(&self) -> (done: bool)
        ensures
            done == self@.done(),
    {
        self.resolved == self.positions.len()
    }

    /// Hands out the next chunk of requests, in the order of their positions.
    /// The chunk is empty while an earlier chunk is outstanding, and when no
    /// position is left to ask for.
    pub fn next_chunk(&mut self) -> (requests: Vec<GetRequest>)
        requires
            old(self)@.wf(),
        ensures
            final(self)@ == old(self)@.issue(),
            final(self)@.wf(),
            requests.deep_view() == old(self)@.chunk(),
            requests@.len() <= old(self)@.limit,
    {
        let mut requests: Vec<GetRequest> = Vec::new();
        if self.in_flight > 0 {
            assert(requests.deep_view() =~= old(self)@.chunk());
            return requests;
        }
        let left: usize = self.positions.len() - self.resolved;
        let count: usize = if left < self.limit {
            left
        } else {
            self.limit
        };
        let mut i: usize = 0;
        while i < count
            invariant
                i <= count,
                count == self@.chunk_len(),
                self.resolved + count <= self.positions.len(),
                requests@.len() == i,
                forall|j: int|
                    0 <= j < i ==> (#[trigger] requests@[j])@ == request_for(
                        self.block_number,
                        self.positions@[self.resolved + j],
                    ),
            decreases count - i,
        {
            let key = key_for(self.block_number, &self.positions[self.resolved + i]);
            requests.push(GetRequest { key, quorum: Quorum::One });
            i += 1;
        }
        assert(requests.deep_view() =~= self@.chunk());
        self.in_flight = count;
        requests
    }

    /// Takes the replies to the outstanding chunk, one for each request and in
    /// the order of the requests.
    pub fn record_chunk(&mut self, replies: &[GetReply])
        requires
            old(self)@.wf(),
            replies@.len() == old(self)@.in_flight,
        ensures
            final(self)@ == old(self)@.record(answers_of(replies@)),
            final(self)@.wf(),
    {
        let ghost before = self@;
        let ghost answers = answers_of(replies@);
        let base: usize = self.resolved;
        let mut i: usize = 0;
        while i < replies.len()
            invariant
                i <= replies.len(),
                replies@.len() == before.in_flight,
                answers == answers_of(replies@),
                before.wf(),
                base == before.resolved,
                base + replies.len() <= self.positions.len(),
                self.block_number == before.block_number,
                self.positions@ == before.positions,
                self.limit == before.limit,
                self.resolved == before.resolved,
                self.in_flight == before.in_flight,
                self.outcomes@.len() == before.outcomes.len(),
                forall|j: int|
                    0 <= j < self.outcomes@.len() ==> (#[trigger] self.outcomes@[j]).deep_view()
                        == if base <= j < base + i {
                        outcome_of(before.positions[j], answers[j - base])
                    } else {
                        before.outcomes[j]
                    },
            decreases replies.len() - i,
        {
            let cell = cell_from_reply(&self.positions[base + i], &replies[i]);
            self.outcomes[base + i] = cell;
            i += 1;
        }
        self.resolved = base + self.in_flight;
        self.in_flight = 0;
        assert(self@.outcomes =~= before.record(answers).outcomes);
    }

    /// Ends the batch: the cells fetched and the positions left unfetched,
    /// each in the order in which the positions were given. A position whose
    /// reply was never taken is left unfetched.
    pub fn finish(self) -> (split: (Vec<Cell>, Vec<Position>))
        requires
            self@.wf(),
        ensures
            split.0.deep_view() == self@.fetched(),
            split.1@ == self@.unfetched(),
            split.0@.len() + split.1@.len() == self@.positions.len(),
            positions_of(split.0.deep_view()).to_multiset().add(split.1@.to_multiset())
                == self@.positions.to_multiset(),
    {
        proof {
            lemma_split_is_partition(self@.positions, self@.outcomes);
        }
        let mut fetched: Vec<Cell> = Vec::new();
        let mut unfetched: Vec<Position> = Vec::new();
        let mut i: usize = 0;
        while i < self.positions.len()
            invariant
                i <= self.positions.len(),
                self@.wf(),
                fetched.deep_view() == fetched_among(self@.outcomes, i as nat),
                unfetched@ == unfetched_among(self@.positions, self@.outcomes, i as nat),
            decreases self.positions.len() - i,
        {
            let ghost fetched_before = fetched.deep_view();
            match self.outcomes[i] {
                Some(cell) => {
                    fetched.push(cell);
                    assert(fetched.deep_view() =~= fetched_before.push(cell@));
                },
                None => {
                    unfetched.push(self.positions[i]);
                },
            }
            i += 1;
        }
        (fetched, unfetched)
    }
}

/// No more requests are outstanding than the limit allows, at any moment of
/// any batch: a new batch is well formed, handing out a chunk and taking its
/// replies keep it so, and a well-formed batch has at most `limit` requests
/// in flight. A chunk is handed out only when none is outstanding.
pub proof fn lemma_in_flight_is_bounded(batch: FetchBatchView, answers: Seq<Option<Seq<u8>>>)
    requires
        batch.wf(),
    ensures
        batch.in_flight <= batch.limit,
        batch.issue().wf(),
        batch.issue().in_flight <= batch.limit,
        batch.in_flight > 0 ==> batch.chunk_len() == 0,
        batch.record(answers).wf(),
        batch.record(answers).in_flight == 0,
{
}

/// A new batch is well formed and has nothing in flight.
pub proof fn lemma_start_is_well_formed(block_number: u32, positions: Seq<Position>, limit: nat)
    requires
        limit > 0,
    ensures
        FetchBatchView::start(block_number, positions, limit).wf(),
        FetchBatchView::start(block_number, positions, limit).in_flight == 0,
{
}

/// The split of a batch is a partition of its positions at every moment,
/// also before the last reply has come.
pub proof fn lemma_batch_split_is_partition(batch: FetchBatchView)
    requires
        batch.wf(),
    ensures
        batch.fetched().len() + batch.unfetched().len() == batch.positions.len(),
        positions_of(batch.fetched()).to_multiset().add(batch.unfetched().to_multiset())
            == batch.positions.to_multiset(),
{
    lemma_split_is_partition(batch.positions, batch.outcomes);
}

} // verus!
