//! The codec between matrix cells and DHT records.

use std::time::Instant;
use vstd::prelude::*;
use crate::clock::expiry_after;
use crate::matrix::{Cell, CellView, Position, CELL_SIZE};
use crate::record::{Record, RecordView};
use crate::reference::{ascii_text, key_for, reference_bytes};

verus! {

/// The record that stores `cell` of block `block` until `expires`: keyed by
/// the cell's reference, holding the cell's content, with no publisher.
pub open spec fn record_of(block: u32, cell: CellView, expires: Option<Instant>) -> RecordView {
    RecordView {
        key: reference_bytes(block, cell.position),
        value: cell.content,
        publisher: None,
        expires,
    }
}

/// The cell at `position` that a record value holds: the value itself where
/// it has the size of a cell, and none otherwise.
pub open spec fn decode_spec(position: Position, value: Seq<u8>) -> Option<CellView> {
    if value.len() == CELL_SIZE {
        Some(CellView { position, content: value })
    } else {
        None
    }
}

/// A value is a cell exactly when it has the size of one, and the cell it
/// holds stands at the position asked for and has the value as its content.
pub proof fn lemma_decode_by_size(position: Position, value: Seq<u8>)
    ensures
        decode_spec(position, value) is Some <==> value.len() == CELL_SIZE,
        decode_spec(position, value) matches Some(cell) ==> cell.position == position
            && cell.content == value,
{
}

/// What was published can be read back: the value of a cell's record decodes,
/// at the cell's position, to the cell.
pub proof fn lemma_decode_reads_record(block: u32, cell: CellView, expires: Option<Instant>)
    requires
        cell.content.len() == CELL_SIZE,
    ensures
        decode_spec(cell.position, record_of(block, cell, expires).value) == Some(cell),
{
}

/// A cell on its way into the DHT.
#[derive(Clone, Copy, Debug)]
pub struct DHTCell(pub Cell);

impl View for DHTCell {
    type V = CellView;

    open spec fn view(&self) -> CellView {
        self.0@
    }
}

impl DeepView for DHTCell {
    type V = CellView;

    open spec fn deep_view(&self) -> CellView {
        self.0@
    }
}

impl DHTCell {
    /// The reference of the cell in block `block`.
    pub fn reference(&self, block: u32) -> (text: String)
        ensures
            text@ == ascii_text(reference_bytes(block, self.0.position)),
    {
        self.0.reference(block)
    }

    /// The record that stores the cell of block `block` until `expires`.
    pub fn dht_record_until(&self, block: u32, expires: Option<Instant>) -> (record: Record)
        ensures
            record@ == record_of(block, self.0@, expires),
    {
        let key = key_for(block, &self.0.position);
        let mut value: Vec<u8> = Vec::with_capacity(CELL_SIZE);
        let mut i: usize = 0;
        while i < CELL_SIZE
            invariant
                i <= CELL_SIZE,
                value@ == self.0.content@.take(i as int),
            decreases CELL_SIZE - i,
        {
            value.push(self.0.content[i]);
            i += 1;
            assert(value@ =~= self.0.content@.take(i as int));
        }
        assert(value@ =~= self.0.content@);
        Record { key, value, publisher: None, expires }
    }

    /// The record that stores the cell of block `block` for `ttl` seconds from
    /// now. Where the clock cannot represent that instant the record never
    /// expires. Key, value and publisher are those of
    /// [`DHTCell::dht_record_until`]; the expiry is what the clock gave.
    pub fn dht_record(&self, block: u32, ttl: u64) -> (record: Record)
        ensures
            record@ == record_of(block, self.0@, record.expires),
    {
        self.dht_record_until(block, expiry_after(ttl))
    }
}

/// Reads the cell at `position` out of a record value. A value of any size
/// but that of a cell is not a cell.
pub fn decode(position: &Position, value: &[u8]) -> (cell: Option<Cell>)
    ensures
        cell.deep_view() == decode_spec(*position, value@),
        cell is Some <==> value@.len() == CELL_SIZE,
{
    if value.len() != CELL_SIZE {
        return None;
    }
    let mut content: [u8; CELL_SIZE] = [0u8; CELL_SIZE];
    let mut i: usize = 0;
    while i < CELL_SIZE
        invariant
            i <= CELL_SIZE,
            value@.len() == CELL_SIZE,
            content@.take(i as int) == value@.take(i as int),
        decreases CELL_SIZE - i,
    {
        content[i] = value[i];
        i += 1;
        assert(content@.take(i as int) =~= value@.take(i as int));
    }
    assert(content@ =~= value@) by {
        assert(content@.len() == CELL_SIZE);
        assert(content@ =~= content@.take(CELL_SIZE as int));
        assert(value@ =~= value@.take(CELL_SIZE as int));
    }
    Some(Cell { position: *position, content })
}

} // verus!
