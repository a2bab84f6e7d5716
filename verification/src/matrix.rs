//! Positions and cells of a block's matrix.

use std::cmp::Ordering;
use vstd::prelude::*;
use vstd::std_specs::cmp::PartialOrdSpec;

verus! {

/// Bytes of the commitment proof, the first part of a cell's content.
pub const COMMITMENT_SIZE: usize = 48;

/// Bytes of the data chunk, the second part of a cell's content.
pub const CHUNK_SIZE: usize = 32;

/// Bytes of a cell's content: a commitment proof followed by a data chunk.
pub const CELL_SIZE: usize = 80;

/// Row and column of a cell in the matrix of one block. Positions are equal
/// where both numbers are, and ordered by row first and by column second.
#[derive(Clone, Copy, Debug, PartialEq, Eq, Ord, Hash, Structural)]
pub struct Position {
    pub row: u32,
    pub col: u16,
}

impl PartialOrd for Position {
    fn partial_cmp(&self, other: &Position) -> (order: Option<Ordering>) {
        if self.row < other.row {
            Some(Ordering::Less)
        } else if self.row > other.row {
            Some(Ordering::Greater)
        } else if self.col < other.col {
            Some(Ordering::Less)
        } else if self.col > other.col {
            Some(Ordering::Greater)
        } else {
            Some(Ordering::Equal)
        }
    }
}

impl vstd::std_specs::cmp::PartialOrdSpecImpl for Position {
    open spec fn obeys_partial_cmp_spec() -> bool {
        true
    }

    open spec fn partial_cmp_spec(&self, other: &Position) -> Option<Ordering> {
        if self.row < other.row || (self.row == other.row && self.col < other.col) {
            Some(Ordering::Less)
        } else if self.row == other.row && self.col == other.col {
            Some(Ordering::Equal)
        } else {
            Some(Ordering::Greater)
        }
    }
}

/// Whether `first` comes before `second`: in an earlier row, or in the same
/// row and an earlier column.
pub open spec fn precedes(first: Position, second: Position) -> bool {
    first.partial_cmp_spec(&second) == Some(Ordering::Less)
}

/// The order of positions is a strict total order that agrees with their
/// equality: of two positions exactly one comes first unless they are equal,
/// and what comes before an earlier position comes before a later one.
pub proof fn lemma_position_order(a: Position, b: Position, c: Position)
    ensures
        a.partial_cmp_spec(&b) == Some(Ordering::Equal) <==> a == b,
        a.partial_cmp_spec(&b) == Some(Ordering::Greater) <==> precedes(b, a),
        !(precedes(a, b) && precedes(b, a)),
        a == b || precedes(a, b) || precedes(b, a),
        precedes(a, b) && precedes(b, c) ==> precedes(a, c),
{
}

/// A position together with the content found there.
#[derive(Clone, Copy, Debug, PartialEq, Eq)]
pub struct Cell {
    pub position: Position,
    pub content: [u8; CELL_SIZE],
}

/// What a cell is in contracts: its position and its content as a sequence of
/// bytes.
pub struct CellView {
    pub position: Position,
    pub content: Seq<u8>,
}

impl View for Cell {
    type V = CellView;

    open spec fn view(&self) -> CellView {
        CellView { position: self.position, content: self.content@ }
    }
}

impl DeepView for Cell {
    type V = CellView;

    open spec fn deep_view(&self) -> CellView {
        self@
    }
}

/// The content of a cell is as long as a commitment and a chunk together.
pub proof fn lemma_cell_size()
    ensures
        CELL_SIZE == COMMITMENT_SIZE + CHUNK_SIZE,
        forall|cell: Cell| #[trigger] cell@.content.len() == CELL_SIZE,
{
    broadcast use vstd::array::array_len_matches_n;
    assert forall|cell: Cell| #[trigger] cell@.content.len() == CELL_SIZE by {
        assert(cell.content@.len() == CELL_SIZE);
    }
}

} // verus!
