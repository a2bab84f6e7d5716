//! The textual reference of a cell, from which its DHT key is made.
//!
//! A reference names a cell by row, column and block number, written in
//! decimal and separated by colons. Its bytes are the key under which the
//! cell is stored.

use vstd::prelude::*;
use vstd::string::StringExecFns;
use crate::matrix::{Cell, Position};

verus! {

/// The byte that separates the numbers of a reference.
pub const SEPARATOR: u8 = 58;

/// The ASCII code of the decimal digit `d`.
pub open spec fn digit(d: nat) -> u8 {
    (48 + d) as u8
}

/// `n` written in decimal, without leading zeros, as ASCII bytes.
pub open spec fn decimal(n: nat) -> Seq<u8>
    decreases n,
{
    if n < 10 {
        seq![digit(n)]
    } else {
        decimal(n / 10).push(digit(n % 10))
    }
}

/// The number that a sequence of ASCII digits denotes.
pub open spec fn decimal_value(text: Seq<u8>) -> nat
    decreases text.len(),
{
    if text.len() == 0 {
        0
    } else {
        (decimal_value(text.drop_last()) * 10 + (text.last() - 48)) as nat
    }
}

/// Whether every byte of `text` is an ASCII digit.
pub open spec fn all_digits(text: Seq<u8>) -> bool {
    forall|i: int| 0 <= i < text.len() ==> 48 <= #[trigger] text[i] <= 57
}

/// The bytes of the reference of the cell at `position` in block
/// `block_number`: row, column and block number, in this order.
pub open spec fn reference_bytes(block_number: u32, position: Position) -> Seq<u8> {
    decimal(position.row as nat) + seq![SEPARATOR] + decimal(position.col as nat)
        + seq![SEPARATOR] + decimal(block_number as nat)
}

/// The text whose characters have the ASCII codes `bytes`.
pub open spec fn ascii_text(bytes: Seq<u8>) -> Seq<char> {
    Seq::new(bytes.len(), |i: int| bytes[i] as char)
}

/// Whether every byte of `bytes` is an ASCII digit or the separator.
pub open spec fn all_reference_bytes(bytes: Seq<u8>) -> bool {
    forall|i: int| 0 <= i < bytes.len() ==> 48 <= #[trigger] bytes[i] <= 58
}

/// A number in decimal is not empty and holds digits only.
pub proof fn lemma_decimal_is_digits(n: nat)
    ensures
        decimal(n).len() >= 1,
        all_digits(decimal(n)),
    decreases n,
{
    if n >= 10 {
        lemma_decimal_is_digits(n / 10);
    }
}

/// Reading a number written in decimal gives the number back.
pub proof fn lemma_decimal_value(n: nat)
    ensures
        decimal_value(decimal(n)) == n,
    decreases n,
{
    if n < 10 {
        assert(decimal(n).drop_last() =~= Seq::<u8>::empty());
        assert(decimal_value(decimal(n).drop_last()) == 0);
    } else {
        lemma_decimal_value(n / 10);
        assert(decimal(n).drop_last() =~= decimal(n / 10));
    }
}

/// Two numbers with the same decimal text are the same number.
pub proof fn lemma_decimal_injective(a: nat, b: nat)
    requires
        decimal(a) == decimal(b),
    ensures
        a == b,
{
    lemma_decimal_value(a);
    lemma_decimal_value(b);
}

/// A text of digits followed by a separator ends where the first separator
/// stands: two such texts that agree as a whole agree in both parts.
proof fn lemma_split_at_separator(
    head1: Seq<u8>,
    tail1: Seq<u8>,
    head2: Seq<u8>,
    tail2: Seq<u8>,
)
    requires
        all_digits(head1),
        all_digits(head2),
        head1 + seq![SEPARATOR] + tail1 == head2 + seq![SEPARATOR] + tail2,
    ensures
        head1 == head2,
        tail1 == tail2,
{
    let whole1 = head1 + seq![SEPARATOR] + tail1;
    let whole2 = head2 + seq![SEPARATOR] + tail2;
    assert(whole1[head1.len() as int] == SEPARATOR);
    assert(whole2[head2.len() as int] == SEPARATOR);
    if head1.len() < head2.len() {
        assert(whole2[head1.len() as int] == head2[head1.len() as int]);
    }
    if head2.len() < head1.len() {
        assert(whole1[head2.len() as int] == head1[head2.len() as int]);
    }
    assert(head1.len() == head2.len());
    assert(head1 =~= whole1.take(head1.len() as int));
    assert(head2 =~= whole2.take(head2.len() as int));
    assert(tail1 =~= whole1.skip(head1.len() as int + 1));
    assert(tail2 =~= whole2.skip(head2.len() as int + 1));
}

/// The key of a cell tells the cell: two references are the same bytes
/// exactly when block number, row and column are the same.
pub proof fn lemma_reference_injective(
    block1: u32,
    position1: Position,
    block2: u32,
    position2: Position,
)
    ensures
        reference_bytes(block1, position1) == reference_bytes(block2, position2) <==> (block1
            == block2 && position1 == position2),
{
    if reference_bytes(block1, position1) == reference_bytes(block2, position2) {
        let row1 = decimal(position1.row as nat);
        let row2 = decimal(position2.row as nat);
        let col1 = decimal(position1.col as nat);
        let col2 = decimal(position2.col as nat);
        let blk1 = decimal(block1 as nat);
        let blk2 = decimal(block2 as nat);
        lemma_decimal_is_digits(position1.row as nat);
        lemma_decimal_is_digits(position2.row as nat);
        lemma_decimal_is_digits(position1.col as nat);
        lemma_decimal_is_digits(position2.col as nat);
        let rest1 = col1 + seq![SEPARATOR] + blk1;
        let rest2 = col2 + seq![SEPARATOR] + blk2;
        assert(reference_bytes(block1, position1) =~= row1 + seq![SEPARATOR] + rest1);
        assert(reference_bytes(block2, position2) =~= row2 + seq![SEPARATOR] + rest2);
        lemma_split_at_separator(row1, rest1, row2, rest2);
        lemma_split_at_separator(col1, blk1, col2, blk2);
        lemma_decimal_injective(position1.row as nat, position2.row as nat);
        lemma_decimal_injective(position1.col as nat, position2.col as nat);
        lemma_decimal_injective(block1 as nat, block2 as nat);
    }
}

/// A reference holds digits and separators only.
pub proof fn lemma_reference_alphabet(block_number: u32, position: Position)
    ensures
        all_reference_bytes(reference_bytes(block_number, position)),
        reference_bytes(block_number, position).len() >= 5,
{
    lemma_decimal_is_digits(position.row as nat);
    lemma_decimal_is_digits(position.col as nat);
    lemma_decimal_is_digits(block_number as nat);
}

/// Appends `n` in decimal to `out`.
fn push_decimal(out: &mut Vec<u8>, n: u32)
    ensures
        final(out)@ == old(out)@ + decimal(n as nat),
    decreases n,
{
    if n >= 10 {
        push_decimal(out, n / 10);
    }
    let low: u32 = n % 10;
    out.push(48u8 + low as u8);
    assert(final(out)@ =~= old(out)@ + decimal(n as nat));
}

/// The DHT key of the cell at `position` in block `block_number`: the bytes
/// of its reference.
pub fn key_for(block_number: u32, position: &Position) -> (key: Vec<u8>)
    ensures
        key@ == reference_bytes(block_number, *position),
{
    let mut key: Vec<u8> = Vec::new();
    push_decimal(&mut key, position.row);
    key.push(SEPARATOR);
    push_decimal(&mut key, position.col as u32);
    key.push(SEPARATOR);
    push_decimal(&mut key, block_number);
    assert(key@ =~= reference_bytes(block_number, *position));
    key
}

/// The one-character text of a digit or of the separator.
fn symbol(byte: u8) -> (text: &'static str)
    requires
        48 <= byte <= 58,
    ensures
        text@ == seq![byte as char],
{
    proof {
        reveal_strlit("0");
        reveal_strlit("1");
        reveal_strlit("2");
        reveal_strlit("3");
        reveal_strlit("4");
        reveal_strlit("5");
        reveal_strlit("6");
        reveal_strlit("7");
        reveal_strlit("8");
        reveal_strlit("9");
        reveal_strlit(":");
    }
    let text = if byte == 48 {
        "0"
    } else if byte == 49 {
        "1"
    } else if byte == 50 {
        "2"
    } else if byte == 51 {
        "3"
    } else if byte == 52 {
        "4"
    } else if byte == 53 {
        "5"
    } else if byte == 54 {
        "6"
    } else if byte == 55 {
        "7"
    } else if byte == 56 {
        "8"
    } else if byte == 57 {
        "9"
    } else {
        ":"
    };
    assert(text@ =~= seq![byte as char]);
    text
}

impl Position {
    /// The reference of this position in block `block_number`, as text:
    /// row, column and block number in decimal, separated by colons.
    pub fn reference(&self, block_number: u32) -> (text: String)
        ensures
            text@ == ascii_text(reference_bytes(block_number, *self)),
    {
        let key = key_for(block_number, self);
        proof {
            lemma_reference_alphabet(block_number, *self);
        }
        let mut text = String::new();
        let mut i: usize = 0;
        while i < key.len()
            invariant
                i <= key.len(),
                all_reference_bytes(key@),
                text@ == ascii_text(key@.take(i as int)),
            decreases key.len() - i,
        {
            text.append(symbol(key[i]));
            i += 1;
            assert(text@ =~= ascii_text(key@.take(i as int)));
        }
        assert(key@.take(i as int) =~= key@);
        text
    }
}

impl Cell {
    /// The reference of this cell in block `block`: that of its position.
    pub fn reference(&self, block: u32) -> (text: String)
        ensures
            text@ == ascii_text(reference_bytes(block, self.position)),
    {
        self.position.reference(block)
    }
}

} // verus!
