//! 64-bit bitboards indexed by the 8x8 square index.

use vstd::prelude::*;

verus! {

/// Bit `i` of a bitboard is set.
pub open spec fn bit_set(bb: u64, i: u64) -> bool {
    (bb >> i) & 1u64 == 1u64
}

/// Shift a bitboard left; shifts of 64 or more give 0.
pub fn lsh(bb: u64, sh: usize) -> (r: u64)
    ensures
        r == (if sh < 64 { bb << (sh as u64) } else { 0u64 }),
{
    if sh < 64 {
        bb << (sh as u64)
    } else {
        0u64
    }
}

/// Shift a bitboard right; shifts of 64 or more give 0.
pub fn rsh(bb: u64, sh: usize) -> (r: u64)
    ensures
        r == (if sh < 64 { bb >> (sh as u64) } else { 0u64 }),
{
    if sh < 64 {
        bb >> (sh as u64)
    } else {
        0u64
    }
}

/// Setting bit `i` changes bit `i` to 1 and no other bit.
pub proof fn lemma_set_bit(bb: u64, i: u64)
    requires
        i < 64,
    ensures
        forall|j: u64| j < 64 ==> #[trigger] bit_set(bb | (1u64 << i), j) == (j == i || bit_set(bb, j)),
{
    assert forall|j: u64| j < 64 implies #[trigger] bit_set(bb | (1u64 << i), j) == (j == i || bit_set(bb, j)) by {
        assert(((bb | (1u64 << i)) >> j) & 1u64 == 1u64 <==> (j == i || (bb >> j) & 1u64 == 1u64)) by (bit_vector)
            requires i < 64, j < 64;
    }
}

/// Clearing bit `i` changes bit `i` to 0 and no other bit.
pub proof fn lemma_clear_bit(bb: u64, i: u64)
    requires
        i < 64,
    ensures
        forall|j: u64| j < 64 ==> #[trigger] bit_set(bb & !(1u64 << i), j) == (j != i && bit_set(bb, j)),
{
    assert forall|j: u64| j < 64 implies #[trigger] bit_set(bb & !(1u64 << i), j) == (j != i && bit_set(bb, j)) by {
        assert(((bb & !(1u64 << i)) >> j) & 1u64 == 1u64 <==> (j != i && (bb >> j) & 1u64 == 1u64)) by (bit_vector)
            requires i < 64, j < 64;
    }
}

/// Set the bit of the given square (an index 0..64) of the bitboard.
pub fn set_bit(bb: &mut u64, square_index: usize)
    requires
        square_index < 64,
    ensures
        *final(bb) == *old(bb) | (1u64 << (square_index as u64)),
        forall|j: u64| j < 64 ==> #[trigger] bit_set(*final(bb), j) == (j == square_index || bit_set(*old(bb), j)),
{
    proof {
        lemma_set_bit(*bb, square_index as u64);
    }
    *bb = *bb | (1u64 << (square_index as u64));
}

/// Clear the bit of the given square (an index 0..64) of the bitboard.
pub fn clear_bit(bb: &mut u64, square_index: usize)
    requires
        square_index < 64,
    ensures
        *final(bb) == *old(bb) & !(1u64 << (square_index as u64)),
        forall|j: u64| j < 64 ==> #[trigger] bit_set(*final(bb), j) == (j != square_index && bit_set(*old(bb), j)),
{
    proof {
        lemma_clear_bit(*bb, square_index as u64);
    }
    *bb = *bb & !(1u64 << (square_index as u64));
}

} // verus!
