//! Squares of the board as bits of a 64-bit word.
//!
//! Bit `i` stands for the square at file `i % 8` and rank `i / 8 + 1`, so bit 0
//! is a1, bit 7 is h1 and bit 63 is h8.

use vstd::prelude::*;
use vstd::std_specs::bits::{axiom_u64_trailing_zeros, u64_trailing_zeros};

verus! {

/// The mask with only bit `index` set.
pub open spec fn square_mask(index: int) -> u64
    recommends
        0 <= index < 64,
{
    1u64 << (index as u64)
}

/// Whether bit `index` of `board` is set. No bit outside `0..64` is ever set.
pub open spec fn bit_set(board: u64, index: int) -> bool {
    0 <= index < 64 && (board >> (index as u64)) & 1 == 1
}

/// A square mask selects exactly one square of the board.
pub open spec fn is_square_mask(mask: u64) -> bool {
    exists|index: int| 0 <= index < 64 && mask == square_mask(index)
}

/// The square that a square mask selects: the number of its trailing zeros.
pub open spec fn square_index(mask: u64) -> int {
    u64_trailing_zeros(mask) as int
}

/// Whether the square on `rank` (from 1) and `file` (from 0) is a light
/// square. The squares alternate along every rank and every file, and a1 is
/// dark.
pub open spec fn is_light_square(rank: int, file: int) -> bool {
    (rank + file) % 2 == 0
}

/// The number of bits that are set in `x`.
pub open spec fn count_ones(x: u64) -> nat
    decreases x,
{
    if x == 0 {
        0
    } else {
        (x % 2) as nat + count_ones(x / 2)
    }
}

proof fn lemma_single_bit(k: u64, i: u64)
    by (bit_vector)
    requires
        k < 64,
        i < 64,
    ensures
        (((1u64 << k) >> i) & 1 == 1) <==> i == k,
        (1u64 << k) != 0,
{
}

proof fn lemma_or_single_bit(board: u64, k: u64, i: u64)
    by (bit_vector)
    requires
        k < 64,
        i < 64,
    ensures
        (((board | (1u64 << k)) >> i) & 1 == 1) <==> (((board >> i) & 1 == 1) || i == k),
{
}

proof fn lemma_and_single_bit(board: u64, k: u64)
    by (bit_vector)
    requires
        k < 64,
    ensures
        ((board & (1u64 << k)) != 0) <==> ((board >> k) & 1 == 1),
{
}

/// The mask of square `index` has bit `index` set and no other.
pub proof fn lemma_square_mask_bits(index: int)
    requires
        0 <= index < 64,
    ensures
        forall|i: int| bit_set(square_mask(index), i) <==> i == index,
        square_mask(index) != 0,
{
    assert forall|i: int| bit_set(square_mask(index), i) <==> i == index by {
        if 0 <= i < 64 {
            lemma_single_bit(index as u64, i as u64);
        }
    }
    lemma_single_bit(index as u64, 0);
}

/// The mask of square `index` is a square mask, and its square is `index`.
pub proof fn lemma_square_mask_index(index: int)
    requires
        0 <= index < 64,
    ensures
        is_square_mask(square_mask(index)),
        square_index(square_mask(index)) == index,
{
    let mask = square_mask(index);
    let zeros = u64_trailing_zeros(mask);
    axiom_u64_trailing_zeros(mask);
    lemma_single_bit(index as u64, 0);
    lemma_single_bit(index as u64, zeros as u64);
}

/// A square mask is the mask of its square.
pub proof fn lemma_square_mask_of_index(mask: u64)
    requires
        is_square_mask(mask),
    ensures
        0 <= square_index(mask) < 64,
        mask == square_mask(square_index(mask)),
{
    let index = choose|index: int| 0 <= index < 64 && mask == square_mask(index);
    lemma_square_mask_index(index);
}

/// Adding square `index` to a board sets that bit and changes no other.
pub proof fn lemma_add_square(board: u64, index: int)
    requires
        0 <= index < 64,
    ensures
        forall|i: int| bit_set(board | square_mask(index), i) <==> bit_set(board, i) || i == index,
{
    assert forall|i: int| bit_set(board | square_mask(index), i) <==> bit_set(board, i) || i
        == index by {
        if 0 <= i < 64 {
            lemma_or_single_bit(board, index as u64, i as u64);
        }
    }
}

/// A board meets a square mask exactly where the square's bit is set.
pub proof fn lemma_meets_square(board: u64, index: int)
    requires
        0 <= index < 64,
    ensures
        (board & square_mask(index) != 0) <==> bit_set(board, index),
{
    lemma_and_single_bit(board, index as u64);
}

proof fn lemma_differing_bit(left: u64, right: u64, i: u64)
    by (bit_vector)
    requires
        i < 64,
        ((left ^ right) >> i) & 1 == 1,
    ensures
        ((left >> i) & 1 == 1) != ((right >> i) & 1 == 1),
{
}

/// Words with the same bits set are the same word.
pub proof fn lemma_bits_decide(left: u64, right: u64)
    requires
        forall|i: int| bit_set(left, i) == bit_set(right, i),
    ensures
        left == right,
{
    let apart = left ^ right;
    if apart != 0 {
        axiom_u64_trailing_zeros(apart);
        let i = u64_trailing_zeros(apart) as u64;
        lemma_differing_bit(left, right, i);
        assert(bit_set(left, i as int) == bit_set(right, i as int));
    } else {
        assert(left ^ right == 0 ==> left == right) by (bit_vector);
    }
}

/// No bit of the empty board is set.
pub proof fn lemma_empty_board(i: int)
    ensures
        !bit_set(0, i),
{
    if 0 <= i < 64 {
        let j = i as u64;
        assert((0u64 >> j) & 1 == 0) by (bit_vector);
    }
}

proof fn lemma_halve_single_bit(k: u64)
    by (bit_vector)
    requires
        0 < k < 64,
    ensures
        (1u64 << k) % 2 == 0,
        (1u64 << k) / 2 == 1u64 << ((k - 1) as u64),
{
}

proof fn lemma_double_single_bit(x: u64, k: u64)
    by (bit_vector)
    requires
        k < 64,
        x % 2 == 0,
        x / 2 == 1u64 << k,
    ensures
        k < 63,
        x == 1u64 << ((k + 1) as u64),
{
}

/// Exactly one bit of a square mask is set.
pub proof fn lemma_square_mask_count(index: int)
    requires
        0 <= index < 64,
    ensures
        count_ones(square_mask(index)) == 1,
    decreases index,
{
    if index == 0 {
        assert(1u64 << 0u64 == 1) by (bit_vector);
        assert(count_ones(0) == 0);
    } else {
        lemma_halve_single_bit(index as u64);
        lemma_single_bit(index as u64, 0);
        lemma_square_mask_count(index - 1);
    }
}

/// Only the empty board has no bit set.
pub proof fn lemma_count_ones_zero(x: u64)
    ensures
        count_ones(x) == 0 <==> x == 0,
    decreases x,
{
    if x != 0 {
        lemma_count_ones_zero(x / 2);
    }
}

/// A word with exactly one bit set is a square mask.
pub proof fn lemma_one_bit_is_square_mask(x: u64)
    requires
        count_ones(x) == 1,
    ensures
        is_square_mask(x),
    decreases x,
{
    if x % 2 == 1 {
        lemma_count_ones_zero(x / 2);
        assert(1u64 << 0u64 == 1) by (bit_vector);
        assert(x == square_mask(0));
    } else {
        lemma_one_bit_is_square_mask(x / 2);
        let k = choose|k: int| 0 <= k < 64 && x / 2 == square_mask(k);
        lemma_double_single_bit(x, k as u64);
        assert(x == square_mask(k + 1));
    }
}

/// Tells whether the square on `rank` (from 1) and `file` (from 0) is a light
/// square.
pub fn light_square(rank: u8, file: u8) -> (light: bool)
    ensures
        light == is_light_square(rank as int, file as int),
{
    rank % 2 == file % 2
}

/// Tells whether `mask` selects exactly one square.
pub fn is_square(mask: u64) -> (single: bool)
    ensures
        single == is_square_mask(mask),
        single == (count_ones(mask) == 1),
{
    let single = mask != 0 && mask & (mask - 1) == 0;
    proof {
        if is_square_mask(mask) {
            let k = choose|k: int| 0 <= k < 64 && mask == square_mask(k);
            let j = k as u64;
            assert(j < 64 ==> (1u64 << j) != 0 && (1u64 << j) & (((1u64 << j) - 1) as u64) == 0)
                by (bit_vector);
            lemma_square_mask_count(k);
        } else if mask != 0 {
            axiom_u64_trailing_zeros(mask);
            let j = u64_trailing_zeros(mask) as u64;
            assert(mask != 0 && mask & ((mask - 1) as u64) == 0 && j < 64 && (mask >> j) & 1 == 1
                ==> mask == 1u64 << j) by (bit_vector);
            assert(mask == square_mask(j as int) ==> is_square_mask(mask));
            if count_ones(mask) == 1 {
                lemma_one_bit_is_square_mask(mask);
            }
        } else {
            assert(count_ones(0) == 0);
        }
    }
    single
}

} // verus!
