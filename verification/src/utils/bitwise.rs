use vstd::prelude::*;
use vstd::arithmetic::power2::{pow2, lemma_pow2_unfold, lemma_pow2_pos};
use vstd::bits::{low_bits_mask, lemma_usize_low_bits_mask_is_mod, lemma_usize_shr_is_div, lemma_usize_shl_is_mul, lemma_usize_pow2_no_overflow};

use crate::utils::popcount::{lowest_bit, lemma_lowest_bit_unique, lemma_pow2_zero_one};

verus! {

/// The lowest set bit of a non-zero word is a power of two that divides it,
/// and the quotient is odd.
pub proof fn lemma_lowest_set_bit(x: usize)
    by (bit_vector)
    requires
        x != 0,
    ensures
        !x + 1 == ((!x + 1) as usize),
        (x & ((!x + 1) as usize)) != 0,
        (x & ((!x + 1) as usize)) & (((x & ((!x + 1) as usize)) - 1) as usize) == 0,
        x & (((x & ((!x + 1) as usize)) - 1) as usize) == 0,
        x & (x & ((!x + 1) as usize)) == (x & ((!x + 1) as usize)),
{
}



/// Adding the lowest set bit of `x` to `x` clears the lowest run of ones; the
/// lowest set bit `d` of the sum lies above `c`, and `r ^ x` is the run of
/// ones from `c` up to and including `d`.
pub proof fn lemma_gosper_carry(x: usize, c: usize, r: usize, d: usize)
    by (bit_vector)
    requires
        x != 0,
        c == x & ((!x + 1) as usize),
        r == x + c,
        d == r & ((!r + 1) as usize),
    ensures
        d != 0,
        d & ((d - 1) as usize) == 0,
        r & ((d - 1) as usize) == 0,
        d > c,
        r & d == d,
        r ^ x == 2 * d - c,
{
}

/// Or-ing a value below `d` into a multiple of the power of two `d` adds it.
pub proof fn lemma_or_is_add(r: usize, t: usize, d: usize)
    by (bit_vector)
    requires
        d != 0,
        d & ((d - 1) as usize) == 0,
        r & ((d - 1) as usize) == 0,
        t < d,
    ensures
        t | r == r + t,
{
}



proof fn lemma_halve_single_bit(w: usize)
    by (bit_vector)
    requires
        w != 0,
        w != 1,
        w & ((w - 1) as usize) == 0,
    ensures
        w % 2 == 0,
        w / 2 != 0,
        (w / 2) & (((w / 2) - 1) as usize) == 0,
{
}

/// A word with a single set bit is a power of two.
pub proof fn lemma_single_bit_is_pow2(w: usize) -> (e: nat)
    requires
        w != 0,
        w & ((w - 1) as usize) == 0,
    ensures
        e < usize::BITS,
        w == pow2(e),
    decreases w,
{
    lemma_pow2_zero_one();
    if w == 1 {
        0
    } else {
        lemma_halve_single_bit(w);
        let e0 = lemma_single_bit_is_pow2(w / 2);
        lemma_pow2_unfold(e0 + 1);
        assert(w == 2 * (w / 2));
        if e0 + 1 >= usize::BITS {
            if e0 + 1 > usize::BITS {
                vstd::arithmetic::power2::lemma_pow2_strictly_increases(usize::BITS as nat, e0 + 1);
            }
            vstd::arithmetic::power2::lemma2_to64();
            assert(usize::BITS == 32 || usize::BITS == 64);
            assert(false);
        }
        e0 + 1
    }
}

proof fn lemma_bit_at_shift(x: usize, e: usize)
    by (bit_vector)
    requires
        e < usize::BITS,
        x & (1usize << e) == (1usize << e),
    ensures
        (x >> e) % 2 == 1,
{
}

/// When `w` is a single bit with no lower bits of `x` set and `w` itself set
/// in `x`, then `w` is the lowest set bit of `x`.
pub proof fn lemma_word_lowest_bit(x: usize, w: usize)
    requires
        w != 0,
        w & ((w - 1) as usize) == 0,
        x & ((w - 1) as usize) == 0,
        x & w == w,
    ensures
        x > 0,
        w == lowest_bit(x as nat),
{
    let e = lemma_single_bit_is_pow2(w);
    lemma_usize_pow2_no_overflow(e);
    lemma_usize_low_bits_mask_is_mod(x, e);
    assert(low_bits_mask(e) == w - 1);
    assert(x % w == 0);
    lemma_usize_shl_is_mul(1, e as usize);
    assert(1usize << (e as usize) == w);
    lemma_bit_at_shift(x, e as usize);
    lemma_usize_shr_is_div(x, e as usize);
    assert((x as nat / pow2(e)) % 2 == 1);
    lemma_lowest_bit_unique(x as nat, e);
}

pub proof fn lemma_shr_two(v: usize)
    by (bit_vector)
    ensures
        v >> 2 == v / 4,
{
}

} // verus!
