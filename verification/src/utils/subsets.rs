use vstd::prelude::*;
use vstd::arithmetic::power2::{pow2, lemma_pow2_pos, lemma_pow2_adds, lemma_pow2_strictly_increases};

use crate::utils::popcount::{
    popcount, bit_set, next_same_popcount, lemma_pow2_zero_one, lemma_popcount_zero, lemma_bit_split,
    lemma_popcount_ones, lemma_popcount_bound, lemma_popcount_split, lemma_next_same_popcount,
};

verus! {

/// The one-based positions of the set bits among the lowest `n` bits of `x`,
/// in increasing order.
pub open spec fn bit_positions(x: nat, n: nat) -> Seq<u8>
    decreases n,
{
    if n == 0 {
        seq![]
    } else {
        let below = bit_positions(x, (n - 1) as nat);
        if bit_set(x, (n - 1) as nat) {
            below.push(n as u8)
        } else {
            below
        }
    }
}

/// `bit_positions(x, n)` padded with zeros to length `k`.
pub open spec fn padded_bit_positions(x: nat, n: nat, k: nat) -> Seq<u8> {
    bit_positions(x, n) + Seq::new((k - bit_positions(x, n).len()) as nat, |i: int| 0u8)
}

/// The numbers below `bound` with exactly `k` set bits, in increasing order.
pub open spec fn masks_with_popcount(bound: nat, k: nat) -> Seq<nat>
    decreases bound,
{
    if bound == 0 {
        seq![]
    } else {
        let below = masks_with_popcount((bound - 1) as nat, k);
        if popcount((bound - 1) as nat) == k {
            below.push((bound - 1) as nat)
        } else {
            below
        }
    }
}

/// The smallest number with `k` set bits: the `k` lowest bits.
pub open spec fn first_mask(k: nat) -> nat {
    (pow2(k) - 1) as nat
}

/// The largest number below `2^n` with `k` set bits: the `k` highest bits.
pub open spec fn last_mask(n: nat, k: nat) -> nat {
    ((pow2(k) - 1) * pow2((n - k) as nat)) as nat
}

/// `bit_positions` lists as many positions as there are set bits, each in
/// `1..=n`, strictly increasing, and grows with `n`.
pub proof fn lemma_bit_positions(x: nat, n: nat)
    requires
        n < 256,
    ensures
        bit_positions(x, n).len() == popcount(x % pow2(n)),
        forall|i: int| 0 <= i < bit_positions(x, n).len() ==> 1 <= #[trigger] bit_positions(x, n)[i] <= n,
        forall|i: int, j: int|
            0 <= i < j < bit_positions(x, n).len() ==> bit_positions(x, n)[i] < bit_positions(x, n)[j],
        forall|i: int|
            0 <= i < bit_positions(x, n).len() ==> bit_set(x, (#[trigger] bit_positions(x, n)[i] - 1) as nat),
    decreases n,
{
    lemma_pow2_zero_one();
    if n == 0 {
        assert(x % 1 == 0);
        lemma_popcount_zero(0);
    } else {
        lemma_bit_positions(x, (n - 1) as nat);
        lemma_bit_split(x, (n - 1) as nat);
    }
}

/// A prefix of the bits never lists more positions than a longer prefix.
pub proof fn lemma_bit_positions_prefix(x: nat, i: nat, n: nat)
    requires
        i <= n,
    ensures
        bit_positions(x, i).len() <= bit_positions(x, n).len(),
        bit_positions(x, i) == bit_positions(x, n).take(bit_positions(x, i).len() as int),
    decreases n,
{
    if i < n {
        lemma_bit_positions_prefix(x, i, (n - 1) as nat);
        assert(bit_positions(x, (n - 1) as nat) =~= bit_positions(x, n).take(
            bit_positions(x, (n - 1) as nat).len() as int,
        ));
    } else {
        assert(bit_positions(x, n) =~= bit_positions(x, n).take(bit_positions(x, n).len() as int));
    }
}

/// The listing of masks with popcount `k` below `bound` holds exactly those
/// masks, in strictly increasing order.
pub proof fn lemma_masks_with_popcount(bound: nat, k: nat)
    ensures
        forall|i: int|
            0 <= i < masks_with_popcount(bound, k).len() ==> #[trigger] masks_with_popcount(bound, k)[i]
                < bound && popcount(masks_with_popcount(bound, k)[i]) == k,
        forall|i: int, j: int|
            0 <= i < j < masks_with_popcount(bound, k).len() ==> masks_with_popcount(bound, k)[i]
                < masks_with_popcount(bound, k)[j],
        forall|z: nat| z < bound && popcount(z) == k ==> masks_with_popcount(bound, k).contains(z),
    decreases bound,
{
    if bound > 0 {
        let b = (bound - 1) as nat;
        lemma_masks_with_popcount(b, k);
        let below = masks_with_popcount(b, k);
        assert forall|z: nat| z < bound && popcount(z) == k implies masks_with_popcount(
            bound,
            k,
        ).contains(z) by {
            if z < b {
                let i = choose|i: int| 0 <= i < below.len() && below[i] == z;
                if popcount(b) == k {
                    assert(below.push(b)[i] == z);
                }
            } else {
                assert(z == b);
                assert(below.push(b)[below.len() as int] == z);
            }
        }
    }
}

/// Masks with popcount `k` that lie in a gap contribute nothing.
pub proof fn lemma_masks_gap(a: nat, b: nat, k: nat)
    requires
        a <= b,
        forall|z: nat| a <= z < b ==> popcount(z) != k,
    ensures
        masks_with_popcount(b, k) == masks_with_popcount(a, k),
    decreases b,
{
    if a < b {
        lemma_masks_gap(a, (b - 1) as nat, k);
    }
}

/// The first mask has popcount `k`, and no smaller number does.
pub proof fn lemma_first_mask(k: nat)
    ensures
        popcount(first_mask(k)) == k,
        forall|z: nat| z < first_mask(k) ==> popcount(z) != k,
        masks_with_popcount(first_mask(k), k) == Seq::<nat>::empty(),
{
    lemma_popcount_ones(k);
    assert forall|z: nat| z < first_mask(k) implies popcount(z) != k by {
        lemma_popcount_bound(z, k);
    }
    lemma_masks_gap(0, first_mask(k), k);
}

/// The last mask lies below `2^n`, has popcount `k`, is at least the first
/// mask, and no number between it and `2^n` has popcount `k`.
pub proof fn lemma_last_mask(n: nat, k: nat)
    requires
        1 <= k <= n,
    ensures
        last_mask(n, k) < pow2(n),
        first_mask(k) <= last_mask(n, k),
        popcount(last_mask(n, k)) == k,
        forall|z: nat| z < pow2(n) && popcount(z) == k ==> z <= last_mask(n, k),
        masks_with_popcount(pow2(n), k) == masks_with_popcount(last_mask(n, k), k).push(last_mask(n, k)),
{
    let j = (n - k) as nat;
    lemma_pow2_adds(k, j);
    lemma_pow2_pos(k);
    lemma_pow2_pos(j);
    let a = (pow2(k) - 1) as nat;
    let last = last_mask(n, k);
    assert(last == a * pow2(j));
    assert(last < pow2(n)) by (nonlinear_arith)
        requires
            last == a * pow2(j),
            a + 1 == pow2(k),
            pow2(n) == pow2(k) * pow2(j),
            pow2(j) > 0,
    ;
    assert(a <= last) by (nonlinear_arith)
        requires
            last == a * pow2(j),
            pow2(j) >= 1,
    ;
    lemma_popcount_split(a, j, 0);
    lemma_popcount_ones(k);
    lemma_popcount_zero(0);
    assert forall|z: nat| z < pow2(n) && popcount(z) == k implies z <= last by {
        let hi = z / pow2(j);
        let lo = z % pow2(j);
        assert(z == hi * pow2(j) + lo) by (nonlinear_arith)
            requires
                pow2(j) > 0,
                hi == z / pow2(j),
                lo == z % pow2(j),
        ;
        vstd::arithmetic::div_mod::lemma_mod_pos_bound(z as int, pow2(j) as int);
        assert(hi < pow2(k)) by (nonlinear_arith)
            requires
                z == hi * pow2(j) + lo,
                z < pow2(n),
                pow2(n) == pow2(k) * pow2(j),
                lo >= 0,
        ;
        lemma_popcount_split(hi, j, lo);
        if hi == a {
            lemma_popcount_zero(lo);
        } else {
            assert(z <= last) by (nonlinear_arith)
                requires
                    z == hi * pow2(j) + lo,
                    lo < pow2(j),
                    hi + 1 <= a,
                    last == a * pow2(j),
            ;
        }
    }
    lemma_masks_gap(last + 1, pow2(n), k);
}

/// A mask with popcount `k` below the last mask is followed, at Gosper's
/// step, by a mask that is still at most the last one, and the listing of
/// masks grows by exactly the mask left behind.
pub proof fn lemma_step_within_last(x: nat, n: nat, k: nat)
    requires
        1 <= k <= n,
        popcount(x) == k,
        x < last_mask(n, k),
    ensures
        x > 0,
        next_same_popcount(x) <= last_mask(n, k),
        popcount(next_same_popcount(x)) == k,
        masks_with_popcount(next_same_popcount(x), k) == masks_with_popcount(x, k).push(x),
{
    lemma_popcount_zero(x);
    lemma_next_same_popcount(x);
    lemma_last_mask(n, k);
    lemma_masks_gap(x + 1, next_same_popcount(x), k);
}

} // verus!
