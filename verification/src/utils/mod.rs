pub mod bitwise;
pub mod popcount;
pub mod subsets;
pub mod permutations;

use vstd::prelude::*;

use crate::utils::bitwise::{
    lemma_lowest_set_bit, lemma_gosper_carry, lemma_or_is_add, lemma_word_lowest_bit,
};
use crate::utils::popcount::{
    lowest_bit, next_same_popcount, popcount, bit_set, lemma_gosper_shape, lemma_next_same_popcount,
    lemma_bit_split, lemma_mod_below,
};
use crate::utils::subsets::{
    bit_positions, padded_bit_positions, masks_with_popcount, first_mask, last_mask,
    lemma_bit_positions, lemma_bit_positions_prefix, lemma_first_mask, lemma_last_mask,
    lemma_step_within_last, lemma_masks_with_popcount,
};
use vstd::arithmetic::power2::{pow2, lemma_pow2_pos, lemma_pow2_unfold};
use vstd::bits::{lemma_usize_shl_is_mul, lemma_usize_shr_is_div, lemma_usize_pow2_no_overflow};

verus! {

/// Gosper's hack: the next larger word with the same number of set bits.
pub fn gospers_hack(x: usize) -> (next: usize)
    requires
        x != 0,
        next_same_popcount(x as nat) <= usize::MAX,
    ensures
        next == next_same_popcount(x as nat),
{
    proof {
        lemma_lowest_set_bit(x);
        lemma_next_same_popcount(x as nat);
    }
    // `!x + 1` is the two's complement negation of the non-zero `x`.
    let c = x & (!x + 1);
    proof {
        lemma_word_lowest_bit(x, c);
    }
    let r = x + c;
    let ghost d = r & ((!r + 1) as usize);
    proof {
        lemma_gosper_carry(x, c, r, d);
        lemma_word_lowest_bit(r, d);
        let (p, q, k) = lemma_gosper_shape(x as nat);
        lemma_pow2_pos(p);
        lemma_pow2_pos((q - 1) as nat);
        lemma_pow2_unfold(q);
        let h = pow2((q - 1) as nat);
        let v = (r ^ x) as int;
        assert(v == 4 * c * (h - 1) + 3 * c) by (nonlinear_arith)
            requires
                v == 2 * d - c,
                d == c * pow2(q),
                pow2(q) == 2 * h,
        ;
        vstd::arithmetic::div_mod::lemma_div_denominator(v, 4, c as int);
        vstd::arithmetic::div_mod::lemma_fundamental_div_mod_converse(v, 4 * c, h - 1, 3 * c);
        assert((v * 1) == v);
        assert(d as nat / (2 * c as nat) == h) by (nonlinear_arith)
            requires
                d == c * pow2(q),
                pow2(q) == 2 * h,
                c > 0,
        ;
        crate::utils::bitwise::lemma_shr_two(r ^ x);
        assert(((r ^ x) >> 2) / c == h - 1);
        assert(h == d as nat / (2 * c as nat));
        lemma_or_is_add(r, (h - 1) as usize, d);
        assert(c == lowest_bit(x as nat));
        assert(d == lowest_bit(r as nat));
        assert(r == x + c);
        assert(next_same_popcount(x as nat) == r + d as nat / (2 * c as nat) - 1);
    }
    let next = (((r ^ x) >> 2) / c) | r;
    assert(next == r + d as nat / (2 * c as nat) - 1);
    next
}


/// The one-based positions of the set bits of `number` among its lowest `N`
/// bits, in increasing order, followed by zeros up to length `K`.
pub fn positions_of_bits<const N: usize, const K: usize>(number: usize) -> (positions: [u8; K])
    requires
        N <= usize::BITS,
        popcount(number as nat % pow2(N as nat)) <= K,
    ensures
        positions@ == padded_bit_positions(number as nat, N as nat, K as nat),
{
    let mut result: [u8; K] = [0; K];
    let mut position: usize = 0;
    proof {
        lemma_bit_positions(number as nat, N as nat);
    }
    for i in 0..N
        invariant
            N <= usize::BITS,
            popcount(number as nat % pow2(N as nat)) <= K,
            bit_positions(number as nat, N as nat).len() <= K,
            position == bit_positions(number as nat, i as nat).len(),
            result@ == padded_bit_positions(number as nat, i as nat, K as nat),
    {
        proof {
            lemma_bit_positions_prefix(number as nat, (i + 1) as nat, N as nat);
            lemma_usize_pow2_no_overflow(i as nat);
            lemma_usize_shl_is_mul(1, i);
            lemma_usize_shr_is_div(number, i);
            lemma_bit_at(number, i);
        }
        if number & (1 << i) != 0 {
            assert(bit_set(number as nat, i as nat));
            result[position] = (i + 1) as u8;
            position += 1;
            assert(result@ =~= padded_bit_positions(number as nat, (i + 1) as nat, K as nat));
        } else {
            assert(!bit_set(number as nat, i as nat));
            assert(result@ =~= padded_bit_positions(number as nat, (i + 1) as nat, K as nat));
        }
    }
    result
}

proof fn lemma_bit_at(x: usize, e: usize)
    requires
        e < usize::BITS,
    ensures
        (x & (1usize << e) != 0) == ((x >> e) % 2 == 1),
{
    lemma_bit_at_word(x, e);
}

proof fn lemma_bit_at_word(x: usize, e: usize)
    by (bit_vector)
    requires
        e < usize::BITS,
    ensures
        (x & (1usize << e) != 0) == ((x >> e) % 2 == 1),
{
}


/// Why the `N` choose `K` enumeration cannot be built.
#[derive(Debug, PartialEq, Eq, Structural)]
pub enum NChooseKError {
    /// `N` exceeds the number of bits in a word.
    NTooBig,
    /// `K` exceeds `N`.
    KTooBig { n: usize, k: usize },
    /// `N` is zero.
    NTooSmall,
    /// `K` is zero.
    KTooSmall,
}

/// The `K`-element subsets of `{1, ..., N}`, produced one by one as sorted
/// arrays of their elements. Subsets are encoded as `N`-bit masks and visited
/// in increasing order of mask.
pub struct NChooseK<const N: usize, const K: usize> {
    current_permutation: usize,
    last_permutation: usize,
    last_element_reached: bool,
    visited: Ghost<Seq<nat>>,
}

impl<const N: usize, const K: usize> NChooseK<N, K> {
    /// The mask of the subset that the next call hands out.
    pub closed spec fn current(self) -> nat {
        self.current_permutation as nat
    }

    /// Whether every subset has been handed out.
    pub closed spec fn done(self) -> bool {
        self.last_element_reached
    }

    /// The masks of the subsets handed out so far, in order.
    pub closed spec fn visited(self) -> Seq<nat> {
        self.visited@
    }

    pub closed spec fn well_formed(self) -> bool {
        &&& N <= usize::BITS
        &&& 1 <= K <= N
        &&& K < usize::BITS
        &&& self.last_permutation as nat == last_mask(N as nat, K as nat)
        &&& popcount(self.current_permutation as nat) == K
        &&& self.current_permutation <= self.last_permutation
        &&& !self.last_element_reached ==> self.visited@ == masks_with_popcount(
            self.current_permutation as nat,
            K as nat,
        )
        &&& self.last_element_reached ==> self.current_permutation == self.last_permutation
        &&& self.last_element_reached ==> self.visited@ == masks_with_popcount(
            pow2(N as nat),
            K as nat,
        )
    }

    /// Hands out the next subset, or `None` once all have been handed out.
    /// The enumeration is fused: after a `None` it is done, and a done
    /// enumeration answers every later call with `None` and stays unchanged.
    pub fn next(&mut self) -> (item: Option<[u8; K]>)
        requires
            old(self).well_formed(),
        ensures
            final(self).well_formed(),
            item is None <==> old(self).done(),
            item is None ==> final(self).done(),
            old(self).done() ==> item is None && *final(self) == *old(self),
            !old(self).done() ==> {
                &&& item matches Some(positions)
                &&& positions@ == padded_bit_positions(old(self).current(), N as nat, K as nat)
                &&& final(self).visited() == old(self).visited().push(old(self).current())
                &&& old(self).current() == last_mask(N as nat, K as nat) ==> final(self).done()
                &&& old(self).current() != last_mask(N as nat, K as nat) ==> !final(self).done()
                    && final(self).current() == next_same_popcount(old(self).current())
            },
    {
        proof {
            lemma_pow2_pos(N as nat);
            lemma_last_mask(N as nat, K as nat);
            lemma_mod_below(self.current_permutation as nat, N as nat);
        }
        if self.current_permutation == self.last_permutation {
            if self.last_element_reached {
                None
            } else {
                self.last_element_reached = true;
                self.visited = Ghost(self.visited@.push(self.current_permutation as nat));
                Some(positions_of_bits::<N, K>(self.last_permutation))
            }
        } else {
            let next = positions_of_bits::<N, K>(self.current_permutation);
            proof {
                lemma_step_within_last(self.current_permutation as nat, N as nat, K as nat);
            }
            let ghost prev = self.current_permutation as nat;
            self.current_permutation = gospers_hack(self.current_permutation);
            self.visited = Ghost(self.visited@.push(prev));
            Some(next)
        }
    }
}

/// Every `K`-subset of `{1, ..., N}` is handed out exactly once, in increasing
/// order of mask: once the enumeration is exhausted, the masks handed out are
/// all masks below `2^N` with `K` set bits, strictly increasing.
pub proof fn lemma_n_choose_k_complete<const N: usize, const K: usize>(e: NChooseK<N, K>)
    requires
        e.well_formed(),
        e.done(),
    ensures
        e.visited() == masks_with_popcount(pow2(N as nat), K as nat),
        forall|i: int|
            0 <= i < e.visited().len() ==> #[trigger] e.visited()[i] < pow2(N as nat) && popcount(
                e.visited()[i],
            ) == K,
        forall|i: int, j: int| 0 <= i < j < e.visited().len() ==> e.visited()[i] < e.visited()[j],
        forall|z: nat| z < pow2(N as nat) && popcount(z) == K ==> e.visited().contains(z),
{
    lemma_masks_with_popcount(pow2(N as nat), K as nat);
}

/// Enumerates the `K`-element subsets of `{1, ..., N}` as sorted arrays.
/// Fails when `N` exceeds the word size, `K` exceeds `N`, or either is zero.
pub fn enumerate_n_choose_k<const N: usize, const K: usize>() -> (result: Result<
    NChooseK<N, K>,
    NChooseKError,
>)
    requires
        !(N == usize::BITS && K == usize::BITS),
    ensures
        N > usize::BITS ==> result == Err::<NChooseK<N, K>, NChooseKError>(NChooseKError::NTooBig),
        N <= usize::BITS && K > N ==> result == Err::<NChooseK<N, K>, NChooseKError>(
            NChooseKError::KTooBig { n: N, k: K },
        ),
        N <= usize::BITS && K <= N && N == 0 ==> result == Err::<NChooseK<N, K>, NChooseKError>(
            NChooseKError::NTooSmall,
        ),
        N <= usize::BITS && K <= N && N > 0 && K == 0 ==> result == Err::<
            NChooseK<N, K>,
            NChooseKError,
        >(NChooseKError::KTooSmall),
        N <= usize::BITS && 1 <= K <= N ==> (result matches Ok(e) && e.well_formed() && !e.done()
            && e.current() == first_mask(K as nat) && e.visited() == Seq::<nat>::empty()),
{
    if N > usize::BITS as usize {
        return Err(NChooseKError::NTooBig);
    }
    if K > N {
        return Err(NChooseKError::KTooBig { n: N, k: K });
    }
    if N == 0 {
        return Err(NChooseKError::NTooSmall);
    }
    if K == 0 {
        return Err(NChooseKError::KTooSmall);
    }
    proof {
        lemma_usize_pow2_no_overflow(K as nat);
        lemma_usize_shl_is_mul(1, K);
        lemma_last_mask(N as nat, K as nat);
        lemma_first_mask(K as nat);
        lemma_pow2_pos(N as nat);
        lemma_usize_pow2_no_overflow((N - K) as nat);
        lemma_pow2_fits_word(N as nat);
    }
    let first_permutation: usize = (1 << K) - 1;
    proof {
        assert(first_permutation * pow2((N - K) as nat) == last_mask(N as nat, K as nat));
        lemma_usize_shl_is_mul(first_permutation, (N - K) as usize);
    }
    let last_permutation: usize = first_permutation << (N - K);
    Ok(NChooseK {
        current_permutation: first_permutation,
        last_permutation,
        last_element_reached: false,
        visited: Ghost(Seq::empty()),
    })
}

/// `2^n` is at most one more than the largest word when `n` is the word size or less.
proof fn lemma_pow2_fits_word(n: nat)
    requires
        n <= usize::BITS,
    ensures
        pow2(n) <= usize::MAX + 1,
{
    vstd::arithmetic::power2::lemma2_to64();
    if n < usize::BITS {
        vstd::arithmetic::power2::lemma_pow2_strictly_increases(n, usize::BITS as nat);
    }
}

} // verus!
