use vstd::prelude::*;

use crate::utils::popcount::next_same_popcount;

verus! {

/// Why an `n` choose `k` enumeration over 32-bit masks cannot be set up.
#[derive(Debug, PartialEq, Eq, Structural)]
pub enum NChooseKError {
    /// The subset size exceeds the 32 bits of a mask.
    NTooBig,
    /// The subset size `m` exceeds the set size `n`.
    MTooBig { n: u32, m: u32 },
    /// The set is empty.
    NTooSmall,
    /// The subset size is zero.
    MTooSmall,
}

/// Checks the arguments of an `n` choose `k` enumeration over 32-bit masks,
/// in this order: `k` at most 32, `k` at most `n`, `n` positive, `k` positive.
pub fn enumerate_n_choose_k(n: u32, k: u32) -> (result: Result<(), NChooseKError>)
    ensures
        k > 32 ==> result == Err::<(), NChooseKError>(NChooseKError::NTooBig),
        k <= 32 && k > n ==> result == Err::<(), NChooseKError>(
            NChooseKError::MTooBig { n, m: k },
        ),
        k <= 32 && k <= n && n == 0 ==> result == Err::<(), NChooseKError>(NChooseKError::NTooSmall),
        k <= 32 && k <= n && n > 0 && k == 0 ==> result == Err::<(), NChooseKError>(
            NChooseKError::MTooSmall,
        ),
        k <= 32 && k <= n && n > 0 && k > 0 ==> result == Ok::<(), NChooseKError>(()),
{
    if k > 32 {
        Err(NChooseKError::NTooBig)
    } else if k > n {
        Err(NChooseKError::MTooBig { n, m: k })
    } else if n == 0 {
        Err(NChooseKError::NTooSmall)
    } else if k == 0 {
        Err(NChooseKError::MTooSmall)
    } else {
        Ok(())
    }
}

/// Gosper's hack on 32-bit words: the next larger word with as many set bits.
pub fn gospers_hack(x: u32) -> (next: u32)
    requires
        x != 0,
        next_same_popcount(x as nat) <= u32::MAX,
    ensures
        next == next_same_popcount(x as nat),
{
    crate::utils::gospers_hack(x as usize) as u32
}

} // verus!
