use vstd::prelude::*;

verus! {

/// Why no neighbour could be found.
#[derive(Debug, PartialEq, Eq, Structural)]
pub enum PermutationsError {
    /// The element is the largest one, so it has no bigger neighbour.
    ElementIsBiggest,
    /// The element does not occur.
    ElementNotFound,
}

/// Whether a sequence is sorted in ascending (non-decreasing) order.
pub open spec fn sorted_ascending(s: Seq<u8>) -> bool {
    forall|i: int, j: int| 0 <= i <= j < s.len() ==> s[i] <= s[j]
}

/// Sorts the elements of `array` in ascending order.
/// Trusted: calls `slice::sort`, which the standard library documents as
/// sorting the slice in ascending order; the result is therefore sorted and
/// holds the same elements as before.
#[verifier::external_body]
fn sort_ascending<const K: usize>(array: &mut [u8; K])
    ensures
        sorted_ascending(final(array)@),
        final(array)@.to_multiset() == old(array)@.to_multiset(),
{
    array.sort();
}

/// Searches a sorted slice for `number`.
/// Trusted: calls `slice::binary_search`, documented to return `Ok` with the
/// index of some matching element when one exists (any one of several equal
/// ones), and otherwise `Err` with the index at which `number` could be
/// inserted keeping the order.
#[verifier::external_body]
fn binary_search_u8(elements: &[u8], number: u8) -> (result: Result<usize, usize>)
    requires
        sorted_ascending(elements@),
    ensures
        match result {
            Ok(i) => i < elements@.len() && elements@[i as int] == number,
            Err(i) => i <= elements@.len() && !elements@.contains(number),
        },
{
    elements.binary_search(&number)
}

/// A set of `K` numbers kept in ascending order, from which the next bigger
/// neighbour of an element can be looked up.
pub struct Permutations<const K: usize> {
    initial_state: [u8; K],
    current_permutation: [u8; K],
}

impl<const K: usize> Permutations<K> {
    /// The numbers in ascending order.
    pub closed spec fn initial(self) -> Seq<u8> {
        self.initial_state@
    }

    /// The arrangement handed out by `next`.
    pub closed spec fn current(self) -> Seq<u8> {
        self.current_permutation@
    }

    pub closed spec fn well_formed(self) -> bool {
        &&& sorted_ascending(self.initial_state@)
        &&& self.current_permutation@ == self.initial_state@
    }

    /// Stores `array` sorted in ascending order.
    pub fn new(array: [u8; K]) -> (permutations: Permutations<K>)
        ensures
            permutations.well_formed(),
            sorted_ascending(permutations.initial()),
            permutations.initial().to_multiset() == array@.to_multiset(),
            permutations.current() == permutations.initial(),
    {
        let mut array = array;
        sort_ascending(&mut array);
        Permutations { initial_state: array, current_permutation: array }
    }

    /// The element that follows `number` in ascending order: `ElementNotFound`
    /// when `number` does not occur, `ElementIsBiggest` when the occurrence
    /// found is the last element.
    pub fn find_next_bigger_neighbor(&self, number: u8) -> (result: Result<u8, PermutationsError>)
        requires
            self.well_formed(),
        ensures
            !self.current().contains(number) <==> result == Err::<u8, PermutationsError>(
                PermutationsError::ElementNotFound,
            ),
            result matches Ok(next) ==> exists|i: int|
                0 <= i && i + 1 < K && self.current()[i] == number && #[trigger] self.initial()[i
                    + 1] == next,
            result == Err::<u8, PermutationsError>(PermutationsError::ElementIsBiggest) ==> K >= 1
                && self.current()[K - 1] == number,
    {
        let found = binary_search_u8(&self.current_permutation, number);
        let i = match found {
            Ok(i) => i,
            Err(_) => {
                return Err(PermutationsError::ElementNotFound);
            },
        };
        if i + 1 < K {
            let next = self.initial_state[i + 1];
            assert(self.initial()[i + 1] == next);
            Ok(next)
        } else {
            Err(PermutationsError::ElementIsBiggest)
        }
    }

    /// The current arrangement; the sequence never ends.
    pub fn next(&mut self) -> (item: Option<[u8; K]>)
        ensures
            *final(self) == *old(self),
            item matches Some(a) && a@ == old(self).current(),
    {
        Some(self.current_permutation)
    }
}

} // verus!
