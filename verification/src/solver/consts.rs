use vstd::prelude::*;

verus! {

/// The ten ways to pick three of the five rotors (zero-based rotor indices).
pub const FIVE_CHOOSE_THREE_COMBINATIONS: [[usize; 3]; 10] = [
    [0, 1, 2],
    [0, 1, 3],
    [0, 1, 4],
    [0, 2, 3],
    [0, 2, 4],
    [0, 3, 4],
    [1, 2, 3],
    [1, 2, 4],
    [1, 3, 4],
    [2, 3, 4],
];

/// The six orders in which three chosen rotors can be placed (indices into a
/// combination: left, middle, right).
pub const THREE_PERMUTATIONS: [[usize; 3]; 6] = [
    [0, 1, 2],
    [0, 2, 1],
    [1, 0, 2],
    [1, 2, 0],
    [2, 0, 1],
    [2, 1, 0],
];

} // verus!

