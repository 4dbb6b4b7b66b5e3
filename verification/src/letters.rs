use vstd::prelude::*;

verus! {

/// The letter that a character is counted as: its code point's low byte
/// read as an offset from `A` (letters `A` to `Z` count as 0 to 25).
pub open spec fn letter_slot(c: char) -> int {
    (c as u32 % 256) - 65
}

/// Whether every character of `s` is counted as one of the 26 letters.
pub open spec fn all_counted(s: Seq<char>) -> bool {
    forall|i: int| 0 <= i < s.len() ==> 0 <= #[trigger] letter_slot(s[i]) < 26
}

/// How many characters of `s` are counted as letter `slot`.
pub open spec fn letter_count(s: Seq<char>, slot: int) -> nat
    decreases s.len(),
{
    if s.len() == 0 {
        0
    } else {
        letter_count(s.drop_last(), slot) + (if letter_slot(s.last()) == slot { 1nat } else { 0nat })
    }
}

/// Counts how often each letter occurs in `chars`.
pub fn count_letters(chars: &Vec<char>) -> (counts: [u64; 26])
    requires
        all_counted(chars@),
    ensures
        forall|slot: int| 0 <= slot < 26 ==> counts[slot] == letter_count(chars@, slot),
{
    let mut counts: [u64; 26] = [0; 26];
    let mut i: usize = 0;
    while i < chars.len()
        invariant
            i <= chars@.len(),
            all_counted(chars@),
            forall|slot: int| 0 <= slot < 26 ==> counts[slot] == letter_count(chars@.take(i as int), slot),
            forall|slot: int| 0 <= slot < 26 ==> counts[slot] <= i,
        decreases chars@.len() - i,
    {
        let c = chars[i];
        assert(0 <= letter_slot(c) < 26);
        let slot = ((c as u32) % 256 - 65) as usize;
        assert(chars@.take(i + 1).drop_last() =~= chars@.take(i as int));
        counts[slot] = counts[slot] + 1;
        i += 1;
    }
    assert(chars@.take(i as int) =~= chars@);
    counts
}

/// A letter occurs at most as often as the text is long.
pub proof fn lemma_letter_count_bound(s: Seq<char>, slot: int)
    ensures
        letter_count(s, slot) <= s.len(),
    decreases s.len(),
{
    if s.len() > 0 {
        lemma_letter_count_bound(s.drop_last(), slot);
    }
}

} // verus!
