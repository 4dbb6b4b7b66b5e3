pub mod search;

use vstd::prelude::*;

use vstd::relations::injective_on;
use vstd::set_lib::{lemma_int_range, lemma_map_size, lemma_subset_equality, set_int_range};

use crate::breaker::search::{
    BreakerSearch, BreakerStep, break_started, break_observed, byte_len, byte_offset, cipher_covers,
    utf8_len_exec, lemma_byte_offset_monotone,
};
use crate::solver::enigma_settings::{push_transpositions, rotor_at, rotor_from_index};
use crate::solver::enigma_solver_utils::{alphabet_letter, alphabet_letter_exec};
use crate::solver::machine::{Event, MachineOp, ReflectorName};
use crate::letters::{all_counted, count_letters, lemma_letter_count_bound, letter_count, letter_slot};
use crate::text::{chars_of, upper_char, upper_chars_of, upper_seq};

verus! {

/// Letter frequencies of a plain text, most frequent first; letters with
/// equal frequency in alphabetical order.
pub struct CipherMetadata {
    pub letter_frequency_order: Vec<(char, u32)>,
}

/// Whether letter `t` comes before letter `u` in frequency order: it is
/// more frequent in `s`, or as frequent and earlier in the alphabet.
pub open spec fn precedes(s: Seq<char>, t: int, u: int) -> bool {
    letter_count(s, t) > letter_count(s, u) || (letter_count(s, t) == letter_count(s, u) && t < u)
}

/// How many of the letters with index below `n` come before letter `u`.
pub open spec fn rank_below(s: Seq<char>, u: int, n: int) -> nat
    decreases n,
{
    if n <= 0 {
        0
    } else {
        rank_below(s, u, n - 1) + (if precedes(s, n - 1, u) { 1nat } else { 0nat })
    }
}

/// The place of letter `u` in the frequency order of `s`: the number of
/// letters that come before it.
pub open spec fn frequency_rank(s: Seq<char>, u: int) -> nat {
    rank_below(s, u, 26)
}

/// No letter comes before itself, and of two letters with the same count
/// the earlier in the alphabet comes first: so at most `n` letters below `n`
/// come before `u`, one fewer when `u` itself is below `n`.
proof fn lemma_rank_below_bound(s: Seq<char>, u: int, n: int)
    requires
        n >= 0,
    ensures
        rank_below(s, u, n) + (if 0 <= u < n { 1int } else { 0int }) <= n,
    decreases n,
{
    if n > 0 {
        lemma_rank_below_bound(s, u, n - 1);
    }
}

/// When `t` comes before `u`, every letter before `t` also comes before
/// `u`, and so does `t`: `u` has a greater rank among the letters below `n`.
proof fn lemma_rank_below_order(s: Seq<char>, t: int, u: int, n: int)
    requires
        n >= 0,
        precedes(s, t, u),
    ensures
        rank_below(s, u, n) >= rank_below(s, t, n) + (if 0 <= t < n { 1int } else { 0int }),
    decreases n,
{
    if n > 0 {
        lemma_rank_below_order(s, t, u, n - 1);
    }
}

/// Two different letters have different frequency ranks, both below 26;
/// the one that comes first has the smaller rank.
pub proof fn lemma_frequency_rank_order(s: Seq<char>, t: int, u: int)
    requires
        0 <= t < 26,
        0 <= u < 26,
        t != u,
    ensures
        frequency_rank(s, t) < 26,
        frequency_rank(s, u) < 26,
        frequency_rank(s, t) != frequency_rank(s, u),
        precedes(s, t, u) <==> frequency_rank(s, t) < frequency_rank(s, u),
{
    lemma_rank_below_bound(s, t, 26);
    lemma_rank_below_bound(s, u, 26);
    if precedes(s, t, u) {
        lemma_rank_below_order(s, t, u, 26);
    } else {
        lemma_rank_below_order(s, u, t, 26);
    }
}

/// Every place 0 to 25 of the frequency order is taken by exactly one letter.
pub proof fn lemma_frequency_rank_onto(s: Seq<char>, place: int)
    requires
        0 <= place < 26,
    ensures
        exists|u: int| 0 <= u < 26 && frequency_rank(s, u) == place,
{
    let letters = set_int_range(0, 26);
    let rank = |u: int| frequency_rank(s, u) as int;
    let places = letters.map(rank);
    lemma_int_range(0, 26);
    assert(injective_on(rank, letters)) by {
        assert forall|a: int, b: int|
            letters.contains(a) && letters.contains(b) && #[trigger] rank(a) == #[trigger] rank(b) implies a
            == b by {
            if a != b {
                lemma_frequency_rank_order(s, a, b);
            }
        }
    }
    lemma_map_size(letters, places, rank);
    assert(places.subset_of(letters)) by {
        assert forall|p: int| places.contains(p) implies letters.contains(p) by {
            let u = choose|u: int| letters.contains(u) && p == rank(u);
            lemma_rank_below_bound(s, u, 26);
        }
    }
    lemma_subset_equality(places, letters);
    assert(places.contains(place));
}

/// The frequency rank of letter `u` (0 to 25), computed from the counts.
fn rank_of(counts: &[u64; 26], u: usize, Ghost(s): Ghost<Seq<char>>) -> (rank: usize)
    requires
        u < 26,
        forall|slot: int| 0 <= slot < 26 ==> counts[slot] == letter_count(s, slot),
    ensures
        rank == frequency_rank(s, u as int),
{
    let mut rank: usize = 0;
    let mut v: usize = 0;
    while v < 26
        invariant
            v <= 26,
            u < 26,
            rank <= v,
            rank == rank_below(s, u as int, v as int),
            forall|slot: int| 0 <= slot < 26 ==> counts[slot] == letter_count(s, slot),
        decreases 26 - v,
    {
        if counts[v] > counts[u] || (counts[v] == counts[u] && v < u) {
            rank += 1;
        }
        v += 1;
    }
    rank
}

/// Whether the frequency order `order` lists letter `u` of `s` at its rank,
/// with its count.
pub open spec fn placed(order: Seq<(char, u32)>, s: Seq<char>, u: int) -> bool {
    order[frequency_rank(s, u) as int] == (alphabet_letter(u as nat), letter_count(s, u) as u32)
}

/// A letter's index is the slot it is counted in.
proof fn lemma_letter_slot(u: int)
    requires
        0 <= u < 26,
    ensures
        letter_slot(alphabet_letter(u as nat)) == u,
        alphabet_letter(u as nat) as u32 == 65 + u,
{
}

/// An order that places every letter at its rank is sorted: counts never
/// increase, and letters with equal counts stand in alphabetical order.
proof fn lemma_placed_sorted(order: Seq<(char, u32)>, s: Seq<char>)
    requires
        order.len() == 26,
        s.len() <= u32::MAX,
        forall|u: int| 0 <= u < 26 ==> #[trigger] placed(order, s, u),
    ensures
        forall|p: int, q: int|
            0 <= p < q < 26 ==> (#[trigger] order[p]).1 > (#[trigger] order[q]).1 || (order[p].1
                == order[q].1 && (order[p].0 as int) < (order[q].0 as int)),
{
    assert forall|p: int, q: int| 0 <= p < q < 26 implies (#[trigger] order[p]).1 > (
    #[trigger] order[q]).1 || (order[p].1 == order[q].1 && (order[p].0 as int) < (
    order[q].0 as int)) by {
        lemma_frequency_rank_onto(s, p);
        lemma_frequency_rank_onto(s, q);
        let a = choose|u: int| 0 <= u < 26 && frequency_rank(s, u) == p;
        let b = choose|u: int| 0 <= u < 26 && frequency_rank(s, u) == q;
        assert(placed(order, s, a));
        assert(placed(order, s, b));
        lemma_frequency_rank_order(s, a, b);
        lemma_letter_slot(a);
        lemma_letter_slot(b);
        lemma_letter_count_bound(s, a);
        lemma_letter_count_bound(s, b);
    }
}



/// Whether `order` is the frequency order of `s`: all 26 letters, each at its
/// rank with its count.
pub open spec fn describes_frequency_order(order: Seq<(char, u32)>, s: Seq<char>) -> bool {
    &&& order.len() == 26
    &&& forall|u: int| 0 <= u < 26 ==> #[trigger] placed(order, s, u)
}

/// Whether counts never increase along `order` and letters with equal
/// counts stand in alphabetical order.
pub open spec fn frequency_sorted(order: Seq<(char, u32)>) -> bool {
    forall|p: int, q: int|
        0 <= p < q < order.len() ==> (#[trigger] order[p]).1 > (#[trigger] order[q]).1 || (order[p].1
            == order[q].1 && (order[p].0 as int) < (order[q].0 as int))
}

/// How many of the first `n` characters of `candidate` equal the upper case
/// of the plain character at the same place.
pub open spec fn aligned_letter_count(candidate: Seq<char>, plain: Seq<char>, n: int) -> nat
    decreases n,
{
    if n <= 0 {
        0
    } else {
        aligned_letter_count(candidate, plain, n - 1) + (if candidate[n - 1] == upper_char(plain[n - 1]) {
            1nat
        } else {
            0nat
        })
    }
}

/// A choice of three rotors (zero-based indices into the five available)
/// and the position (0 to 25) of each.
#[derive(Clone, Copy, Debug, PartialEq, Eq, Structural)]
pub struct EnigmaRotorConfiguration {
    pub left_rotor_index: usize,
    pub middle_rotor_index: usize,
    pub right_rotor_index: usize,
    pub left_rotor_position: u8,
    pub middle_rotor_position: u8,
    pub right_rotor_position: u8,
}

impl EnigmaRotorConfiguration {
    /// Rotor indices lie in 0..5 and positions in 0..26.
    pub open spec fn well_formed(self) -> bool {
        &&& self.left_rotor_index < 5
        &&& self.middle_rotor_index < 5
        &&& self.right_rotor_index < 5
        &&& self.left_rotor_position < 26
        &&& self.middle_rotor_position < 26
        &&& self.right_rotor_position < 26
    }

    /// Builds a configuration; every rotor index must lie in 0..5 and every
    /// position in 0..26.
    pub fn new(
        left_rotor_index: usize,
        middle_rotor_index: usize,
        right_rotor_index: usize,
        left_rotor_position: u8,
        middle_rotor_position: u8,
        right_rotor_position: u8,
    ) -> (config: Self)
        requires
            left_rotor_index < 5,
            middle_rotor_index < 5,
            right_rotor_index < 5,
            left_rotor_position < 26,
            middle_rotor_position < 26,
            right_rotor_position < 26,
        ensures
            config == (EnigmaRotorConfiguration {
                left_rotor_index,
                middle_rotor_index,
                right_rotor_index,
                left_rotor_position,
                middle_rotor_position,
                right_rotor_position,
            }),
            config.well_formed(),
    {
        EnigmaRotorConfiguration {
            left_rotor_index,
            middle_rotor_index,
            right_rotor_index,
            left_rotor_position,
            middle_rotor_position,
            right_rotor_position,
        }
    }

    /// The rotor with index `index` (0 to 4).
    pub fn rotor_index_to_rotor(index: usize) -> (rotor: crate::solver::machine::RotorName)
        requires
            index < 5,
        ensures
            rotor == rotor_at(index as nat),
    {
        rotor_from_index(index)
    }

    /// The operations that build a machine with these rotors at these
    /// positions and `reflector`.
    pub fn to_enigma(&self, reflector: ReflectorName) -> (ops: Vec<MachineOp>)
        requires
            self.well_formed(),
        ensures
            ops@ == seq![
                MachineOp::Build {
                    left_rotor: rotor_at(self.left_rotor_index as nat),
                    middle_rotor: rotor_at(self.middle_rotor_index as nat),
                    right_rotor: rotor_at(self.right_rotor_index as nat),
                    reflector,
                },
                MachineOp::SetRotorPositions {
                    left: self.left_rotor_position as usize,
                    middle: self.middle_rotor_position as usize,
                    right: self.right_rotor_position as usize,
                },
            ],
    {
        let mut ops: Vec<MachineOp> = Vec::new();
        ops.push(
            MachineOp::Build {
                left_rotor: Self::rotor_index_to_rotor(self.left_rotor_index),
                middle_rotor: Self::rotor_index_to_rotor(self.middle_rotor_index),
                right_rotor: Self::rotor_index_to_rotor(self.right_rotor_index),
                reflector,
            },
        );
        ops.push(
            MachineOp::SetRotorPositions {
                left: self.left_rotor_position as usize,
                middle: self.middle_rotor_position as usize,
                right: self.right_rotor_position as usize,
            },
        );
        assert(ops@ =~= seq![
            MachineOp::Build {
                left_rotor: rotor_at(self.left_rotor_index as nat),
                middle_rotor: rotor_at(self.middle_rotor_index as nat),
                right_rotor: rotor_at(self.right_rotor_index as nat),
                reflector,
            },
            MachineOp::SetRotorPositions {
                left: self.left_rotor_position as usize,
                middle: self.middle_rotor_position as usize,
                right: self.right_rotor_position as usize,
            },
        ]);
        ops
    }
}

/// A known-plaintext attack on an Enigma cipher: it keeps the cipher text,
/// the upper-cased plain text and the plain text's letter frequencies, and
/// scans the rotor positions of its rotor order, testing one plugboard
/// partner for the most frequent plain letter.
pub struct EnigmaBreaker {
    five_choose_three_combinations: [[usize; 3]; 1],
    three_permutations: [[usize; 3]; 1],
    available_reflectors: [ReflectorName; 1],
    cipher: Vec<char>,
    plain: Vec<char>,
    cipher_metadata: CipherMetadata,
}

/// Whether every character of `plain`, upper-cased, is counted as one of
/// the 26 letters.
pub fn counts_as_letters(plain: &str) -> (counted: bool)
    ensures
        counted == all_counted(upper_seq(plain@)),
{
    let chars = upper_chars_of(plain);
    let mut i: usize = 0;
    while i < chars.len()
        invariant
            i <= chars@.len(),
            chars@ == upper_seq(plain@),
            forall|j: int| 0 <= j < i ==> 0 <= #[trigger] letter_slot(chars@[j]) < 26,
        decreases chars@.len() - i,
    {
        let code = chars[i] as u32 % 256;
        if code < 65 || code > 90 {
            assert(!(0 <= letter_slot(chars@[i as int]) < 26));
            return false;
        }
        i += 1;
    }
    true
}

impl EnigmaBreaker {
    /// The characters of the cipher text.
    pub closed spec fn cipher_chars(self) -> Seq<char> {
        self.cipher@
    }

    /// The characters of the plain text, upper-cased.
    pub closed spec fn plain_chars(self) -> Seq<char> {
        self.plain@
    }

    /// The letters of the plain text with their counts, most frequent first.
    pub closed spec fn frequency_order(self) -> Seq<(char, u32)> {
        self.cipher_metadata.letter_frequency_order@
    }

    /// The rotors (zero-based, left to right) and the reflector that the
    /// scan uses: the first choice of three rotors, in the first order, with
    /// the first reflector.
    pub closed spec fn rotor_choice(self) -> (usize, usize, usize, ReflectorName) {
        let combination = self.five_choose_three_combinations[0];
        let permutation = self.three_permutations[0];
        (
            combination[permutation[0] as int],
            combination[permutation[1] as int],
            combination[permutation[2] as int],
            self.available_reflectors[0],
        )
    }

    /// The plain letter whose plugboard partner is tested: the most frequent.
    pub open spec fn target(self) -> char {
        self.frequency_order()[0].0
    }

    /// The breaker's data is consistent: the frequency order lists 26 letters
    /// and the rotor choice names rotors 0 to 4.
    pub closed spec fn well_formed(self) -> bool {
        &&& self.cipher_metadata.letter_frequency_order@.len() == 26
        &&& self.plain@.len() <= u32::MAX
        &&& forall|i: int| 0 <= i < 3 ==> #[trigger] self.three_permutations[0][i] < 3
        &&& forall|i: int| 0 <= i < 3 ==> #[trigger] self.five_choose_three_combinations[0][i] < 5
    }

    /// Whether the scan can run without reading past the cipher text: the
    /// cipher character at every occurrence of the target letter exists.
    pub open spec fn can_scan(self) -> bool {
        &&& cipher_covers(self.plain_chars(), self.cipher_chars(), self.target())
        &&& byte_len(self.plain_chars()) <= usize::MAX
    }

    /// Builds the breaker for a cipher text and the plain text it encrypts.
    /// Every plain character, upper-cased, must be counted as a letter.
    pub fn new(cipher: &str, plain: &str) -> (breaker: Self)
        requires
            all_counted(upper_seq(plain@)),
            plain@.len() <= u32::MAX,
        ensures
            breaker.well_formed(),
            breaker.cipher_chars() == cipher@,
            breaker.plain_chars() == upper_seq(plain@),
            describes_frequency_order(breaker.frequency_order(), upper_seq(plain@)),
            frequency_sorted(breaker.frequency_order()),
            breaker.rotor_choice() == (1usize, 0usize, 2usize, ReflectorName::B),
    {
        let cipher_metadata = Self::build_cipher_metadata(plain);
        let breaker = EnigmaBreaker {
            five_choose_three_combinations: [[0, 1, 2]],
            three_permutations: [[1, 0, 2]],
            available_reflectors: [ReflectorName::B],
            cipher: chars_of(cipher),
            plain: upper_chars_of(plain),
            cipher_metadata,
        };
        assert(breaker.three_permutations[0][0] == 1);
        assert(breaker.five_choose_three_combinations[0][1] == 1);
        breaker
    }

    /// The letter frequencies of `plain`, upper-cased: all 26 letters with
    /// their counts, most frequent first, letters of equal count in
    /// alphabetical order. Every plain character, upper-cased, must be
    /// counted as a letter.
    pub fn build_cipher_metadata(plain: &str) -> (metadata: CipherMetadata)
        requires
            all_counted(upper_seq(plain@)),
            plain@.len() <= u32::MAX,
        ensures
            describes_frequency_order(metadata.letter_frequency_order@, upper_seq(plain@)),
            frequency_sorted(metadata.letter_frequency_order@),
    {
        let chars = upper_chars_of(plain);
        let ghost s = upper_seq(plain@);
        let counts = count_letters(&chars);
        let mut order: Vec<(char, u32)> = Vec::new();
        let mut k: usize = 0;
        while k < 26
            invariant
                k <= 26,
                order@.len() == k,
            decreases 26 - k,
        {
            order.push(('A', 0));
            k += 1;
        }
        let mut u: usize = 0;
        while u < 26
            invariant
                u <= 26,
                order@.len() == 26,
                chars@ == s,
                forall|slot: int| 0 <= slot < 26 ==> counts[slot] == letter_count(s, slot),
                forall|a: int| 0 <= a < u ==> #[trigger] placed(order@, s, a),
            decreases 26 - u,
        {
            let rank = rank_of(&counts, u, Ghost(s));
            proof {
                lemma_rank_below_bound(s, u as int, 26);
                assert forall|a: int| 0 <= a < u implies frequency_rank(s, a) != rank by {
                    lemma_frequency_rank_order(s, a, u as int);
                }
            }
            let ghost prev = order@;
            order.set(rank, (alphabet_letter_exec(u), counts[u] as u32));
            assert(order@ == prev.update(rank as int, (alphabet_letter(u as nat), counts[u as int] as u32)));
            assert forall|a: int| 0 <= a < u + 1 implies #[trigger] placed(order@, s, a) by {
                if a == u {
                    assert(letter_count(s, a) == counts[a]);
                    assert((letter_count(s, a) as u32) == counts[a] as u32);
                    assert(order@[rank as int] == (alphabet_letter(a as nat), counts[a] as u32));
                } else {
                    lemma_frequency_rank_order(s, a, u as int);
                    assert(placed(prev, s, a));
                }
            }
            u += 1;
        }
        proof {
            lemma_placed_sorted(order@, s);
        }
        CipherMetadata { letter_frequency_order: order }
    }

    /// The plain letter whose plugboard partner is tested.
    pub fn target_letter(&self) -> (target: char)
        requires
            self.well_formed(),
        ensures
            target == self.target(),
    {
        self.cipher_metadata.letter_frequency_order[0].0
    }

    /// Checks that the scan can run: the cipher text has a character at the
    /// place of every occurrence of the target letter in the plain text (the
    /// place counted in bytes of the plain text), and the plain text's length
    /// in bytes fits in `usize`.
    pub fn scan_ready(&self) -> (ready: bool)
        requires
            self.well_formed(),
        ensures
            ready == self.can_scan(),
    {
        let target = self.target_letter();
        let ghost p = self.plain@;
        let mut offset: usize = 0;
        let mut i: usize = 0;
        while i < self.plain.len()
            invariant
                i <= p.len(),
                p == self.plain@,
                target == self.target(),
                offset == byte_offset(p, i as int),
                forall|j: int| 0 <= j < i && p[j] == target ==> byte_offset(p, j) < self.cipher@.len(),
            decreases p.len() - i,
        {
            let c = self.plain[i];
            if c == target && offset >= self.cipher.len() {
                return false;
            }
            match offset.checked_add(utf8_len_exec(c)) {
                Some(next) => {
                    offset = next;
                },
                None => {
                    proof {
                        lemma_byte_offset_monotone(p, i + 1, p.len() as int);
                    }
                    return false;
                },
            }
            i += 1;
        }
        true
    }

    /// Starts the scan. The scan must be able to run (`scan_ready`).
    pub fn start_search(&self) -> (r: (BreakerSearch, BreakerStep))
        requires
            self.well_formed(),
            self.can_scan(),
        ensures
            ({
                let (left, middle, right, reflector) = self.rotor_choice();
                (r.0, r.1@) == break_started(
                    self.plain_chars(),
                    self.cipher_chars(),
                    self.target(),
                    left,
                    middle,
                    right,
                    reflector,
                )
            }),
            r.0.awaiting(self.plain_chars(), self.cipher_chars()),
    {
        let combination = self.five_choose_three_combinations[0];
        let permutation = self.three_permutations[0];
        let left = combination[permutation[0]];
        let middle = combination[permutation[1]];
        let right = combination[permutation[2]];
        let reflector = self.available_reflectors[0];
        let target = self.target_letter();
        proof {
            crate::breaker::search::lemma_break_started_awaiting(
                self.plain@,
                self.cipher@,
                target,
                left,
                middle,
                right,
                reflector,
            );
        }
        BreakerSearch::start(&self.plain, &self.cipher, target, left, middle, right, reflector)
    }

    /// Takes the machine's report on the scan's pending query and decides the next step.
    pub fn observe(&self, search: &mut BreakerSearch, event: Event) -> (step: BreakerStep)
        requires
            old(search).awaiting(self.plain_chars(), self.cipher_chars()),
        ensures
            (*final(search), step@) == break_observed(
                *old(search),
                self.plain_chars(),
                self.cipher_chars(),
                event,
            ),
    {
        search.observe(&self.plain, &self.cipher, event)
    }

    /// The plain text that the break recovers. The scan (`start_search`,
    /// `observe`) reports what it finds only through its steps, so the
    /// recovered text is empty.
    pub fn known_plain_text_cipher_break(&self, _cipher: &str, _plain: &str) -> (text: String)
        ensures
            text@ == Seq::<char>::empty(),
    {
        String::new()
    }

    /// The operations that put a machine at `rotor_config`'s positions and
    /// replace its plugboard by `transpositions` (no connection when `None`).
    pub fn set_enigma_state_by_transpositions_and_rotor_config(
        rotor_config: &EnigmaRotorConfiguration,
        transpositions: Option<&Vec<(char, char)>>,
    ) -> (ops: Vec<MachineOp>)
        ensures
            ({
                let pairs = match transpositions {
                    Some(pairs) => pairs@,
                    None => Seq::<(char, char)>::empty(),
                };
                &&& ops@.len() == 2 + pairs.len()
                &&& ops@[0] == MachineOp::SetRotorPositions {
                    left: rotor_config.left_rotor_position as usize,
                    middle: rotor_config.middle_rotor_position as usize,
                    right: rotor_config.right_rotor_position as usize,
                }
                &&& ops@[1] == MachineOp::ClearTranspositions
                &&& forall|j: int|
                    0 <= j < pairs.len() ==> ops@[2 + j] == (MachineOp::SetTransposition {
                        first: (#[trigger] pairs[j]).0,
                        second: pairs[j].1,
                    })
            }),
    {
        let mut ops: Vec<MachineOp> = Vec::new();
        ops.push(
            MachineOp::SetRotorPositions {
                left: rotor_config.left_rotor_position as usize,
                middle: rotor_config.middle_rotor_position as usize,
                right: rotor_config.right_rotor_position as usize,
            },
        );
        ops.push(MachineOp::ClearTranspositions);
        if let Some(pairs) = transpositions {
            push_transpositions(&mut ops, pairs);
        }
        ops
    }

    /// How many characters of `plain_candidate` equal the upper case of the
    /// plain character at the same place, over the shorter of the two.
    pub fn count_aligned_letters(plain_candidate: &Vec<char>, plain: &str) -> (count: usize)
        ensures
            count == aligned_letter_count(
                plain_candidate@,
                plain@,
                if plain_candidate@.len() <= plain@.len() {
                    plain_candidate@.len() as int
                } else {
                    plain@.len() as int
                },
            ),
    {
        let plain_chars = chars_of(plain);
        let n = if plain_candidate.len() <= plain_chars.len() {
            plain_candidate.len()
        } else {
            plain_chars.len()
        };
        let mut count: usize = 0;
        let mut i: usize = 0;
        while i < n
            invariant
                i <= n,
                n <= plain_candidate@.len(),
                n <= plain_chars@.len(),
                plain_chars@ == plain@,
                count == aligned_letter_count(plain_candidate@, plain@, i as int),
                count <= i,
            decreases n - i,
        {
            if plain_candidate[i] == crate::text::ascii_upper(plain_chars[i]) {
                count += 1;
            }
            i += 1;
        }
        count
    }
}

} // verus!
