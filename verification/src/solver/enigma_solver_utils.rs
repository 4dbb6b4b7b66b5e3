use vstd::prelude::*;

use itertools::Itertools;

use crate::solver::{CipherMetadata, ALPHABET_SIZE};
use crate::solver::enigma_settings::EnigmaRotorConfiguration;
use crate::solver::machine::{Event, MachineOp, Query, Step, StepSpec};
use crate::text::{ascii_upper, chars_of, upper_seq};

verus! {

/// The positions `i < n` at which `plain[i] == letter`, each paired with
/// `cipher[i]`, in increasing order of position.
pub open spec fn occurrences(plain: Seq<char>, cipher: Seq<char>, letter: char, n: nat) -> Seq<
    (usize, char),
>
    decreases n,
{
    if n == 0 {
        seq![]
    } else {
        let below = occurrences(plain, cipher, letter, (n - 1) as nat);
        if plain[n - 1] == letter {
            below.push(((n - 1) as usize, cipher[n - 1]))
        } else {
            below
        }
    }
}

/// Number of letter pairs that a plain text and a cipher text line up.
pub open spec fn aligned_len(plain: Seq<char>, cipher: Seq<char>) -> nat {
    if plain.len() <= cipher.len() {
        plain.len()
    } else {
        cipher.len()
    }
}

/// What `build_cipher_metadata` promises of the groups it returns, for the
/// upper-cased plain text `plain` aligned with `cipher` over `n` positions:
/// each group lists exactly the occurrences of its letter, no letter has two
/// groups, every letter of the plain text has a group, and groups come in
/// non-increasing order of size.
pub open spec fn describes_letter_positions(
    groups: Seq<(char, Vec<(usize, char)>)>,
    plain: Seq<char>,
    cipher: Seq<char>,
    n: nat,
) -> bool {
    &&& groups_of_letters(groups, plain, cipher, n)
    &&& forall|i: int, j: int| 0 <= i < j < groups.len() ==> groups[i].1@.len() >= groups[j].1@.len()
}

/// Whether every letter group lists its positions in strictly increasing order.
pub open spec fn metadata_well_formed(metadata: CipherMetadata) -> bool {
    forall|i: int|
        0 <= i < metadata.letter_positions@.len() ==> positions_increasing(
            (#[trigger] metadata.letter_positions@[i]).1@,
        )
}

/// The occurrences of a letter are strictly increasing positions below `n`,
/// each holding that letter in the plain text and paired with the cipher
/// letter at the same position.
pub proof fn lemma_occurrences(plain: Seq<char>, cipher: Seq<char>, letter: char, n: nat)
    requires
        n <= plain.len(),
        n <= cipher.len(),
        n <= usize::MAX,
    ensures
        forall|i: int|
            0 <= i < occurrences(plain, cipher, letter, n).len() ==> {
                let (pos, c) = #[trigger] occurrences(plain, cipher, letter, n)[i];
                &&& pos < n
                &&& plain[pos as int] == letter
                &&& c == cipher[pos as int]
            },
        forall|i: int, j: int|
            0 <= i < j < occurrences(plain, cipher, letter, n).len() ==> occurrences(
                plain,
                cipher,
                letter,
                n,
            )[i].0 < occurrences(plain, cipher, letter, n)[j].0,
        (exists|k: int| 0 <= k < n && plain[k] == letter) <==> occurrences(
            plain,
            cipher,
            letter,
            n,
        ).len() > 0,
    decreases n,
{
    if n > 0 {
        lemma_occurrences(plain, cipher, letter, (n - 1) as nat);
        let prev = occurrences(plain, cipher, letter, (n - 1) as nat);
        let cur = occurrences(plain, cipher, letter, n);
        if plain[n - 1] == letter {
            assert(cur == prev.push(((n - 1) as usize, cipher[n - 1])));
            assert forall|i: int| 0 <= i < prev.len() implies cur[i] == prev[i] by {}
            assert(cur[prev.len() as int] == ((n - 1) as usize, cipher[n - 1]));
        }
        if exists|k: int| 0 <= k < n && plain[k] == letter {
            if plain[n - 1] != letter {
                let k = choose|k: int| 0 <= k < n && plain[k] == letter;
                assert(0 <= k < n - 1);
            }
        }
    }
}

/// The groups of `groups` as (letter, positions) pairs, order forgotten.
pub open spec fn group_views(groups: Seq<(char, Vec<(usize, char)>)>) -> Set<(char, Seq<(usize, char)>)> {
    Set::new(
        |g: (char, Seq<(usize, char)>)|
            exists|i: int| 0 <= i < groups.len() && #[trigger] groups[i].0 == g.0 && groups[i].1@ == g.1,
    )
}

proof fn lemma_group_views_subset(
    a: Seq<(char, Vec<(usize, char)>)>,
    b: Seq<(char, Vec<(usize, char)>)>,
    plain: Seq<char>,
    cipher: Seq<char>,
)
    requires
        groups_of_letters(a, plain, cipher, aligned_len(plain, cipher)),
        groups_of_letters(b, plain, cipher, aligned_len(plain, cipher)),
        aligned_len(plain, cipher) <= usize::MAX,
    ensures
        group_views(a).subset_of(group_views(b)),
{
    let n = aligned_len(plain, cipher);
    assert forall|g: (char, Seq<(usize, char)>)| group_views(a).contains(g) implies group_views(
        b,
    ).contains(g) by {
        let i = choose|i: int| 0 <= i < a.len() && #[trigger] a[i].0 == g.0 && a[i].1@ == g.1;
        let letter = a[i].0;
        assert(a[i].1@ == occurrences(plain, cipher, letter, n) && a[i].1@.len() > 0);
        lemma_occurrences(plain, cipher, letter, n);
        let k = choose|k: int| 0 <= k < n && plain[k] == letter;
        assert(letter_has_group(b, plain[k]));
        let j = choose|j: int| 0 <= j < b.len() && #[trigger] b[j].0 == plain[k];
        assert(b[j].1@ == occurrences(plain, cipher, b[j].0, n));
        assert(b[j].0 == g.0 && b[j].1@ == g.1);
    }
}

/// The groups of letter positions that describe a plain and a cipher text
/// are unique up to their order: two descriptions of the same texts (such
/// as the results of two calls of `build_cipher_metadata`) hold the same
/// (letter, positions) pairs, and differ at most in the order of groups of
/// equal size.
pub proof fn lemma_letter_positions_unique(
    a: Seq<(char, Vec<(usize, char)>)>,
    b: Seq<(char, Vec<(usize, char)>)>,
    plain: Seq<char>,
    cipher: Seq<char>,
)
    requires
        describes_letter_positions(a, plain, cipher, aligned_len(plain, cipher)),
        describes_letter_positions(b, plain, cipher, aligned_len(plain, cipher)),
        aligned_len(plain, cipher) <= usize::MAX,
    ensures
        group_views(a) == group_views(b),
{
    lemma_group_views_subset(a, b, plain, cipher);
    lemma_group_views_subset(b, a, plain, cipher);
    assert(group_views(a) =~= group_views(b));
}

/// The index of the group of `letter`, if there is one.
fn find_group(groups: &Vec<(char, Vec<(usize, char)>)>, letter: char) -> (index: Option<usize>)
    ensures
        index matches Some(j) ==> j < groups@.len() && groups@[j as int].0 == letter,
        index is None ==> forall|g: int| 0 <= g < groups@.len() ==> groups@[g].0 != letter,
{
    let mut j: usize = 0;
    while j < groups.len()
        invariant
            j <= groups@.len(),
            forall|g: int| 0 <= g < j ==> groups@[g].0 != letter,
        decreases groups@.len() - j,
    {
        if groups[j].0 == letter {
            return Some(j);
        }
        j += 1;
    }
    None
}

/// The order-free part of `describes_letter_positions`.
pub open spec fn groups_of_letters(
    groups: Seq<(char, Vec<(usize, char)>)>,
    plain: Seq<char>,
    cipher: Seq<char>,
    n: nat,
) -> bool {
    &&& forall|i: int|
        0 <= i < groups.len() ==> (#[trigger] groups[i]).1@ == occurrences(
            plain,
            cipher,
            groups[i].0,
            n,
        ) && groups[i].1@.len() > 0
    &&& forall|i: int, j: int| 0 <= i < j < groups.len() ==> groups[i].0 != groups[j].0
    &&& forall|k: int| 0 <= k < n ==> #[trigger] letter_has_group(groups, plain[k])
}

/// Whether some group belongs to `letter`.
pub open spec fn letter_has_group(groups: Seq<(char, Vec<(usize, char)>)>, letter: char) -> bool {
    exists|i: int| 0 <= i < groups.len() && #[trigger] groups[i].0 == letter
}

/// Reordering the groups keeps them a grouping of the letters.
proof fn lemma_reordered_groups(
    a: Seq<(char, Vec<(usize, char)>)>,
    b: Seq<(char, Vec<(usize, char)>)>,
    plain: Seq<char>,
    cipher: Seq<char>,
    n: nat,
)
    requires
        groups_of_letters(a, plain, cipher, n),
        a.to_multiset() == b.to_multiset(),
        n <= plain.len(),
    ensures
        groups_of_letters(b, plain, cipher, n),
{
    broadcast use vstd::seq_lib::to_multiset_contains;

    assert forall|i: int| #![trigger b[i]] 0 <= i < b.len() implies exists|j: int| 0 <= j < a.len() && #[trigger] a[j] == b[i] by {
        assert(b.contains(b[i]));
        assert(b.to_multiset().count(b[i]) > 0);
        assert(a.to_multiset().count(b[i]) > 0);
        assert(a.contains(b[i]));
    }
    assert forall|i: int|
        0 <= i < b.len() implies (#[trigger] b[i]).1@ == occurrences(plain, cipher, b[i].0, n)
        && b[i].1@.len() > 0 by {
        let j = choose|j: int| 0 <= j < a.len() && a[j] == b[i];
        assert(a[j] == b[i]);
    }
    assert(a.no_duplicates()) by {
        assert forall|i: int, j: int| 0 <= i < a.len() && 0 <= j < a.len() && i != j implies a[i]
            != a[j] by {
            if i < j {
                assert(a[i].0 != a[j].0);
            } else {
                assert(a[j].0 != a[i].0);
            }
        }
    }
    a.lemma_multiset_has_no_duplicates();
    b.lemma_multiset_has_no_duplicates_conv();
    assert forall|i: int, j: int| 0 <= i < j < b.len() implies b[i].0 != b[j].0 by {
        if b[i].0 == b[j].0 {
            let i2 = choose|i2: int| 0 <= i2 < a.len() && a[i2] == b[i];
            let j2 = choose|j2: int| 0 <= j2 < a.len() && a[j2] == b[j];
            if i2 < j2 {
                assert(a[i2].0 != a[j2].0);
            } else if j2 < i2 {
                assert(a[j2].0 != a[i2].0);
            }
            assert(b[i] == b[j]);
        }
    }
    assert forall|k: int| 0 <= k < n implies #[trigger] letter_has_group(b, plain[k]) by {
        assert(letter_has_group(a, plain[k]));
        let g = choose|g: int| 0 <= g < a.len() && #[trigger] a[g].0 == plain[k];
        assert(a.contains(a[g]));
        assert(a.to_multiset().count(a[g]) > 0);
        assert(b.contains(a[g]));
        let h = choose|h: int| 0 <= h < b.len() && b[h] == a[g];
        assert(b[h].0 == plain[k]);
    }
}

/// A group index for `letter` in `groups`, if there is one.
spec fn find_group_witness(groups: Seq<(char, Vec<(usize, char)>)>, letter: char) -> Option<int> {
    if exists|g: int| 0 <= g < groups.len() && groups[g].0 == letter {
        Some(choose|g: int| 0 <= g < groups.len() && groups[g].0 == letter)
    } else {
        None
    }
}

/// The sort key that orders groups by decreasing size.
pub fn count_order_key(group: &(char, Vec<(usize, char)>)) -> (key: usize)
    ensures
        key == usize::MAX - group.1@.len(),
{
    usize::MAX - group.1.len()
}

/// Sorts letter groups so that larger groups come first.
/// Trusted: calls `Itertools::sorted_by_key`, which collects the items and
/// sorts them with `slice::sort_by_key` in ascending order of the key; with
/// the key `usize::MAX - size` the result holds the same groups ordered by
/// non-increasing size. That the sort is stable is not stated.
#[verifier::external_body]
fn sort_groups_by_size(groups: Vec<(char, Vec<(usize, char)>)>) -> (sorted: Vec<
    (char, Vec<(usize, char)>),
>)
    ensures
        sorted@.to_multiset() == groups@.to_multiset(),
        forall|i: int, j: int| 0 <= i < j < sorted@.len() ==> sorted@[i].1@.len() >= sorted@[j].1@.len(),
{
    groups.into_iter().sorted_by_key(count_order_key).collect()
}

/// Groups the positions of the plain text by (upper-cased) letter, pairing
/// each position with the cipher letter there, and orders the groups by
/// decreasing size. Only the positions that both texts have are used.
pub fn build_cipher_metadata(plain: &str, cipher: &str) -> (metadata: CipherMetadata)
    ensures
        describes_letter_positions(
            metadata.letter_positions@,
            upper_seq(plain@),
            cipher@,
            aligned_len(plain@, cipher@),
        ),
        metadata_well_formed(metadata),
{
    let plain_chars = chars_of(plain);
    let cipher_chars = chars_of(cipher);
    let n = if plain_chars.len() <= cipher_chars.len() {
        plain_chars.len()
    } else {
        cipher_chars.len()
    };
    let ghost p = upper_seq(plain@);
    let ghost c = cipher@;
    let mut groups: Vec<(char, Vec<(usize, char)>)> = Vec::new();
    let ghost mut group_of: Seq<int> = Seq::empty();
    let mut i: usize = 0;
    while i < n
        invariant
            i <= n,
            n == aligned_len(plain@, cipher@),
            plain_chars@ == plain@,
            cipher_chars@ == cipher@,
            p == upper_seq(plain@),
            c == cipher@,
            forall|g: int|
                0 <= g < groups@.len() ==> (#[trigger] groups@[g]).1@ == occurrences(
                    p,
                    c,
                    groups@[g].0,
                    i as nat,
                ) && groups@[g].1@.len() > 0,
            forall|g: int, h: int| 0 <= g < h < groups@.len() ==> groups@[g].0 != groups@[h].0,
            group_of.len() == i,
            forall|k: int|
                0 <= k < i ==> 0 <= #[trigger] group_of[k] < groups@.len() && groups@[group_of[k]].0
                    == p[k],
        decreases n - i,
    {
        let letter = ascii_upper(plain_chars[i]);
        let cipher_letter = cipher_chars[i];
        assert(letter == p[i as int]);
        let ghost old_groups = groups@;
        assert(cipher_letter == c[i as int]);
        match find_group(&groups, letter) {
            Some(j) => {
                groups[j].1.push((i, cipher_letter));
                assert(groups@[j as int].1@ == old_groups[j as int].1@.push((i, cipher_letter)));
                assert forall|g: int| 0 <= g < groups@.len() && g != j implies groups@[g]
                    == old_groups[g] by {}
            },
            None => {
                let mut positions: Vec<(usize, char)> = Vec::new();
                positions.push((i, cipher_letter));
                groups.push((letter, positions));
                proof {
                    lemma_occurrences(p, c, letter, i as nat);
                    if exists|k: int| 0 <= k < i && p[k] == letter {
                        let k = choose|k: int| 0 <= k < i && p[k] == letter;
                        assert(old_groups[group_of[k]].0 == letter);
                    }
                    assert(occurrences(p, c, letter, i as nat).len() == 0);
                }
                assert(groups@[old_groups.len() as int].1@ =~= occurrences(p, c, letter, (i + 1) as nat));
            },
        }
        assert forall|g: int|
            0 <= g < groups@.len() implies (#[trigger] groups@[g]).1@ == occurrences(
            p,
            c,
            groups@[g].0,
            (i + 1) as nat,
        ) && groups@[g].1@.len() > 0 by {
            if g < old_groups.len() {
                assert(occurrences(p, c, groups@[g].0, (i + 1) as nat) == (if p[i as int]
                    == groups@[g].0 {
                    occurrences(p, c, groups@[g].0, i as nat).push((i, c[i as int]))
                } else {
                    occurrences(p, c, groups@[g].0, i as nat)
                }));
            }
        }
        proof {
            let g = match find_group_witness(old_groups, letter) {
                Some(j) => j,
                None => old_groups.len() as int,
            };
            assert(0 <= g < groups@.len() && groups@[g].0 == letter);
            assert forall|k: int| 0 <= k < i implies groups@[group_of[k]].0 == old_groups[group_of[k]].0 by {}
            group_of = group_of.push(g);
        }
        i += 1;
    }
    assert forall|k: int| 0 <= k < n implies #[trigger] letter_has_group(groups@, p[k]) by {
        assert(groups@[group_of[k]].0 == p[k]);
    }
    let sorted = sort_groups_by_size(groups);
    proof {
        lemma_reordered_groups(groups@, sorted@, p, c, n as nat);
        assert forall|g: int| 0 <= g < sorted@.len() implies positions_increasing(
            (#[trigger] sorted@[g]).1@,
        ) by {
            lemma_occurrences(p, c, sorted@[g].0, n as nat);
        }
    }
    CipherMetadata { letter_positions: sorted }
}


/// Why a letter pair cannot join the plugboard.
#[derive(Clone, Copy, Debug, PartialEq, Eq, Structural)]
pub enum TranspositionError {
    /// One of the two letters already has a plugboard connection.
    LetterExists,
}

/// The plugboard decision for one known letter pair: when the machine turned
/// the plain letter into `output` but the cipher text holds `cipher_letter`,
/// the two must be connected on the plugboard, which is impossible when
/// either already has a connection.
pub open spec fn pair_decision(
    output: char,
    output_plugged: bool,
    cipher_letter: char,
    cipher_plugged: bool,
) -> Result<Option<(char, char)>, TranspositionError> {
    if output == cipher_letter {
        Ok(None)
    } else if output_plugged || cipher_plugged {
        Err(TranspositionError::LetterExists)
    } else {
        Ok(Some((output, cipher_letter)))
    }
}

/// Decides what one known letter pair requires of the plugboard: nothing
/// when the machine already produced the cipher letter, a new connection
/// between the output and the cipher letter when both are free, and
/// `LetterExists` when one of them is taken.
pub fn transpose_new_letter(
    output: char,
    output_plugged: bool,
    cipher_letter: char,
    cipher_plugged: bool,
) -> (decision: Result<Option<(char, char)>, TranspositionError>)
    ensures
        decision == pair_decision(output, output_plugged, cipher_letter, cipher_plugged),
{
    if output != cipher_letter {
        if output_plugged || cipher_plugged {
            return Err(TranspositionError::LetterExists);
        }
        return Ok(Some((output, cipher_letter)));
    }
    Ok(None)
}

/// The `i`-th letter of the alphabet (`A` for zero).
pub open spec fn alphabet_letter(i: nat) -> char {
    (65 + i) as char
}

pub(crate) fn alphabet_letter_exec(i: usize) -> (letter: char)
    requires
        i < ALPHABET_SIZE,
    ensures
        letter == alphabet_letter(i as nat),
{
    ((65 + i) as u8) as char
}

/// Whether the positions of the letter pairs strictly increase.
pub open spec fn positions_increasing(entries: Seq<(usize, char)>) -> bool {
    forall|i: int, j: int| 0 <= i < j < entries.len() ==> entries[i].0 < entries[j].0
}

/// The query for the first letter pair of a candidate.
pub open spec fn first_query(target: char, entries: Seq<(usize, char)>) -> Query {
    if entries.len() == 0 {
        Query::Found
    } else {
        Query::Encrypt { advance: entries[0].0, letter: target, cipher_letter: entries[0].1 }
    }
}

/// The operations that set up candidate `candidate`: rotors back to the
/// configuration's positions, and the target letter connected to the
/// candidate letter.
pub open spec fn candidate_setup(
    config: EnigmaRotorConfiguration,
    target: char,
    candidate: nat,
) -> Seq<MachineOp> {
    seq![
        MachineOp::SetRotorPositions {
            left: config.left_rotor_position,
            middle: config.middle_rotor_position,
            right: config.right_rotor_position,
        },
        MachineOp::SetTransposition { first: target, second: alphabet_letter(candidate) },
    ]
}

/// The search for a plugboard that explains the known letter pairs of one
/// plain letter (the target) under one rotor configuration. Every candidate
/// partner of the target, `A` to `Z`, is tried in turn; for each, the pairs
/// are checked in order of position, connecting letters on the plugboard as
/// they require, until a conflict rules the candidate out.
#[derive(Clone, Copy, Debug, PartialEq, Eq, Structural)]
pub struct TranspositionSearch {
    pub target: char,
    pub config: EnigmaRotorConfiguration,
    pub candidate: usize,
    pub entry: usize,
    pub finished: bool,
}

/// The search state and first step for a configuration.
pub open spec fn search_started(
    target: char,
    config: EnigmaRotorConfiguration,
    entries: Seq<(usize, char)>,
) -> (TranspositionSearch, StepSpec) {
    (
        TranspositionSearch { target, config, candidate: 0, entry: 0, finished: entries.len() == 0 },
        StepSpec {
            ops: candidate_setup(config, target, 0),
            query: first_query(target, entries),
            starts_configuration: true,
        },
    )
}

/// The operations that make a plugboard connection, if there is one to make.
pub open spec fn plug_ops(plug: Option<(char, char)>) -> Seq<MachineOp> {
    match plug {
        Some(pair) => seq![MachineOp::SetTransposition { first: pair.0, second: pair.1 }],
        None => seq![],
    }
}

/// A connection to make gives exactly one operation, which makes it.
pub proof fn lemma_plug_ops_connect(first: char, second: char)
    ensures
        plug_ops(Some((first, second))).len() == 1,
        plug_ops(Some((first, second)))[0] == (MachineOp::SetTransposition { first, second }),
{
    assert(plug_ops(Some((first, second))) =~= seq![MachineOp::SetTransposition { first, second }]);
}

/// The search state and step that follow the report `event` on the pending
/// letter pair.
pub open spec fn search_observed(
    s: TranspositionSearch,
    entries: Seq<(usize, char)>,
    event: Event,
) -> (TranspositionSearch, StepSpec) {
    let (position, cipher_letter) = entries[s.entry as int];
    let decision = match event {
        Event::Encrypted { output, output_plugged, cipher_plugged } => pair_decision(
            output,
            output_plugged,
            cipher_letter,
            cipher_plugged,
        ),
        Event::Stopped => Err(TranspositionError::LetterExists),
    };
    match decision {
        Ok(plug) => {
            let ops = plug_ops(plug);
            let next = s.entry + 1;
            if next < entries.len() {
                (
                    TranspositionSearch { entry: next as usize, ..s },
                    StepSpec {
                        ops,
                        query: Query::Encrypt {
                            advance: (entries[next].0 - position - 1) as usize,
                            letter: s.target,
                            cipher_letter: entries[next].1,
                        },
                        starts_configuration: false,
                    },
                )
            } else {
                (
                    TranspositionSearch { entry: next as usize, finished: true, ..s },
                    StepSpec { ops, query: Query::Found, starts_configuration: false },
                )
            }
        },
        Err(_) => {
            let next_candidate = s.candidate + 1;
            if next_candidate < ALPHABET_SIZE {
                (
                    TranspositionSearch { candidate: next_candidate as usize, entry: 0, ..s },
                    StepSpec {
                        ops: seq![MachineOp::ClearTranspositions] + candidate_setup(
                            s.config,
                            s.target,
                            next_candidate as nat,
                        ),
                        query: first_query(s.target, entries),
                        starts_configuration: false,
                    },
                )
            } else {
                (
                    TranspositionSearch {
                        candidate: next_candidate as usize,
                        entry: 0,
                        finished: true,
                        ..s
                    },
                    StepSpec {
                        ops: seq![MachineOp::ClearTranspositions],
                        query: Query::Exhausted,
                        starts_configuration: false,
                    },
                )
            }
        },
    }
}

impl TranspositionSearch {
    /// The search is waiting for the report on a letter pair.
    pub open spec fn awaiting(self, entries: Seq<(usize, char)>) -> bool {
        &&& positions_increasing(entries)
        &&& entries.len() <= usize::MAX
        &&& !self.finished
        &&& self.candidate < ALPHABET_SIZE
        &&& self.entry < entries.len()
    }

    /// Starts the search for `config`, trying `A` as the first partner of `target`.
    pub fn start(target: char, config: EnigmaRotorConfiguration, entries: &Vec<(usize, char)>) -> (r: (
        TranspositionSearch,
        Step,
    ))
        ensures
            (r.0, r.1@) == search_started(target, config, entries@),
    {
        let mut ops: Vec<MachineOp> = Vec::new();
        ops.push(
            MachineOp::SetRotorPositions {
                left: config.left_rotor_position,
                middle: config.middle_rotor_position,
                right: config.right_rotor_position,
            },
        );
        ops.push(MachineOp::SetTransposition { first: target, second: alphabet_letter_exec(0) });
        let query = if entries.len() == 0 {
            Query::Found
        } else {
            Query::Encrypt { advance: entries[0].0, letter: target, cipher_letter: entries[0].1 }
        };
        let search = TranspositionSearch {
            target,
            config,
            candidate: 0,
            entry: 0,
            finished: entries.len() == 0,
        };
        assert(ops@ =~= candidate_setup(config, target, 0));
        (search, Step { ops, query, starts_configuration: true })
    }

    /// Takes the machine's report on the pending letter pair and decides the next step.
    pub fn observe(&mut self, entries: &Vec<(usize, char)>, event: Event) -> (step: Step)
        requires
            old(self).awaiting(entries@),
        ensures
            (*final(self), step@) == search_observed(*old(self), entries@, event),
    {
        let (position, cipher_letter) = entries[self.entry];
        assert(self.entry < entries.len());
        let decision = match event {
            Event::Encrypted { output, output_plugged, cipher_plugged } => transpose_new_letter(
                output,
                output_plugged,
                cipher_letter,
                cipher_plugged,
            ),
            Event::Stopped => Err(TranspositionError::LetterExists),
        };
        let mut ops: Vec<MachineOp> = Vec::new();
        match decision {
            Ok(plug) => {
                if let Some((first, second)) = plug {
                    ops.push(MachineOp::SetTransposition { first, second });
                }
                self.entry = self.entry + 1;
                if self.entry < entries.len() {
                    let (next_position, next_cipher_letter) = entries[self.entry];
                    Step {
                        ops,
                        query: Query::Encrypt {
                            advance: next_position - position - 1,
                            letter: self.target,
                            cipher_letter: next_cipher_letter,
                        },
                        starts_configuration: false,
                    }
                } else {
                    self.finished = true;
                    Step { ops, query: Query::Found, starts_configuration: false }
                }
            },
            Err(_) => {
                ops.push(MachineOp::ClearTranspositions);
                self.candidate = self.candidate + 1;
                self.entry = 0;
                if self.candidate < ALPHABET_SIZE {
                    ops.push(
                        MachineOp::SetRotorPositions {
                            left: self.config.left_rotor_position,
                            middle: self.config.middle_rotor_position,
                            right: self.config.right_rotor_position,
                        },
                    );
                    ops.push(
                        MachineOp::SetTransposition {
                            first: self.target,
                            second: alphabet_letter_exec(self.candidate),
                        },
                    );
                    assert(ops@ =~= seq![MachineOp::ClearTranspositions] + candidate_setup(
                        self.config,
                        self.target,
                        self.candidate as nat,
                    ));
                    Step {
                        ops,
                        query: Query::Encrypt {
                            advance: entries[0].0,
                            letter: self.target,
                            cipher_letter: entries[0].1,
                        },
                        starts_configuration: false,
                    }
                } else {
                    self.finished = true;
                    Step { ops, query: Query::Exhausted, starts_configuration: false }
                }
            },
        }
    }
}


/// Starts the plugboard search for `config` on the most frequent plain
/// letter of `metadata` and its known positions.
pub fn build_transpositions(config: EnigmaRotorConfiguration, metadata: &CipherMetadata) -> (r: (
    TranspositionSearch,
    Step,
))
    requires
        metadata.letter_positions@.len() > 0,
    ensures
        (r.0, r.1@) == search_started(
            metadata.letter_positions@[0].0,
            config,
            metadata.letter_positions@[0].1@,
        ),
{
    TranspositionSearch::start(metadata.letter_positions[0].0, config, &metadata.letter_positions[0].1)
}

/// A started search on at least one letter pair asks for an encryption and
/// is then ready for the report.
pub proof fn lemma_search_started_awaiting(
    target: char,
    config: EnigmaRotorConfiguration,
    entries: Seq<(usize, char)>,
)
    requires
        positions_increasing(entries),
        entries.len() > 0,
        entries.len() <= usize::MAX,
    ensures
        search_started(target, config, entries).1.query is Encrypt,
        search_started(target, config, entries).0.awaiting(entries),
        search_started(target, config, entries).0.config == config,
        search_started(target, config, entries).0.target == target,
{
}

/// Every step of the search either asks for another encryption, and the
/// search is then ready for the report, or ends it; it ends with `Found` only
/// once the candidate under test has passed every letter pair, and with
/// `Exhausted` only after the last candidate. Each step moves on by exactly
/// one letter pair of the same candidate, or to the first pair of the next
/// candidate, so no candidate is skipped. The configuration and the target
/// letter never change.
pub proof fn lemma_search_observed_awaiting(
    s: TranspositionSearch,
    entries: Seq<(usize, char)>,
    event: Event,
)
    requires
        s.awaiting(entries),
    ensures
        search_observed(s, entries, event).1.query is Encrypt ==> search_observed(
            s,
            entries,
            event,
        ).0.awaiting(entries),
        !(search_observed(s, entries, event).1.query is Encrypt) ==> search_observed(
            s,
            entries,
            event,
        ).0.finished,
        search_observed(s, entries, event).1.query is Exhausted ==> search_observed(
            s,
            entries,
            event,
        ).0.candidate == ALPHABET_SIZE,
        search_observed(s, entries, event).1.query is Found ==> search_observed(
            s,
            entries,
            event,
        ).0.entry == entries.len() && search_observed(s, entries, event).0.candidate == s.candidate,
        search_observed(s, entries, event).0.candidate == s.candidate && search_observed(
            s,
            entries,
            event,
        ).0.entry == s.entry + 1 || search_observed(s, entries, event).0.candidate == s.candidate + 1
            && search_observed(s, entries, event).0.entry == 0,
        search_observed(s, entries, event).0.config == s.config,
        search_observed(s, entries, event).0.target == s.target,
{
}

/// The plugboard search's decision on each reply, in terms of the reply
/// alone: an output equal to the pair's cipher letter needs nothing and
/// moves to the next pair; a different output is connected to the cipher
/// letter when neither is connected yet; when either is already connected,
/// or the search was stopped, the candidate is ruled out: the plugboard is
/// cleared and the next candidate starts from the first pair, set up with
/// the rotors back at the configuration's positions and the target
/// connected to the letter with code `65 + candidate` (so the candidates
/// tried are exactly `A` to `Z`, in order, each once).
pub proof fn lemma_search_decisions(s: TranspositionSearch, entries: Seq<(usize, char)>, event: Event)
    requires
        s.awaiting(entries),
    ensures
        ({
            let (next, step) = search_observed(s, entries, event);
            let cipher_letter = entries[s.entry as int].1;
            &&& event is Encrypted && event->output == cipher_letter ==> step.ops == Seq::<
                MachineOp,
            >::empty() && next.candidate == s.candidate && next.entry == s.entry + 1
            &&& event is Encrypted && event->output != cipher_letter && !event->output_plugged
                && !event->cipher_plugged ==> step.ops.len() == 1 && step.ops[0]
                == (MachineOp::SetTransposition { first: event->output, second: cipher_letter })
                && next.candidate == s.candidate && next.entry == s.entry + 1
            &&& (event is Stopped || event is Encrypted && event->output != cipher_letter && (
            event->output_plugged || event->cipher_plugged)) ==> next.candidate == s.candidate + 1
                && next.entry == 0 && step.ops[0] == MachineOp::ClearTranspositions
            &&& next.candidate == s.candidate + 1 && next.candidate < 26 ==> step.ops.len() == 3
                && step.ops[1] == (MachineOp::SetRotorPositions {
                left: s.config.left_rotor_position,
                middle: s.config.middle_rotor_position,
                right: s.config.right_rotor_position,
            }) && step.ops[2] is SetTransposition && step.ops[2]->first == s.target
                && step.ops[2]->second as u32 == 65 + next.candidate
        }),
{
    let (next, step) = search_observed(s, entries, event);
    let cipher_letter = entries[s.entry as int].1;
    match event {
        Event::Encrypted { output, output_plugged, cipher_plugged } => {
            if output != cipher_letter && !output_plugged && !cipher_plugged {
                assert(pair_decision(output, output_plugged, cipher_letter, cipher_plugged) == Ok::<
                    Option<(char, char)>,
                    TranspositionError,
                >(Some((output, cipher_letter))));
                lemma_connect_step(s, entries, output, cipher_letter);
            }
        },
        Event::Stopped => {},
    }
    if next.candidate == s.candidate + 1 && next.candidate < 26 {
        let setup = candidate_setup(s.config, s.target, next.candidate as nat);
        assert(step.ops == seq![MachineOp::ClearTranspositions] + setup);
        assert(step.ops[1] == setup[0]);
        assert(step.ops[2] == setup[1]);
        assert(alphabet_letter(next.candidate as nat) as u32 == 65 + next.candidate);
    }
    if event is Stopped || event is Encrypted && event->output != entries[s.entry as int].1 && (
    event->output_plugged || event->cipher_plugged) {
        assert(step.ops[0] == MachineOp::ClearTranspositions);
    }
}

/// A reply whose output differs from the pair's cipher letter, with both
/// letters free, connects the two.
proof fn lemma_connect_step(
    s: TranspositionSearch,
    entries: Seq<(usize, char)>,
    output: char,
    cipher_letter: char,
)
    requires
        s.awaiting(entries),
        cipher_letter == entries[s.entry as int].1,
        output != cipher_letter,
    ensures
        search_observed(
            s,
            entries,
            (Event::Encrypted { output, output_plugged: false, cipher_plugged: false }),
        ).1.ops == seq![MachineOp::SetTransposition { first: output, second: cipher_letter }],
        search_observed(
            s,
            entries,
            (Event::Encrypted { output, output_plugged: false, cipher_plugged: false }),
        ).1.ops.len() == 1,
        search_observed(
            s,
            entries,
            (Event::Encrypted { output, output_plugged: false, cipher_plugged: false }),
        ).1.ops[0] == (MachineOp::SetTransposition { first: output, second: cipher_letter }),
{
    assert(pair_decision(output, false, cipher_letter, false) == Ok::<
        Option<(char, char)>,
        TranspositionError,
    >(Some((output, cipher_letter))));
    assert(plug_ops(Some((output, cipher_letter))) =~= seq![
        MachineOp::SetTransposition { first: output, second: cipher_letter },
    ]);
}

/// A search starts with the rotors at the configuration's positions and the
/// target connected to `A`, the first candidate.
pub proof fn lemma_search_started_setup(
    target: char,
    config: EnigmaRotorConfiguration,
    entries: Seq<(usize, char)>,
)
    ensures
        ({
            let (search, step) = search_started(target, config, entries);
            &&& search.candidate == 0
            &&& search.entry == 0
            &&& step.ops.len() == 2
            &&& step.ops[0] == (MachineOp::SetRotorPositions {
                left: config.left_rotor_position,
                middle: config.middle_rotor_position,
                right: config.right_rotor_position,
            })
            &&& step.ops[1] is SetTransposition && step.ops[1]->first == target
                && step.ops[1]->second as u32 == 65
        }),
{
}

/// Steps that the rotors advance before the `j`-th letter pair is
/// encrypted: up to its position, counting one step for each earlier
/// encryption.
pub open spec fn advance_before(entries: Seq<(usize, char)>, j: int) -> int {
    if j == 0 {
        entries[0].0 as int
    } else {
        entries[j].0 - entries[j - 1].0 - 1
    }
}

/// Total rotor steps from the candidate's set-up to just after the `j`-th
/// encryption, when each encryption steps the rotors once.
pub open spec fn steps_through(entries: Seq<(usize, char)>, j: int) -> int
    decreases j,
{
    if j <= 0 {
        advance_before(entries, 0) + 1
    } else {
        steps_through(entries, j - 1) + advance_before(entries, j) + 1
    }
}

/// The advances that the search asks for put the machine exactly at each
/// letter pair's position: after the advances and encryptions up to pair
/// `j`, the rotors have stepped `position + 1` times; every advance is
/// non-negative.
pub proof fn lemma_advances_reach_positions(entries: Seq<(usize, char)>, j: int)
    requires
        positions_increasing(entries),
        0 <= j < entries.len(),
    ensures
        advance_before(entries, j) >= 0,
        steps_through(entries, j) == entries[j].0 + 1,
    decreases j,
{
    if j > 0 {
        lemma_advances_reach_positions(entries, j - 1);
    }
}

/// The pending encryption query of a waiting search advances the rotors by
/// `advance_before` for its letter pair.
pub proof fn lemma_query_advance(s: TranspositionSearch, entries: Seq<(usize, char)>, event: Event)
    requires
        s.awaiting(entries),
    ensures
        search_observed(s, entries, event).1.query matches Query::Encrypt { advance, letter, cipher_letter }
            ==> advance == advance_before(entries, search_observed(s, entries, event).0.entry as int)
            && letter == s.target && cipher_letter == entries[search_observed(
            s,
            entries,
            event,
        ).0.entry as int].1,
{
    if s.entry + 1 < entries.len() {
        assert(entries[s.entry as int].0 < entries[s.entry + 1].0);
    }
}

} // verus!
