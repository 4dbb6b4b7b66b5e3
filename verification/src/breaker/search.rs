use vstd::prelude::*;

use crate::solver::POSITION_COUNT;
use crate::solver::enigma_settings::{rotor_at, rotor_from_index};
use crate::solver::enigma_solver_utils::{
    lemma_plug_ops_connect, pair_decision, plug_ops, transpose_new_letter, TranspositionError,
};
use crate::solver::machine::{Event, MachineOp, ReflectorName};

verus! {

/// Rotor positions (left, middle, right) at which every rotor position step
/// of the scan tests the plugboard.
pub const TESTED_LEFT_POSITION: usize = 1;

pub const TESTED_MIDDLE_POSITION: usize = 5;

pub const TESTED_RIGHT_POSITION: usize = 17;

/// The plugboard partner tried for the most frequent plain letter.
pub const TRANSPOSITION_CANDIDATE: char = 'H';

/// Number of bytes that `c` takes in UTF-8.
pub open spec fn utf8_len(c: char) -> nat {
    if (c as u32) < 0x80 {
        1
    } else if (c as u32) < 0x800 {
        2
    } else if (c as u32) < 0x10000 {
        3
    } else {
        4
    }
}

/// The byte offset of character `i` of `s` in its UTF-8 encoding.
pub open spec fn byte_offset(s: Seq<char>, i: int) -> nat
    decreases i,
{
    if i <= 0 {
        0
    } else {
        byte_offset(s, i - 1) + utf8_len(s[i - 1])
    }
}

/// Number of bytes of `s` in UTF-8.
pub open spec fn byte_len(s: Seq<char>) -> nat {
    byte_offset(s, s.len() as int)
}

/// Whether, at every occurrence of `target` in `plain`, the character of
/// `cipher` numbered by that occurrence's byte offset exists.
pub open spec fn cipher_covers(plain: Seq<char>, cipher: Seq<char>, target: char) -> bool {
    forall|i: int| 0 <= i < plain.len() && plain[i] == target ==> byte_offset(plain, i) < cipher.len()
}

/// What the breaker asks of the machine, or what it concluded.
#[derive(Clone, Copy, Debug, PartialEq, Eq, Structural)]
pub enum BreakerQuery {
    /// Encrypt `letter`; the output is not needed.
    Encrypt { letter: char },
    /// Encrypt `letter` and report the output together with whether the
    /// output and `cipher_letter` already have a plugboard connection.
    EncryptChecked { letter: char, cipher_letter: char },
    /// The plugboard now explains every occurrence of the target letter at the
    /// current rotor position step; any event acknowledges it and the scan
    /// goes on.
    Found,
    /// Every rotor position step has been tried.
    Exhausted,
}

/// The abstract content of a `BreakerStep`.
pub struct BreakerStepSpec {
    pub ops: Seq<MachineOp>,
    pub query: BreakerQuery,
}

/// Operations to carry out on the machine, in order, followed by a query.
pub struct BreakerStep {
    pub ops: Vec<MachineOp>,
    pub query: BreakerQuery,
}

impl View for BreakerStep {
    type V = BreakerStepSpec;

    open spec fn view(&self) -> BreakerStepSpec {
        BreakerStepSpec { ops: self.ops@, query: self.query }
    }
}

/// The scan of one rotor order: at each of the 17576 position steps a fresh
/// machine is built, its rotors are set to the tested positions, the target
/// letter is connected to the candidate partner, and the plain text is
/// encrypted character by character; at each occurrence of the target the
/// machine's output must be the cipher letter, or be connected to it on the
/// plugboard when both letters are still free.
#[derive(Clone, Copy, Debug, PartialEq, Eq, Structural)]
pub struct BreakerSearch {
    pub left_rotor: usize,
    pub middle_rotor: usize,
    pub right_rotor: usize,
    pub reflector: ReflectorName,
    pub target: char,
    pub position_index: usize,
    pub char_index: usize,
    pub byte_offset: usize,
    pub finished: bool,
}

/// The operations that begin a position step: build the machine, set the
/// tested rotor positions, connect the target to the candidate partner.
pub open spec fn position_setup(
    left: usize,
    middle: usize,
    right: usize,
    reflector: ReflectorName,
    target: char,
) -> Seq<MachineOp> {
    seq![
        MachineOp::Build {
            left_rotor: rotor_at(left as nat),
            middle_rotor: rotor_at(middle as nat),
            right_rotor: rotor_at(right as nat),
            reflector,
        },
        MachineOp::SetRotorPositions {
            left: TESTED_LEFT_POSITION,
            middle: TESTED_MIDDLE_POSITION,
            right: TESTED_RIGHT_POSITION,
        },
        MachineOp::SetTransposition { first: target, second: TRANSPOSITION_CANDIDATE },
    ]
}

/// The query for character `i` of the plain text: a checked encryption at
/// the target letter, a plain one elsewhere, `Found` past the end.
pub open spec fn walk_query(plain: Seq<char>, cipher: Seq<char>, target: char, i: int) -> BreakerQuery {
    if i >= plain.len() {
        BreakerQuery::Found
    } else if plain[i] == target {
        BreakerQuery::EncryptChecked {
            letter: plain[i],
            cipher_letter: cipher[byte_offset(plain, i) as int],
        }
    } else {
        BreakerQuery::Encrypt { letter: plain[i] }
    }
}

/// The scan state and first step for a rotor order and target letter.
pub open spec fn break_started(
    plain: Seq<char>,
    cipher: Seq<char>,
    target: char,
    left: usize,
    middle: usize,
    right: usize,
    reflector: ReflectorName,
) -> (BreakerSearch, BreakerStepSpec) {
    (
        BreakerSearch {
            left_rotor: left,
            middle_rotor: middle,
            right_rotor: right,
            reflector,
            target,
            position_index: 0,
            char_index: 0,
            byte_offset: 0,
            finished: false,
        },
        BreakerStepSpec {
            ops: position_setup(left, middle, right, reflector, target),
            query: walk_query(plain, cipher, target, 0),
        },
    )
}

/// The state and step that move the scan to the next position step after
/// `ops`, or end it when none is left.
pub open spec fn next_position(
    s: BreakerSearch,
    plain: Seq<char>,
    cipher: Seq<char>,
    ops: Seq<MachineOp>,
) -> (BreakerSearch, BreakerStepSpec) {
    if s.position_index + 1 < POSITION_COUNT {
        (
            BreakerSearch {
                position_index: (s.position_index + 1) as usize,
                char_index: 0,
                byte_offset: 0,
                ..s
            },
            BreakerStepSpec {
                ops: ops + position_setup(s.left_rotor, s.middle_rotor, s.right_rotor, s.reflector, s.target),
                query: walk_query(plain, cipher, s.target, 0),
            },
        )
    } else {
        (BreakerSearch { finished: true, ..s }, BreakerStepSpec { ops, query: BreakerQuery::Exhausted })
    }
}

/// The state and step that follow `event`, the machine's report on the
/// pending query.
pub open spec fn break_observed(
    s: BreakerSearch,
    plain: Seq<char>,
    cipher: Seq<char>,
    event: Event,
) -> (BreakerSearch, BreakerStepSpec) {
    if s.char_index >= plain.len() {
        next_position(s, plain, cipher, seq![])
    } else {
        let c = plain[s.char_index as int];
        let decision = if c == s.target {
            match event {
                Event::Encrypted { output, output_plugged, cipher_plugged } => pair_decision(
                    output,
                    output_plugged,
                    cipher[s.byte_offset as int],
                    cipher_plugged,
                ),
                Event::Stopped => Err(TranspositionError::LetterExists),
            }
        } else {
            Ok(None)
        };
        match decision {
            Err(_) => next_position(s, plain, cipher, seq![MachineOp::ClearTranspositions]),
            Ok(plug) => {
                let i = s.char_index + 1;
                (
                    BreakerSearch {
                        char_index: i as usize,
                        byte_offset: (s.byte_offset + utf8_len(c)) as usize,
                        ..s
                    },
                    BreakerStepSpec {
                        ops: plug_ops(plug),
                        query: walk_query(plain, cipher, s.target, i),
                    },
                )
            },
        }
    }
}

/// Number of UTF-8 bytes of `c`.
pub fn utf8_len_exec(c: char) -> (n: usize)
    ensures
        n == utf8_len(c),
{
    let code = c as u32;
    if code < 0x80 {
        1
    } else if code < 0x800 {
        2
    } else if code < 0x10000 {
        3
    } else {
        4
    }
}

/// Byte offsets grow along the text.
pub proof fn lemma_byte_offset_monotone(s: Seq<char>, i: int, j: int)
    requires
        0 <= i <= j,
    ensures
        byte_offset(s, i) <= byte_offset(s, j),
    decreases j - i,
{
    if i < j {
        lemma_byte_offset_monotone(s, i, j - 1);
    }
}

impl BreakerSearch {
    /// The scan is waiting for the report on its pending query.
    pub open spec fn awaiting(self, plain: Seq<char>, cipher: Seq<char>) -> bool {
        &&& !self.finished
        &&& self.position_index < POSITION_COUNT
        &&& self.char_index <= plain.len() <= usize::MAX
        &&& self.byte_offset == byte_offset(plain, self.char_index as int)
        &&& byte_len(plain) <= usize::MAX
        &&& cipher_covers(plain, cipher, self.target)
        &&& self.left_rotor < 5
        &&& self.middle_rotor < 5
        &&& self.right_rotor < 5
    }

    /// Starts the scan of rotors `left`, `middle`, `right` (zero-based) with
    /// `reflector`, testing the plugboard partner of `target`.
    pub fn start(
        plain: &Vec<char>,
        cipher: &Vec<char>,
        target: char,
        left: usize,
        middle: usize,
        right: usize,
        reflector: ReflectorName,
    ) -> (r: (BreakerSearch, BreakerStep))
        requires
            left < 5,
            middle < 5,
            right < 5,
            cipher_covers(plain@, cipher@, target),
        ensures
            (r.0, r.1@) == break_started(plain@, cipher@, target, left, middle, right, reflector),
    {
        let search = BreakerSearch {
            left_rotor: left,
            middle_rotor: middle,
            right_rotor: right,
            reflector,
            target,
            position_index: 0,
            char_index: 0,
            byte_offset: 0,
            finished: false,
        };
        let ops = search.setup_ops();
        let query = search.pending_query(plain, cipher);
        (search, BreakerStep { ops, query })
    }

    fn setup_ops(&self) -> (ops: Vec<MachineOp>)
        requires
            self.left_rotor < 5,
            self.middle_rotor < 5,
            self.right_rotor < 5,
        ensures
            ops@ == position_setup(
                self.left_rotor,
                self.middle_rotor,
                self.right_rotor,
                self.reflector,
                self.target,
            ),
    {
        let mut ops: Vec<MachineOp> = Vec::new();
        ops.push(
            MachineOp::Build {
                left_rotor: rotor_from_index(self.left_rotor),
                middle_rotor: rotor_from_index(self.middle_rotor),
                right_rotor: rotor_from_index(self.right_rotor),
                reflector: self.reflector,
            },
        );
        ops.push(
            MachineOp::SetRotorPositions {
                left: TESTED_LEFT_POSITION,
                middle: TESTED_MIDDLE_POSITION,
                right: TESTED_RIGHT_POSITION,
            },
        );
        ops.push(MachineOp::SetTransposition { first: self.target, second: TRANSPOSITION_CANDIDATE });
        assert(ops@ =~= position_setup(
            self.left_rotor,
            self.middle_rotor,
            self.right_rotor,
            self.reflector,
            self.target,
        ));
        ops
    }

    fn pending_query(&self, plain: &Vec<char>, cipher: &Vec<char>) -> (query: BreakerQuery)
        requires
            self.char_index <= plain@.len(),
            self.byte_offset == byte_offset(plain@, self.char_index as int),
            cipher_covers(plain@, cipher@, self.target),
        ensures
            query == walk_query(plain@, cipher@, self.target, self.char_index as int),
    {
        if self.char_index >= plain.len() {
            BreakerQuery::Found
        } else {
            let c = plain[self.char_index];
            if c == self.target {
                BreakerQuery::EncryptChecked { letter: c, cipher_letter: cipher[self.byte_offset] }
            } else {
                BreakerQuery::Encrypt { letter: c }
            }
        }
    }

    fn advance_position(&mut self, plain: &Vec<char>, cipher: &Vec<char>, ops: Vec<MachineOp>) -> (step:
        BreakerStep)
        requires
            old(self).awaiting(plain@, cipher@),
        ensures
            (*final(self), step@) == next_position(*old(self), plain@, cipher@, ops@),
    {
        if self.position_index + 1 < POSITION_COUNT {
            self.position_index = self.position_index + 1;
            self.char_index = 0;
            self.byte_offset = 0;
            let mut ops = ops;
            let ghost head = ops@;
            let mut setup = self.setup_ops();
            let ghost tail = setup@;
            ops.append(&mut setup);
            assert(ops@ =~= head + tail);
            let query = self.pending_query(plain, cipher);
            BreakerStep { ops, query }
        } else {
            self.finished = true;
            BreakerStep { ops, query: BreakerQuery::Exhausted }
        }
    }

    /// Takes the machine's report on the pending query and decides the next step.
    pub fn observe(&mut self, plain: &Vec<char>, cipher: &Vec<char>, event: Event) -> (step: BreakerStep)
        requires
            old(self).awaiting(plain@, cipher@),
        ensures
            (*final(self), step@) == break_observed(*old(self), plain@, cipher@, event),
    {
        if self.char_index >= plain.len() {
            return self.advance_position(plain, cipher, Vec::new());
        }
        let c = plain[self.char_index];
        let mut ops: Vec<MachineOp> = Vec::new();
        if c == self.target {
            let cipher_letter = cipher[self.byte_offset];
            let decision = match event {
                Event::Encrypted { output, output_plugged, cipher_plugged } => transpose_new_letter(
                    output,
                    output_plugged,
                    cipher_letter,
                    cipher_plugged,
                ),
                Event::Stopped => Err(TranspositionError::LetterExists),
            };
            match decision {
                Err(_) => {
                    ops.push(MachineOp::ClearTranspositions);
                    return self.advance_position(plain, cipher, ops);
                },
                Ok(plug) => {
                    if let Some((first, second)) = plug {
                        ops.push(MachineOp::SetTransposition { first, second });
                    }
                },
            }
        }
        proof {
            lemma_byte_offset_monotone(plain@, self.char_index + 1, plain@.len() as int);
        }
        self.byte_offset = self.byte_offset + utf8_len_exec(c);
        self.char_index = self.char_index + 1;
        let query = self.pending_query(plain, cipher);
        BreakerStep { ops, query }
    }
}

/// A started scan is waiting for the report on its first query.
pub proof fn lemma_break_started_awaiting(
    plain: Seq<char>,
    cipher: Seq<char>,
    target: char,
    left: usize,
    middle: usize,
    right: usize,
    reflector: ReflectorName,
)
    requires
        left < 5,
        middle < 5,
        right < 5,
        cipher_covers(plain, cipher, target),
        byte_len(plain) <= usize::MAX,
        plain.len() <= usize::MAX,
    ensures
        break_started(plain, cipher, target, left, middle, right, reflector).0.awaiting(plain, cipher),
        break_started(plain, cipher, target, left, middle, right, reflector).1.query == walk_query(
            plain,
            cipher,
            target,
            0,
        ),
{
}

/// Every position step begins by building the machine from the scan's
/// rotors and reflector, turning the rotors to positions 1, 5 and 17, and
/// connecting the target letter to `H`.
pub proof fn lemma_position_setup_ops(
    left: usize,
    middle: usize,
    right: usize,
    reflector: ReflectorName,
    target: char,
)
    ensures
        position_setup(left, middle, right, reflector, target) == seq![
            MachineOp::Build {
                left_rotor: rotor_at(left as nat),
                middle_rotor: rotor_at(middle as nat),
                right_rotor: rotor_at(right as nat),
                reflector,
            },
            MachineOp::SetRotorPositions { left: 1, middle: 5, right: 17 },
            MachineOp::SetTransposition { first: target, second: 'H' },
        ],
{
}

/// In a text whose first `i` characters are ASCII, character `i` starts at
/// byte `i`; every character takes one to four bytes.
pub proof fn lemma_byte_offset_ascii(s: Seq<char>, i: int)
    requires
        0 <= i <= s.len(),
        forall|j: int| 0 <= j < i ==> (#[trigger] s[j] as u32) < 0x80,
    ensures
        byte_offset(s, i) == i,
    decreases i,
{
    if i > 0 {
        lemma_byte_offset_ascii(s, i - 1);
    }
}

/// Each character takes one to four bytes, so character `i` starts between
/// byte `i` and byte `4 * i`.
pub proof fn lemma_byte_offset_bounds(s: Seq<char>, i: int)
    requires
        0 <= i <= s.len(),
    ensures
        i <= byte_offset(s, i) <= 4 * i,
    decreases i,
{
    if i > 0 {
        lemma_byte_offset_bounds(s, i - 1);
    }
}

/// The scan's decision on each reply, in terms of the reply alone. At a
/// character other than the target the output does not matter and the walk
/// goes on. At the target: an output equal to the cipher letter needs
/// nothing; a different output is connected to the cipher letter when
/// neither is connected yet; when either is already connected (or the reply
/// is `Stopped`) the position step is ruled out: the plugboard is cleared
/// and the scan moves to the next position step, or ends. A letter that is
/// already connected is never connected again.
pub proof fn lemma_break_decisions(s: BreakerSearch, plain: Seq<char>, cipher: Seq<char>, event: Event)
    requires
        s.awaiting(plain, cipher),
        s.char_index < plain.len(),
    ensures
        ({
            let (next, step) = break_observed(s, plain, cipher, event);
            let c = plain[s.char_index as int];
            let cipher_letter = cipher[s.byte_offset as int];
            let goes_on = next.position_index == s.position_index && next.char_index == s.char_index
                + 1;
            &&& c != s.target ==> step.ops.len() == 0 && goes_on
            &&& c == s.target && event is Encrypted && event->output == cipher_letter ==> step.ops.len()
                == 0 && goes_on
            &&& c == s.target && event is Encrypted && event->output != cipher_letter
                && !event->output_plugged && !event->cipher_plugged ==> step.ops.len() == 1
                && step.ops[0] == (MachineOp::SetTransposition {
                first: event->output,
                second: cipher_letter,
            }) && goes_on
            &&& c == s.target && (event is Stopped || event is Encrypted && event->output
                != cipher_letter && (event->output_plugged || event->cipher_plugged)) ==> step.ops[0]
                == MachineOp::ClearTranspositions && (step.query is Exhausted || next.position_index
                == s.position_index + 1 && next.char_index == 0)
        }),
{
    let c = plain[s.char_index as int];
    let cipher_letter = cipher[s.byte_offset as int];
    if c == s.target {
        match event {
            Event::Encrypted { output, output_plugged, cipher_plugged } => {
                if output != cipher_letter && !output_plugged && !cipher_plugged {
                    assert(pair_decision(output, false, cipher_letter, false) == Ok::<
                        Option<(char, char)>,
                        TranspositionError,
                    >(Some((output, cipher_letter))));
                    lemma_plug_ops_connect(output, cipher_letter);
                }
            },
            Event::Stopped => {},
        }
    }
}

/// Every step of the scan either ends it (`Exhausted`, after the last
/// position step) or leaves it waiting again, with the query for the plain
/// character it has reached: the next character at the same position step,
/// or the first character at the next step. The rotors, the reflector and
/// the target never change.
pub proof fn lemma_break_observed_awaiting(
    s: BreakerSearch,
    plain: Seq<char>,
    cipher: Seq<char>,
    event: Event,
)
    requires
        s.awaiting(plain, cipher),
    ensures
        ({
            let (next, step) = break_observed(s, plain, cipher, event);
            &&& step.query is Exhausted ==> next.finished && next.position_index == POSITION_COUNT - 1
            &&& !(step.query is Exhausted) ==> next.awaiting(plain, cipher) && step.query
                == walk_query(plain, cipher, next.target, next.char_index as int)
            &&& next.left_rotor == s.left_rotor
            &&& next.middle_rotor == s.middle_rotor
            &&& next.right_rotor == s.right_rotor
            &&& next.reflector == s.reflector
            &&& next.target == s.target
            &&& !(step.query is Exhausted) ==> (next.position_index == s.position_index
                && next.char_index == s.char_index + 1 || next.position_index == s.position_index + 1
                && next.char_index == 0)
        }),
{
    if s.char_index < plain.len() {
        lemma_byte_offset_monotone(plain, s.char_index + 1, plain.len() as int);
    }
}

} // verus!
