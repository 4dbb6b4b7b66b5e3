use vstd::prelude::*;

use crate::solver::ALPHABET_SIZE;
use crate::solver::machine::{MachineOp, ReflectorName, RotorName};

verus! {

/// Which rotors sit in the machine (numbered 1 to 5) and at which
/// position (0 to 25) each of them starts.
#[derive(Clone, Copy, Debug, PartialEq, Eq, Structural)]
pub struct EnigmaRotorConfiguration {
    pub left_rotor_index: usize,
    pub middle_rotor_index: usize,
    pub right_rotor_index: usize,
    pub left_rotor_position: usize,
    pub middle_rotor_position: usize,
    pub right_rotor_position: usize,
}

/// Number of rotors a machine can choose from.
pub const ROTOR_COUNT: usize = 5;

/// Rotor indices that `EnigmaRotorConfiguration::new` takes: 0 to 3 (the
/// fifth rotor, index 4, is not accepted there).
pub const CONFIGURABLE_ROTORS: usize = 4;

impl EnigmaRotorConfiguration {
    /// A configuration is well formed when every rotor number lies in 1..=5
    /// and every position lies in 0..26.
    pub open spec fn well_formed(self) -> bool {
        &&& 1 <= self.left_rotor_index <= ROTOR_COUNT
        &&& 1 <= self.middle_rotor_index <= ROTOR_COUNT
        &&& 1 <= self.right_rotor_index <= ROTOR_COUNT
        &&& self.left_rotor_position < ALPHABET_SIZE
        &&& self.middle_rotor_position < ALPHABET_SIZE
        &&& self.right_rotor_position < ALPHABET_SIZE
    }

    /// Builds a configuration from zero-based rotor indices and rotor
    /// positions (0..26); the stored rotor numbers are one-based. Each rotor
    /// index must lie in 0..4: the fifth rotor (index 4) is not accepted.
    pub fn new(
        left_rotor_index: usize,
        middle_rotor_index: usize,
        right_rotor_index: usize,
        left_rotor_position: usize,
        middle_rotor_position: usize,
        right_rotor_position: usize,
    ) -> (config: Self)
        requires
            left_rotor_index < CONFIGURABLE_ROTORS,
            middle_rotor_index < CONFIGURABLE_ROTORS,
            right_rotor_index < CONFIGURABLE_ROTORS,
            left_rotor_position < ALPHABET_SIZE,
            middle_rotor_position < ALPHABET_SIZE,
            right_rotor_position < ALPHABET_SIZE,
        ensures
            config.left_rotor_index == left_rotor_index + 1,
            config.middle_rotor_index == middle_rotor_index + 1,
            config.right_rotor_index == right_rotor_index + 1,
            config.left_rotor_position == left_rotor_position,
            config.middle_rotor_position == middle_rotor_position,
            config.right_rotor_position == right_rotor_position,
            config.well_formed(),
    {
        EnigmaRotorConfiguration {
            left_rotor_index: left_rotor_index + 1,
            middle_rotor_index: middle_rotor_index + 1,
            right_rotor_index: right_rotor_index + 1,
            left_rotor_position,
            middle_rotor_position,
            right_rotor_position,
        }
    }
}


/// The rotor with zero-based index `index`.
pub open spec fn rotor_at(index: nat) -> RotorName {
    if index == 0 {
        RotorName::Rotor1
    } else if index == 1 {
        RotorName::Rotor2
    } else if index == 2 {
        RotorName::Rotor3
    } else if index == 3 {
        RotorName::Rotor4
    } else {
        RotorName::Rotor5
    }
}

/// The reflector with zero-based index `index`.
pub open spec fn reflector_at(index: nat) -> ReflectorName {
    if index == 0 {
        ReflectorName::A
    } else if index == 1 {
        ReflectorName::B
    } else {
        ReflectorName::C
    }
}

/// The rotor with zero-based index `index` (0 to 4).
pub fn rotor_from_index(index: usize) -> (rotor: RotorName)
    requires
        index < ROTOR_COUNT,
    ensures
        rotor == rotor_at(index as nat),
{
    match index {
        0 => RotorName::Rotor1,
        1 => RotorName::Rotor2,
        2 => RotorName::Rotor3,
        3 => RotorName::Rotor4,
        _ => RotorName::Rotor5,
    }
}

/// The reflector with zero-based index `index` (0 to 2).
pub fn reflector_from_index(index: usize) -> (reflector: ReflectorName)
    requires
        index < 3,
    ensures
        reflector == reflector_at(index as nat),
{
    match index {
        0 => ReflectorName::A,
        1 => ReflectorName::B,
        _ => ReflectorName::C,
    }
}

/// A complete machine setting: rotors and their positions, plugboard
/// connections, and reflector.
pub struct EnigmaSettings {
    pub rotor_config: EnigmaRotorConfiguration,
    pub transpositions: Vec<(char, char)>,
    pub reflector: ReflectorName,
}

/// Whether `ops` set a machine up as `settings` describe: build it from the
/// chosen rotors and reflector, turn the rotors to their positions, and make
/// each plugboard connection in turn.
pub open spec fn is_setup_ops(ops: Seq<MachineOp>, settings: EnigmaSettings) -> bool {
    let config = settings.rotor_config;
    let pairs = settings.transpositions@;
    &&& ops.len() == 2 + pairs.len()
    &&& ops[0] == MachineOp::Build {
        left_rotor: rotor_at((config.left_rotor_index - 1) as nat),
        middle_rotor: rotor_at((config.middle_rotor_index - 1) as nat),
        right_rotor: rotor_at((config.right_rotor_index - 1) as nat),
        reflector: settings.reflector,
    }
    &&& ops[1] == MachineOp::SetRotorPositions {
        left: config.left_rotor_position,
        middle: config.middle_rotor_position,
        right: config.right_rotor_position,
    }
    &&& forall|i: int|
        0 <= i < pairs.len() ==> ops[2 + i] == MachineOp::SetTransposition {
            first: (#[trigger] pairs[i]).0,
            second: pairs[i].1,
        }
}

/// Appends to `ops` one plugboard connection for each pair of `pairs`, in order.
pub fn push_transpositions(ops: &mut Vec<MachineOp>, pairs: &Vec<(char, char)>)
    ensures
        final(ops)@.len() == old(ops)@.len() + pairs@.len(),
        forall|j: int| 0 <= j < old(ops)@.len() ==> final(ops)@[j] == old(ops)@[j],
        forall|j: int|
            0 <= j < pairs@.len() ==> final(ops)@[old(ops)@.len() + j] == (MachineOp::SetTransposition {
                first: (#[trigger] pairs@[j]).0,
                second: pairs@[j].1,
            }),
{
    let ghost head = ops@;
    let mut i: usize = 0;
    while i < pairs.len()
        invariant
            i <= pairs@.len(),
            ops@.len() == head.len() + i,
            forall|j: int| 0 <= j < head.len() ==> ops@[j] == head[j],
            forall|j: int|
                0 <= j < i ==> ops@[head.len() + j] == (MachineOp::SetTransposition {
                    first: (#[trigger] pairs@[j]).0,
                    second: pairs@[j].1,
                }),
        decreases pairs@.len() - i,
    {
        let pair = pairs[i];
        let first: char = copy_char(pair.0);
        let second: char = copy_char(pair.1);
        ops.push(MachineOp::SetTransposition { first, second });
        i += 1;
    }
}

/// Hands back `c`, so that a character read out of a pair is bound as a
/// `char` of its own before it is stored again.
fn copy_char(c: char) -> (d: char)
    ensures
        d == c,
{
    c
}

impl EnigmaSettings {
    /// The operations that turn a fresh machine into one set up as these
    /// settings describe. Rotor numbers must lie in 1..=5.
    pub fn machine_setup(&self) -> (ops: Vec<MachineOp>)
        requires
            1 <= self.rotor_config.left_rotor_index <= ROTOR_COUNT,
            1 <= self.rotor_config.middle_rotor_index <= ROTOR_COUNT,
            1 <= self.rotor_config.right_rotor_index <= ROTOR_COUNT,
        ensures
            is_setup_ops(ops@, *self),
    {
        let config = self.rotor_config;
        let mut ops: Vec<MachineOp> = Vec::new();
        ops.push(
            MachineOp::Build {
                left_rotor: rotor_from_index(config.left_rotor_index - 1),
                middle_rotor: rotor_from_index(config.middle_rotor_index - 1),
                right_rotor: rotor_from_index(config.right_rotor_index - 1),
                reflector: self.reflector,
            },
        );
        ops.push(
            MachineOp::SetRotorPositions {
                left: config.left_rotor_position,
                middle: config.middle_rotor_position,
                right: config.right_rotor_position,
            },
        );
        push_transpositions(&mut ops, &self.transpositions);
        ops
    }
}

} // verus!


