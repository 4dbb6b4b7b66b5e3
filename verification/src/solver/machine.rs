use vstd::prelude::*;

verus! {

/// The five rotors a machine can be built from.
#[derive(Clone, Copy, Debug, PartialEq, Eq, Structural)]
pub enum RotorName {
    Rotor1,
    Rotor2,
    Rotor3,
    Rotor4,
    Rotor5,
}

/// The three reflectors a machine can be built with.
#[derive(Clone, Copy, Debug, PartialEq, Eq, Structural)]
pub enum ReflectorName {
    A,
    B,
    C,
}


/// An operation that the search asks to be carried out on the Enigma machine.
#[derive(Clone, Copy, Debug, PartialEq, Eq, Structural)]
pub enum MachineOp {
    /// Build a machine from three rotors, left to right, and a reflector.
    Build {
        left_rotor: RotorName,
        middle_rotor: RotorName,
        right_rotor: RotorName,
        reflector: ReflectorName,
    },
    /// Turn the three rotors to these positions (0..26).
    SetRotorPositions { left: usize, middle: usize, right: usize },
    /// Connect two letters on the plugboard.
    SetTransposition { first: char, second: char },
    /// Remove every plugboard connection.
    ClearTranspositions,
}

/// What the search needs to learn, or what it concluded.
#[derive(Clone, Copy, Debug, PartialEq, Eq, Structural)]
pub enum Query {
    /// Advance the rotors by `advance` steps, encrypt `letter`, and report the
    /// output together with whether the output and `cipher_letter` already
    /// have a plugboard connection.
    Encrypt { advance: usize, letter: char, cipher_letter: char },
    /// The plugboard now holds connections consistent with every known letter
    /// pair: the current configuration is a solution.
    Found,
    /// Every candidate has been ruled out.
    Exhausted,
}

/// What the machine reported for an `Encrypt` query.
#[derive(Clone, Copy, Debug, PartialEq, Eq, Structural)]
pub enum Event {
    /// The encryption output, and whether the output and the expected cipher
    /// letter already had plugboard connections before the query.
    Encrypted { output: char, output_plugged: bool, cipher_plugged: bool },
    /// The search was told to stop before the query was carried out.
    Stopped,
}

/// The abstract content of a `Step`.
pub struct StepSpec {
    pub ops: Seq<MachineOp>,
    pub query: Query,
    pub starts_configuration: bool,
}

/// Operations to carry out on the machine, in order, followed by a query.
pub struct Step {
    pub ops: Vec<MachineOp>,
    pub query: Query,
    /// Whether this step begins the search of a new rotor configuration.
    pub starts_configuration: bool,
}

impl View for Step {
    type V = StepSpec;

    open spec fn view(&self) -> StepSpec {
        StepSpec { ops: self.ops@, query: self.query, starts_configuration: self.starts_configuration }
    }
}

} // verus!

