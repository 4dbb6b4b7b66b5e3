use vstd::prelude::*;

verus! {

/// The command line of the test program: a command and whether to print
/// debug information through the solving process.
#[derive(Debug)]
pub struct Cli {
    pub command: Commands,
    pub debug: bool,
}

/// The test program's commands.
#[derive(Debug)]
pub enum Commands {
    /// Test the solver on example cipher and plain data.
    Test(TestArgs),
}

/// Options of the test command: an easy cipher that is solved quickly, or a
/// hard one; the two exclude each other.
#[derive(Debug)]
pub struct TestArgs {
    pub easy: Option<bool>,
    pub hard: bool,
}

} // verus!
