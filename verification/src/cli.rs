use vstd::prelude::*;

verus! {

/// The command line of the breaking program: a command and whether to print
/// debug information through the solving process.
#[derive(Debug)]
pub struct Cli {
    pub command: Commands,
    pub debug: bool,
}

/// The program's commands.
#[derive(Debug)]
pub enum Commands {
    /// Test the solver on example cipher and plain data.
    Test(TestArgs),
    /// Find the machine setting that encrypted a cipher text, given files with
    /// the cipher text and with plain text that goes with it; optionally save
    /// the setting to a file.
    Solve { cipher_text: String, plain_text: String, settings_file: Option<String> },
    /// Encrypt or decrypt, optionally with a machine set up from a settings file.
    Encrypt { settings_file: Option<String> },
}

/// Options of the test command: an easy cipher that is solved quickly, or a
/// hard one (the two exclude each other), and whether to run the solver on a
/// single thread instead of several.
#[derive(Debug)]
pub struct TestArgs {
    pub easy: Option<bool>,
    pub hard: bool,
    pub single_threaded: bool,
}

/// The example the test command runs.
#[derive(Clone, Copy, Debug, PartialEq, Eq, Structural)]
pub enum TestChoice {
    Easy,
    Hard,
    /// Both the easy and the hard example were asked for.
    Conflicting,
}

impl TestArgs {
    /// The example the options ask for: the easy one unless `hard` is set or
    /// `easy` is explicitly false; asking for both is a conflict.
    pub open spec fn choice_spec(self) -> TestChoice {
        let easy = match self.easy {
            Some(easy) => easy,
            None => !self.hard,
        };
        if easy && self.hard {
            TestChoice::Conflicting
        } else if easy {
            TestChoice::Easy
        } else {
            TestChoice::Hard
        }
    }

    /// The example the options ask for.
    pub fn choice(&self) -> (choice: TestChoice)
        ensures
            choice == self.choice_spec(),
    {
        let easy = match self.easy {
            Some(easy) => easy,
            None => !self.hard,
        };
        if easy && self.hard {
            TestChoice::Conflicting
        } else if easy {
            TestChoice::Easy
        } else {
            TestChoice::Hard
        }
    }
}

} // verus!
