pub mod consts;
pub mod enigma_settings;
pub mod enigma_solution_utils;
pub mod enigma_solver_utils;
pub mod machine;

use vstd::prelude::*;

use crate::solver::consts::{FIVE_CHOOSE_THREE_COMBINATIONS, THREE_PERMUTATIONS};
use crate::solver::enigma_settings::{
    EnigmaRotorConfiguration, CONFIGURABLE_ROTORS, rotor_at, reflector_at, rotor_from_index,
    reflector_from_index,
};
use crate::solver::enigma_solver_utils::{
    TranspositionSearch, search_started, search_observed, describes_letter_positions, aligned_len,
    build_cipher_metadata, metadata_well_formed, positions_increasing,
    lemma_search_started_awaiting, lemma_search_observed_awaiting,
};
use crate::solver::machine::{Event, MachineOp, Query, ReflectorName, Step, StepSpec};
use crate::text::upper_seq;

verus! {

/// Number of letters on an Enigma rotor.
pub const ALPHABET_SIZE: usize = 26;

/// The first letter of the alphabet.
pub const FIRST_LETTER: char = 'A';

/// The last letter of the alphabet.
pub const LAST_LETTER: char = 'Z';

/// For every letter of the (upper-cased) plain text, the positions at which
/// it occurs together with the cipher letter at each of those positions;
/// letters that occur more often come first.
pub struct CipherMetadata {
    pub letter_positions: Vec<(char, Vec<(usize, char)>)>,
}


/// Number of rotor position triples for one rotor order (26 * 26 * 26).
pub const POSITION_COUNT: usize = 17576;

/// Number of (reflector, rotor combination, rotor order) choices: 3 * 10 * 6.
pub const ROTOR_ORDER_COUNT: usize = 180;

/// The configuration tried at step `k` of a scan: rotors `left`, `middle`,
/// `right` (zero-based), positions running through all triples with the
/// right rotor turning fastest.
pub open spec fn config_at(left: usize, middle: usize, right: usize, k: nat) -> EnigmaRotorConfiguration {
    EnigmaRotorConfiguration {
        left_rotor_index: (left + 1) as usize,
        middle_rotor_index: (middle + 1) as usize,
        right_rotor_index: (right + 1) as usize,
        left_rotor_position: (k / 676) as usize,
        middle_rotor_position: ((k / 26) % 26) as usize,
        right_rotor_position: (k % 26) as usize,
    }
}

/// The scan of every rotor position for one choice of rotors and reflector:
/// for each position triple, in turn, a plugboard search is run.
#[derive(Clone, Copy, Debug, PartialEq, Eq, Structural)]
pub struct RotorOrderScan {
    pub left_rotor: usize,
    pub middle_rotor: usize,
    pub right_rotor: usize,
    pub reflector: ReflectorName,
    pub position_index: usize,
    pub search: TranspositionSearch,
    pub finished: bool,
}

/// The scan state and first step for a choice of rotors and reflector: build
/// the machine, then start the plugboard search at positions (0, 0, 0).
pub open spec fn scan_started(
    left: usize,
    middle: usize,
    right: usize,
    reflector: ReflectorName,
    target: char,
    entries: Seq<(usize, char)>,
) -> (RotorOrderScan, StepSpec) {
    let (search, step) = search_started(target, config_at(left, middle, right, 0), entries);
    (
        RotorOrderScan {
            left_rotor: left,
            middle_rotor: middle,
            right_rotor: right,
            reflector,
            position_index: 0,
            search,
            finished: search.finished,
        },
        StepSpec {
            ops: seq![
                MachineOp::Build {
                    left_rotor: rotor_at(left as nat),
                    middle_rotor: rotor_at(middle as nat),
                    right_rotor: rotor_at(right as nat),
                    reflector,
                },
            ] + step.ops,
            query: step.query,
            starts_configuration: true,
        },
    )
}

/// The scan state and step after `event`: the plugboard search goes on; when
/// it rules out every candidate, the scan moves to the next position triple,
/// or ends once all have been tried.
pub open spec fn scan_observed(
    scan: RotorOrderScan,
    entries: Seq<(usize, char)>,
    event: Event,
) -> (RotorOrderScan, StepSpec) {
    let (search, step) = search_observed(scan.search, entries, event);
    if step.query == Query::Exhausted && scan.position_index + 1 < POSITION_COUNT {
        let k = (scan.position_index + 1) as nat;
        let (next, next_step) = search_started(
            scan.search.target,
            config_at(scan.left_rotor, scan.middle_rotor, scan.right_rotor, k),
            entries,
        );
        (
            RotorOrderScan { position_index: k as usize, search: next, finished: next.finished, ..scan },
            StepSpec {
                ops: step.ops + next_step.ops,
                query: next_step.query,
                starts_configuration: true,
            },
        )
    } else {
        (RotorOrderScan { search, finished: search.finished, ..scan }, step)
    }
}

impl RotorOrderScan {
    /// The configuration whose plugboard is being searched.
    pub open spec fn configuration(self) -> EnigmaRotorConfiguration {
        config_at(self.left_rotor, self.middle_rotor, self.right_rotor, self.position_index as nat)
    }

    /// The scan is waiting for the report on a letter pair.
    pub open spec fn awaiting(self, entries: Seq<(usize, char)>) -> bool {
        &&& self.search.awaiting(entries)
        &&& !self.finished
        &&& self.position_index < POSITION_COUNT
        &&& self.left_rotor < CONFIGURABLE_ROTORS
        &&& self.middle_rotor < CONFIGURABLE_ROTORS
        &&& self.right_rotor < CONFIGURABLE_ROTORS
        &&& self.search.config == self.configuration()
    }

    /// Starts the scan for rotors `left`, `middle`, `right` (zero-based, each
    /// one that a configuration accepts) and `reflector`.
    pub fn start(
        left: usize,
        middle: usize,
        right: usize,
        reflector: ReflectorName,
        target: char,
        entries: &Vec<(usize, char)>,
    ) -> (r: (RotorOrderScan, Step))
        requires
            left < CONFIGURABLE_ROTORS,
            middle < CONFIGURABLE_ROTORS,
            right < CONFIGURABLE_ROTORS,
        ensures
            (r.0, r.1@) == scan_started(left, middle, right, reflector, target, entries@),
    {
        let config = EnigmaRotorConfiguration::new(left, middle, right, 0, 0, 0);
        let (search, step) = TranspositionSearch::start(target, config, entries);
        let mut ops: Vec<MachineOp> = Vec::new();
        ops.push(
            MachineOp::Build {
                left_rotor: rotor_from_index(left),
                middle_rotor: rotor_from_index(middle),
                right_rotor: rotor_from_index(right),
                reflector,
            },
        );
        let ghost head = ops@;
        let mut rest = step.ops;
        ops.append(&mut rest);
        assert(ops@ =~= head + step.ops@);
        let scan = RotorOrderScan {
            left_rotor: left,
            middle_rotor: middle,
            right_rotor: right,
            reflector,
            position_index: 0,
            search,
            finished: search.finished,
        };
        (scan, Step { ops, query: step.query, starts_configuration: true })
    }

    /// Takes the machine's report on the pending letter pair and decides the next step.
    pub fn observe(&mut self, entries: &Vec<(usize, char)>, event: Event) -> (step: Step)
        requires
            old(self).awaiting(entries@),
        ensures
            (*final(self), step@) == scan_observed(*old(self), entries@, event),
    {
        let step = self.search.observe(entries, event);
        if step.query == Query::Exhausted && self.position_index + 1 < POSITION_COUNT {
            let k = self.position_index + 1;
            let config = EnigmaRotorConfiguration::new(
                self.left_rotor,
                self.middle_rotor,
                self.right_rotor,
                k / 676,
                (k / 26) % 26,
                k % 26,
            );
            let (next, next_step) = TranspositionSearch::start(self.search.target, config, entries);
            let mut ops = step.ops;
            let ghost head = ops@;
            let mut rest = next_step.ops;
            ops.append(&mut rest);
            assert(ops@ =~= head + next_step.ops@);
            self.position_index = k;
            self.search = next;
            self.finished = next.finished;
            Step { ops, query: next_step.query, starts_configuration: true }
        } else {
            self.finished = self.search.finished;
            step
        }
    }
}


/// The rotors (zero-based, left to right) and reflector index of choice
/// `job`: reflectors vary slowest, then rotor combinations, then the order of
/// the three rotors.
pub open spec fn rotor_order(job: nat) -> (usize, usize, usize, nat) {
    let combination = FIVE_CHOOSE_THREE_COMBINATIONS[((job / 6) % 10) as int];
    let permutation = THREE_PERMUTATIONS[(job % 6) as int];
    (
        combination[permutation[0] as int],
        combination[permutation[1] as int],
        combination[permutation[2] as int],
        job / 60,
    )
}

/// Whether a configuration can be built for the rotors of choice `job`:
/// none of them is the fifth rotor.
pub open spec fn job_buildable(job: nat) -> bool {
    &&& rotor_order(job).0 < CONFIGURABLE_ROTORS
    &&& rotor_order(job).1 < CONFIGURABLE_ROTORS
    &&& rotor_order(job).2 < CONFIGURABLE_ROTORS
}

/// Whether the step that follows `event` can be taken: it does not move the
/// search on to a choice of rotors that no configuration can be built for.
pub open spec fn solver_step_buildable(
    search: SolverSearch,
    entries: Seq<(usize, char)>,
    event: Event,
) -> bool {
    scan_observed(search.scan, entries, event).1.query is Exhausted && search.job + 1
        < ROTOR_ORDER_COUNT ==> job_buildable((search.job + 1) as nat)
}

/// The scan for choice `job`.
pub open spec fn job_started(job: nat, target: char, entries: Seq<(usize, char)>) -> (
    RotorOrderScan,
    StepSpec,
) {
    let (left, middle, right, reflector) = rotor_order(job);
    scan_started(left, middle, right, reflector_at(reflector), target, entries)
}

/// The full search: every reflector, every choice of three rotors and every
/// order of them, each scanned over all rotor positions.
#[derive(Clone, Copy, Debug, PartialEq, Eq, Structural)]
pub struct SolverSearch {
    pub job: usize,
    pub scan: RotorOrderScan,
    pub finished: bool,
}

/// The search state and first step: the scan of the first choice.
pub open spec fn solver_started(target: char, entries: Seq<(usize, char)>) -> (SolverSearch, StepSpec) {
    let (scan, step) = job_started(0, target, entries);
    (SolverSearch { job: 0, scan, finished: scan.finished }, step)
}

/// The search state and step after `event`: the scan goes on; when it has
/// tried every position, the next choice is scanned, until none is left.
pub open spec fn solver_observed(
    search: SolverSearch,
    entries: Seq<(usize, char)>,
    event: Event,
) -> (SolverSearch, StepSpec) {
    let (scan, step) = scan_observed(search.scan, entries, event);
    if step.query == Query::Exhausted && search.job + 1 < ROTOR_ORDER_COUNT {
        let (next, next_step) = job_started((search.job + 1) as nat, search.scan.search.target, entries);
        (
            SolverSearch { job: (search.job + 1) as usize, scan: next, finished: next.finished },
            StepSpec {
                ops: step.ops + next_step.ops,
                query: next_step.query,
                starts_configuration: true,
            },
        )
    } else {
        (SolverSearch { scan, finished: scan.finished, ..search }, step)
    }
}

/// The rotors and reflector of choice `job` (0 to 179).
pub fn rotor_order_exec(job: usize) -> (order: (usize, usize, usize, usize))
    requires
        job < ROTOR_ORDER_COUNT,
    ensures
        order.0 == rotor_order(job as nat).0,
        order.1 == rotor_order(job as nat).1,
        order.2 == rotor_order(job as nat).2,
        order.3 == rotor_order(job as nat).3,
        order.0 < 5,
        order.1 < 5,
        order.2 < 5,
        order.3 < 3,
{
    let combination = FIVE_CHOOSE_THREE_COMBINATIONS[(job / 6) % 10];
    let permutation = THREE_PERMUTATIONS[job % 6];
    (combination[permutation[0]], combination[permutation[1]], combination[permutation[2]], job / 60)
}

impl SolverSearch {
    /// The search is waiting for the report on a letter pair.
    pub open spec fn awaiting(self, entries: Seq<(usize, char)>) -> bool {
        &&& self.scan.awaiting(entries)
        &&& !self.finished
        &&& self.job < ROTOR_ORDER_COUNT
    }

    /// The settings under test: the rotor configuration whose plugboard is
    /// being searched, and the reflector.
    pub fn configuration(&self) -> (config: (EnigmaRotorConfiguration, ReflectorName))
        ensures
            config.0 == self.scan.search.config,
            config.1 == self.scan.reflector,
    {
        (self.scan.search.config, self.scan.reflector)
    }

    /// Starts the search with the plugboard partner of `target` unknown.
    pub fn start(target: char, entries: &Vec<(usize, char)>) -> (r: (SolverSearch, Step))
        ensures
            (r.0, r.1@) == solver_started(target, entries@),
    {
        let (scan, step) = start_job(0, target, entries);
        (SolverSearch { job: 0, scan, finished: scan.finished }, step)
    }

    /// Whether the step that follows `event` can be taken
    /// (`solver_step_buildable`).
    pub fn step_buildable(&self, entries: &Vec<(usize, char)>, event: Event) -> (buildable: bool)
        requires
            self.awaiting(entries@),
        ensures
            buildable == solver_step_buildable(*self, entries@, event),
    {
        let mut scan = self.scan;
        let step = scan.observe(entries, event);
        if step.query == Query::Exhausted && self.job + 1 < ROTOR_ORDER_COUNT {
            let (left, middle, right, _) = rotor_order_exec(self.job + 1);
            left < CONFIGURABLE_ROTORS && middle < CONFIGURABLE_ROTORS && right < CONFIGURABLE_ROTORS
        } else {
            true
        }
    }

    /// Takes the machine's report on the pending letter pair and decides the
    /// next step, which must not move on to a choice of rotors that no
    /// configuration can be built for.
    pub fn observe(&mut self, entries: &Vec<(usize, char)>, event: Event) -> (step: Step)
        requires
            old(self).awaiting(entries@),
            solver_step_buildable(*old(self), entries@, event),
        ensures
            (*final(self), step@) == solver_observed(*old(self), entries@, event),
    {
        let step = self.scan.observe(entries, event);
        if step.query == Query::Exhausted && self.job + 1 < ROTOR_ORDER_COUNT {
            let job = self.job + 1;
            let (next, next_step) = start_job(job, self.scan.search.target, entries);
            let mut ops = step.ops;
            let ghost head = ops@;
            let mut rest = next_step.ops;
            ops.append(&mut rest);
            assert(ops@ =~= head + next_step.ops@);
            self.job = job;
            self.scan = next;
            self.finished = next.finished;
            Step { ops, query: next_step.query, starts_configuration: true }
        } else {
            self.finished = self.scan.finished;
            step
        }
    }
}

/// Starts the scan of choice `job` (0 to 179), whose rotors must all be
/// ones that a configuration accepts.
pub fn start_job(job: usize, target: char, entries: &Vec<(usize, char)>) -> (r: (RotorOrderScan, Step))
    requires
        job < ROTOR_ORDER_COUNT,
        job_buildable(job as nat),
    ensures
        (r.0, r.1@) == job_started(job as nat, target, entries@),
{
    let (left, middle, right, reflector) = rotor_order_exec(job);
    RotorOrderScan::start(left, middle, right, reflector_from_index(reflector), target, entries)
}


/// The single-threaded solver: it holds the letter statistics of a known
/// plain text and its cipher text, and runs the search over every machine
/// setting, one after the other.
pub struct EnigmaSolver {
    pub cipher_metadata: CipherMetadata,
}

impl EnigmaSolver {
    /// The plain letter whose plugboard partner is searched: the most frequent one.
    pub open spec fn target(self) -> char {
        self.cipher_metadata.letter_positions@[0].0
    }

    /// The known positions of the target letter, with the cipher letter at each.
    pub open spec fn entries(self) -> Seq<(usize, char)> {
        self.cipher_metadata.letter_positions@[0].1@
    }

    /// Builds the solver for a cipher text and the plain text it encrypts.
    pub fn new(cipher: &str, plain: &str) -> (solver: EnigmaSolver)
        ensures
            describes_letter_positions(
                solver.cipher_metadata.letter_positions@,
                upper_seq(plain@),
                cipher@,
                aligned_len(plain@, cipher@),
            ),
            metadata_well_formed(solver.cipher_metadata),
    {
        let cipher_metadata = build_cipher_metadata(plain, cipher);
        EnigmaSolver { cipher_metadata }
    }

    /// The known positions of the target letter.
    pub fn target_positions(&self) -> (entries: &Vec<(usize, char)>)
        requires
            self.cipher_metadata.letter_positions@.len() > 0,
        ensures
            entries@ == self.entries(),
    {
        &self.cipher_metadata.letter_positions[0].1
    }

    /// Starts the search. There must be at least one letter pair.
    pub fn start_search(&self) -> (r: (SolverSearch, Step))
        requires
            self.cipher_metadata.letter_positions@.len() > 0,
        ensures
            (r.0, r.1@) == solver_started(self.target(), self.entries()),
    {
        let target = self.cipher_metadata.letter_positions[0].0;
        SolverSearch::start(target, &self.cipher_metadata.letter_positions[0].1)
    }
}

/// The multi-threaded solver: the same letter statistics, with the scans of
/// the 180 choices of rotors and reflector handed out as separate jobs.
pub struct MultiThreadedEnigmaSolver {
    pub cipher_metadata: CipherMetadata,
}

impl MultiThreadedEnigmaSolver {
    /// The plain letter whose plugboard partner is searched: the most frequent one.
    pub open spec fn target(self) -> char {
        self.cipher_metadata.letter_positions@[0].0
    }

    /// The known positions of the target letter, with the cipher letter at each.
    pub open spec fn entries(self) -> Seq<(usize, char)> {
        self.cipher_metadata.letter_positions@[0].1@
    }

    /// Builds the solver for a cipher text and the plain text it encrypts.
    pub fn new(cipher: &str, plain: &str) -> (solver: MultiThreadedEnigmaSolver)
        ensures
            describes_letter_positions(
                solver.cipher_metadata.letter_positions@,
                upper_seq(plain@),
                cipher@,
                aligned_len(plain@, cipher@),
            ),
            metadata_well_formed(solver.cipher_metadata),
    {
        let cipher_metadata = build_cipher_metadata(plain, cipher);
        MultiThreadedEnigmaSolver { cipher_metadata }
    }

    /// The known positions of the target letter.
    pub fn target_positions(&self) -> (entries: &Vec<(usize, char)>)
        requires
            self.cipher_metadata.letter_positions@.len() > 0,
        ensures
            entries@ == self.entries(),
    {
        &self.cipher_metadata.letter_positions[0].1
    }

    /// Starts the scan of choice `job` (0 to 179), whose rotors must all be
    /// ones that a configuration accepts. There must be at least one letter
    /// pair.
    pub fn start_job(&self, job: usize) -> (r: (RotorOrderScan, Step))
        requires
            self.cipher_metadata.letter_positions@.len() > 0,
            job < ROTOR_ORDER_COUNT,
            job_buildable(job as nat),
        ensures
            (r.0, r.1@) == job_started(job as nat, self.target(), self.entries()),
    {
        let target = self.cipher_metadata.letter_positions[0].0;
        start_job(job, target, &self.cipher_metadata.letter_positions[0].1)
    }
}


/// A step number below 17576 is a three-digit number in base 26: its
/// digits, most significant first, are `k / 676`, `(k / 26) % 26` and
/// `k % 26`.
pub proof fn lemma_position_digits(k: int)
    requires
        0 <= k < POSITION_COUNT,
    ensures
        0 <= k / 676 < 26,
        0 <= (k / 26) % 26 < 26,
        0 <= k % 26 < 26,
        k == 676 * (k / 676) + 26 * ((k / 26) % 26) + k % 26,
{
    vstd::arithmetic::div_mod::lemma_div_denominator(k, 26, 26);
    let q = k / 26;
    assert(k == 26 * q + k % 26);
    assert(q == 26 * (q / 26) + q % 26);
    assert(q / 26 == k / 676);
    assert(k == 676 * (k / 676) + 26 * ((k / 26) % 26) + k % 26) by (nonlinear_arith)
        requires
            k == 26 * q + k % 26,
            q == 26 * (q / 26) + q % 26,
            q / 26 == k / 676,
            q == k / 26,
    ;
}

/// The rotor positions of scan step `k` spell `k` in base 26 (left rotor
/// most significant): so the 17576 steps of a scan try 17576 different
/// position triples, each once, and every triple of 0..26 is among them.
pub proof fn lemma_config_at_positions(left: usize, middle: usize, right: usize, k: nat)
    requires
        k < POSITION_COUNT,
    ensures
        config_at(left, middle, right, k).left_rotor_position < 26,
        config_at(left, middle, right, k).middle_rotor_position < 26,
        config_at(left, middle, right, k).right_rotor_position < 26,
        k == 676 * config_at(left, middle, right, k).left_rotor_position + 26 * config_at(
            left,
            middle,
            right,
            k,
        ).middle_rotor_position + config_at(left, middle, right, k).right_rotor_position,
        forall|j: nat|
            j < POSITION_COUNT && j != k ==> #[trigger] config_at(left, middle, right, j)
                != config_at(left, middle, right, k),
{
    lemma_position_digits(k as int);
    assert forall|j: nat|
        j < POSITION_COUNT && j != k implies #[trigger] config_at(left, middle, right, j) != config_at(
            left,
            middle,
            right,
            k,
        ) by {
        lemma_position_digits(j as int);
    }
}

/// The position, in lexicographic order, of the three rotors `a < b < c`
/// among the ten ways to pick three of five.
pub open spec fn combination_index(a: usize, b: usize, c: usize) -> int {
    if a == 0 && b == 1 && c == 2 {
        0
    } else if a == 0 && b == 1 && c == 3 {
        1
    } else if a == 0 && b == 1 && c == 4 {
        2
    } else if a == 0 && b == 2 && c == 3 {
        3
    } else if a == 0 && b == 2 && c == 4 {
        4
    } else if a == 0 && b == 3 && c == 4 {
        5
    } else if a == 1 && b == 2 && c == 3 {
        6
    } else if a == 1 && b == 2 && c == 4 {
        7
    } else if a == 1 && b == 3 && c == 4 {
        8
    } else {
        9
    }
}

/// Which of the six arrangements three different rotors form, counting by
/// where the smallest, middle and largest of them sit (left, middle, right):
/// 0 for ascending, then as the orders of `THREE_PERMUTATIONS` list them.
pub open spec fn arrangement_index(l: usize, m: usize, r: usize) -> int {
    if l < m && m < r {
        0
    } else if l < r && r < m {
        1
    } else if m < l && l < r {
        2
    } else if r < l && l < m {
        3
    } else if m < r && r < l {
        4
    } else {
        5
    }
}

/// The number of a triple of different rotors among the sixty ordered
/// choices: six times the index of the set of rotors, plus the index of
/// their arrangement.
pub open spec fn ordered_choice_index(l: usize, m: usize, r: usize) -> int {
    let lo = if l <= m && l <= r { l } else if m <= r { m } else { r };
    let hi = if l >= m && l >= r { l } else if m >= r { m } else { r };
    let mid = (l + m + r - lo - hi) as usize;
    6 * combination_index(lo, mid, hi) + arrangement_index(l, m, r)
}

proof fn lemma_ordered_choice_index(j: int)
    requires
        0 <= j < 60,
    ensures
        ordered_choice_index(rotor_order(j as nat).0, rotor_order(j as nat).1, rotor_order(j as nat).2)
            == j,
        rotor_order(j as nat).0 < 5,
        rotor_order(j as nat).1 < 5,
        rotor_order(j as nat).2 < 5,
        rotor_order(j as nat).0 != rotor_order(j as nat).1,
        rotor_order(j as nat).0 != rotor_order(j as nat).2,
        rotor_order(j as nat).1 != rotor_order(j as nat).2,
{
    if j == 0 {
    } else if j == 1 {
    } else if j == 2 {
    } else if j == 3 {
    } else if j == 4 {
    } else if j == 5 {
    } else if j == 6 {
    } else if j == 7 {
    } else if j == 8 {
    } else if j == 9 {
    } else if j == 10 {
    } else if j == 11 {
    } else if j == 12 {
    } else if j == 13 {
    } else if j == 14 {
    } else if j == 15 {
    } else if j == 16 {
    } else if j == 17 {
    } else if j == 18 {
    } else if j == 19 {
    } else if j == 20 {
    } else if j == 21 {
    } else if j == 22 {
    } else if j == 23 {
    } else if j == 24 {
    } else if j == 25 {
    } else if j == 26 {
    } else if j == 27 {
    } else if j == 28 {
    } else if j == 29 {
    } else if j == 30 {
    } else if j == 31 {
    } else if j == 32 {
    } else if j == 33 {
    } else if j == 34 {
    } else if j == 35 {
    } else if j == 36 {
    } else if j == 37 {
    } else if j == 38 {
    } else if j == 39 {
    } else if j == 40 {
    } else if j == 41 {
    } else if j == 42 {
    } else if j == 43 {
    } else if j == 44 {
    } else if j == 45 {
    } else if j == 46 {
    } else if j == 47 {
    } else if j == 48 {
    } else if j == 49 {
    } else if j == 50 {
    } else if j == 51 {
    } else if j == 52 {
    } else if j == 53 {
    } else if j == 54 {
    } else if j == 55 {
    } else if j == 56 {
    } else if j == 57 {
    } else if j == 58 {
    } else if j == 59 {
    }
}

/// Every job names three different rotors (0 to 4) and a reflector (0 to
/// 2), and the 180 jobs name 180 different machines: since there are
/// exactly 3 * 5 * 4 * 3 = 180 such machines, every reflector is tried with
/// every choice of three rotors in every order, each exactly once.
pub proof fn lemma_rotor_order_injective(j1: nat, j2: nat)
    requires
        j1 < ROTOR_ORDER_COUNT,
        j2 < ROTOR_ORDER_COUNT,
    ensures
        rotor_order(j1).0 < 5 && rotor_order(j1).1 < 5 && rotor_order(j1).2 < 5,
        rotor_order(j1).0 != rotor_order(j1).1,
        rotor_order(j1).0 != rotor_order(j1).2,
        rotor_order(j1).1 != rotor_order(j1).2,
        rotor_order(j1).3 < 3,
        rotor_order(j1) == rotor_order(j2) ==> j1 == j2,
{
    lemma_rotor_order_period(j1);
    lemma_rotor_order_period(j2);
    lemma_ordered_choice_index((j1 % 60) as int);
    lemma_ordered_choice_index((j2 % 60) as int);
}

/// The rotors of a job repeat every sixty jobs, and its reflector is the
/// number of whole sixties.
proof fn lemma_rotor_order_period(j: nat)
    requires
        j < ROTOR_ORDER_COUNT,
    ensures
        rotor_order(j).0 == rotor_order(j % 60).0,
        rotor_order(j).1 == rotor_order(j % 60).1,
        rotor_order(j).2 == rotor_order(j % 60).2,
        rotor_order(j).3 == j / 60,
        j == 60 * (j / 60) + j % 60,
        j / 60 < 3,
{
    let q = j / 60;
    let r = j % 60;
    assert(j == 60 * q + r && r < 60);
    assert(r == 6 * (r / 6) + r % 6 && r % 6 < 6 && r / 6 < 10);
    assert(j == 6 * (10 * q + r / 6) + r % 6) by (nonlinear_arith)
        requires
            j == 60 * q + r,
            r == 6 * (r / 6) + r % 6,
    ;
    vstd::arithmetic::div_mod::lemma_fundamental_div_mod_converse(
        j as int,
        6,
        (10 * q + r / 6) as int,
        (r % 6) as int,
    );
    assert(j / 6 == 10 * q + r / 6);
    assert(j % 6 == r % 6);
    vstd::arithmetic::div_mod::lemma_fundamental_div_mod_converse(
        (j / 6) as int,
        10,
        q as int,
        (r / 6) as int,
    );
    assert((j / 6) % 10 == r / 6);
}

/// The configuration at every scan step is well formed.
proof fn lemma_config_at(left: usize, middle: usize, right: usize, k: nat)
    requires
        left < 5,
        middle < 5,
        right < 5,
        k < POSITION_COUNT,
    ensures
        config_at(left, middle, right, k).well_formed(),
{
    assert(k / 676 < 26);
}

/// A started scan on at least one letter pair asks for an encryption and is
/// then ready for the report.
pub proof fn lemma_scan_started_awaiting(
    left: usize,
    middle: usize,
    right: usize,
    reflector: ReflectorName,
    target: char,
    entries: Seq<(usize, char)>,
)
    requires
        left < CONFIGURABLE_ROTORS,
        middle < CONFIGURABLE_ROTORS,
        right < CONFIGURABLE_ROTORS,
        positions_increasing(entries),
        0 < entries.len() <= usize::MAX,
    ensures
        scan_started(left, middle, right, reflector, target, entries).1.query is Encrypt,
        scan_started(left, middle, right, reflector, target, entries).0.awaiting(entries),
        scan_started(left, middle, right, reflector, target, entries).0.search.target == target,
{
    lemma_search_started_awaiting(target, config_at(left, middle, right, 0), entries);
}

/// Every step of a scan either asks for another encryption, and the scan is
/// then ready for the report, or ends it with the plugboard search of the
/// current configuration successful (`Found`) or with every position tried
/// (`Exhausted`); a step stays at its position triple, or moves to the next
/// one, with the plugboard search there starting afresh, only once every
/// candidate at the current triple has been ruled out. The rotors, reflector
/// and target letter never change.
pub proof fn lemma_scan_observed_awaiting(scan: RotorOrderScan, entries: Seq<(usize, char)>, event: Event)
    requires
        scan.awaiting(entries),
    ensures
        ({
            let (next, step) = scan_observed(scan, entries, event);
            &&& step.query is Encrypt ==> next.awaiting(entries)
            &&& !(step.query is Encrypt) ==> next.finished
            &&& step.query is Found ==> next.search.config == next.configuration()
                && next.configuration().well_formed()
            &&& step.query is Exhausted ==> next.position_index == POSITION_COUNT - 1
            &&& next.left_rotor == scan.left_rotor
            &&& next.middle_rotor == scan.middle_rotor
            &&& next.right_rotor == scan.right_rotor
            &&& next.reflector == scan.reflector
            &&& next.search.target == scan.search.target
            &&& next.position_index == scan.position_index && next.search == search_observed(
                scan.search,
                entries,
                event,
            ).0 || next.position_index == scan.position_index + 1 && next.search.candidate == 0
                && next.search.entry == 0 && search_observed(scan.search, entries, event).1.query
                is Exhausted
        }),
{
    lemma_search_observed_awaiting(scan.search, entries, event);
    lemma_config_at(scan.left_rotor, scan.middle_rotor, scan.right_rotor, scan.position_index as nat);
    if scan.position_index + 1 < POSITION_COUNT {
        let k = (scan.position_index + 1) as nat;
        lemma_config_at(scan.left_rotor, scan.middle_rotor, scan.right_rotor, k);
        lemma_search_started_awaiting(
            scan.search.target,
            config_at(scan.left_rotor, scan.middle_rotor, scan.right_rotor, k),
            entries,
        );
    }
}

/// A waiting scan tests the position triple that spells its step number in
/// base 26 (left rotor most significant), each position below 26.
pub proof fn lemma_scan_configuration_positions(scan: RotorOrderScan, entries: Seq<(usize, char)>)
    requires
        scan.awaiting(entries),
    ensures
        scan.search.config.left_rotor_position < 26,
        scan.search.config.middle_rotor_position < 26,
        scan.search.config.right_rotor_position < 26,
        scan.position_index == 676 * scan.search.config.left_rotor_position + 26
            * scan.search.config.middle_rotor_position + scan.search.config.right_rotor_position,
{
    lemma_config_at_positions(
        scan.left_rotor,
        scan.middle_rotor,
        scan.right_rotor,
        scan.position_index as nat,
    );
}

/// When a scan moves on to its next step, the step's operations turn the
/// rotors to the triple that spells the new step number in base 26: the
/// scan's steps 0 to 17575 turn the rotors to every triple of positions
/// 0..26, each exactly once, in increasing order.
pub proof fn lemma_scan_step_positions(scan: RotorOrderScan, entries: Seq<(usize, char)>, event: Event)
    requires
        scan.awaiting(entries),
    ensures
        ({
            let (next, step) = scan_observed(scan, entries, event);
            next.position_index == scan.position_index + 1 ==> {
                &&& step.ops.len() >= 2
                &&& step.ops[step.ops.len() - 2] is SetRotorPositions
                &&& step.ops[step.ops.len() - 2]->left < 26
                &&& step.ops[step.ops.len() - 2]->middle < 26
                &&& step.ops[step.ops.len() - 2]->right < 26
                &&& next.position_index == 676 * step.ops[step.ops.len() - 2]->left + 26
                    * step.ops[step.ops.len() - 2]->middle + step.ops[step.ops.len() - 2]->right
            }
        }),
{
    let (next, step) = scan_observed(scan, entries, event);
    if next.position_index == scan.position_index + 1 {
        let k = (scan.position_index + 1) as nat;
        let config = config_at(scan.left_rotor, scan.middle_rotor, scan.right_rotor, k);
        lemma_config_at_positions(scan.left_rotor, scan.middle_rotor, scan.right_rotor, k);
        let head = search_observed(scan.search, entries, event).1.ops;
        let setup = search_started(scan.search.target, config, entries).1.ops;
        assert(step.ops == head + setup);
        assert(step.ops[step.ops.len() - 2] == setup[0]);
    }
}

/// A scan starts with the rotors at positions (0, 0, 0).
pub proof fn lemma_scan_started_positions(
    left: usize,
    middle: usize,
    right: usize,
    reflector: ReflectorName,
    target: char,
    entries: Seq<(usize, char)>,
)
    ensures
        scan_started(left, middle, right, reflector, target, entries).1.ops[1] == (
        MachineOp::SetRotorPositions { left: 0, middle: 0, right: 0 }),
{
}

/// A started search on at least one letter pair asks for an encryption and
/// is then ready for the report.
pub proof fn lemma_solver_started_awaiting(target: char, entries: Seq<(usize, char)>)
    requires
        positions_increasing(entries),
        0 < entries.len() <= usize::MAX,
    ensures
        solver_started(target, entries).1.query is Encrypt,
        solver_started(target, entries).0.awaiting(entries),
{
    let (left, middle, right, reflector) = rotor_order(0);
    lemma_scan_started_awaiting(left, middle, right, reflector_at(reflector), target, entries);
}

/// Every step of the full search either asks for another encryption, and
/// the search is then ready for the report, or ends it: with a solution
/// (`Found`, the configuration then well formed) or with every choice of
/// rotors, reflector and positions tried (`Exhausted`). A step stays with
/// its choice of rotors and reflector, or moves to the next choice, starting
/// its scan afresh, only once the current scan has tried every position
/// (and only to a choice that a configuration can be built for).
pub proof fn lemma_solver_observed_awaiting(search: SolverSearch, entries: Seq<(usize, char)>, event: Event)
    requires
        search.awaiting(entries),
        solver_step_buildable(search, entries, event),
    ensures
        ({
            let (next, step) = solver_observed(search, entries, event);
            &&& step.query is Encrypt ==> next.awaiting(entries)
            &&& !(step.query is Encrypt) ==> next.finished
            &&& step.query is Found ==> next.scan.search.config.well_formed()
            &&& step.query is Exhausted ==> next.job == ROTOR_ORDER_COUNT - 1
                && next.scan.position_index == POSITION_COUNT - 1
            &&& next.job == search.job && next.scan == scan_observed(search.scan, entries, event).0
                || next.job == search.job + 1 && next.scan.position_index == 0
                && next.scan.search.candidate == 0 && next.scan.search.entry == 0 && scan_observed(
                search.scan,
                entries,
                event,
            ).1.query is Exhausted
        }),
{
    lemma_scan_observed_awaiting(search.scan, entries, event);
    if search.job + 1 < ROTOR_ORDER_COUNT && job_buildable((search.job + 1) as nat) {
        let (left, middle, right, reflector) = rotor_order((search.job + 1) as nat);
        lemma_scan_started_awaiting(
            left,
            middle,
            right,
            reflector_at(reflector),
            search.scan.search.target,
            entries,
        );
    }
}

} // verus!
