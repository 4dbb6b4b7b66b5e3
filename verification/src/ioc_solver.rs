use vstd::prelude::*;

use crate::letters::{all_counted, count_letters, letter_count, letter_slot};
use crate::solver::{POSITION_COUNT, ROTOR_ORDER_COUNT, lemma_position_digits, rotor_order};
use crate::solver::consts::{FIVE_CHOOSE_THREE_COMBINATIONS, THREE_PERMUTATIONS};
use crate::solver::enigma_settings::reflector_at;
use crate::solver::enigma_solver_utils::{alphabet_letter, alphabet_letter_exec};
use crate::solver::machine::ReflectorName;
use crate::text::chars_of;

verus! {

/// Whether every character of `s` is a capital letter `A` to `Z`.
pub open spec fn all_capitals(s: Seq<char>) -> bool {
    forall|i: int| 0 <= i < s.len() ==> 'A' <= #[trigger] s[i] <= 'Z'
}

/// Whether every character of `text` is a capital letter `A` to `Z`.
pub fn is_capital_text(text: &str) -> (capitals: bool)
    ensures
        capitals == all_capitals(text@),
{
    let chars = chars_of(text);
    let mut i: usize = 0;
    while i < chars.len()
        invariant
            i <= chars@.len(),
            chars@ == text@,
            forall|j: int| 0 <= j < i ==> 'A' <= #[trigger] chars@[j] <= 'Z',
        decreases chars@.len() - i,
    {
        if !('A' <= chars[i] && chars[i] <= 'Z') {
            return false;
        }
        i += 1;
    }
    true
}

/// The sum, over the letters with index below `n`, of `k * (k - 1)` where
/// `k` is how often the letter occurs in `s`: the number of ordered pairs of
/// distinct places that hold the same letter.
pub open spec fn coincidences(s: Seq<char>, n: int) -> int
    decreases n,
{
    if n <= 0 {
        0
    } else {
        coincidences(s, n - 1) + letter_count(s, n - 1) * (letter_count(s, n - 1) - 1)
    }
}

/// How many characters of `s` are counted as one of the letters with index below `n`.
pub open spec fn count_sum(s: Seq<char>, n: int) -> int
    decreases n,
{
    if n <= 0 {
        0
    } else {
        count_sum(s, n - 1) + letter_count(s, n - 1)
    }
}

proof fn lemma_count_sum_empty(s: Seq<char>, n: int)
    requires
        s.len() == 0,
    ensures
        count_sum(s, n) == 0,
    decreases n,
{
    if n > 0 {
        lemma_count_sum_empty(s, n - 1);
    }
}

proof fn lemma_count_sum_step(s: Seq<char>, n: int)
    requires
        s.len() > 0,
    ensures
        count_sum(s, n) == count_sum(s.drop_last(), n) + (if 0 <= letter_slot(s.last()) < n {
            1int
        } else {
            0int
        }),
    decreases n,
{
    if n > 0 {
        lemma_count_sum_step(s, n - 1);
    }
}

/// When every character is counted as a letter, the counts of the 26
/// letters add up to the length.
pub proof fn lemma_count_sum_total(s: Seq<char>)
    requires
        all_counted(s),
    ensures
        count_sum(s, 26) == s.len(),
    decreases s.len(),
{
    if s.len() == 0 {
        lemma_count_sum_empty(s, 26);
    } else {
        assert(all_counted(s.drop_last())) by {
            assert forall|i: int| 0 <= i < s.drop_last().len() implies 0 <= #[trigger] letter_slot(
                s.drop_last()[i],
            ) < 26 by {
                assert(s.drop_last()[i] == s[i]);
            }
        }
        lemma_count_sum_total(s.drop_last());
        lemma_count_sum_step(s, 26);
        assert(0 <= letter_slot(s[s.len() - 1]) < 26);
    }
}

proof fn lemma_count_sum_monotone(s: Seq<char>, a: int, b: int)
    requires
        0 <= a <= b,
    ensures
        count_sum(s, a) <= count_sum(s, b),
    decreases b - a,
{
    if a < b {
        lemma_count_sum_monotone(s, a, b - 1);
    }
}

/// Capital letters are counted as themselves.
proof fn lemma_capitals_counted(s: Seq<char>)
    requires
        all_capitals(s),
    ensures
        all_counted(s),
        forall|i: int| 0 <= i < s.len() ==> #[trigger] letter_slot(s[i]) == s[i] as int - 65,
{
    assert forall|i: int| 0 <= i < s.len() implies #[trigger] letter_slot(s[i]) == s[i] as int - 65 by {
        assert('A' <= s[i] <= 'Z');
    }
}

/// The two integers of the index of coincidence of `text`: the number of
/// ordered pairs of distinct places holding the same letter, and the number
/// of ordered pairs of distinct places, `n * (n - 1)` for length `n`. The
/// text must be capital letters only and not empty.
pub fn coincidence_counts(text: &str) -> (counts: (u64, u64))
    requires
        all_capitals(text@),
        1 <= text@.len(),
        text@.len() * (text@.len() - 1) <= usize::MAX,
    ensures
        counts.0 == coincidences(text@, 26),
        counts.1 == text@.len() * (text@.len() - 1),
{
    let chars = chars_of(text);
    proof {
        lemma_capitals_counted(text@);
        lemma_count_sum_total(text@);
    }
    let counts = count_letters(&chars);
    let n = chars.len();
    let ghost total_len: int = n as int;
    let mut sum: u64 = 0;
    let ghost mut total: int = 0;
    let mut l: usize = 0;
    while l < 26
        invariant
            l <= 26,
            chars@ == text@,
            n == text@.len(),
            total_len == n,
            count_sum(text@, 26) == n,
            forall|slot: int| 0 <= slot < 26 ==> counts[slot] == letter_count(chars@, slot),
            total == count_sum(text@, l as int),
            0 <= total,
            sum == coincidences(text@, l as int),
            0 <= sum <= total * (total - 1),
            total_len * (total_len - 1) <= usize::MAX,
        decreases 26 - l,
    {
        let c = counts[l];
        proof {
            lemma_count_sum_monotone(text@, l + 1, 26);
            assert(total + c <= total_len);
            assert((total + c) * (total + c - 1) == total * (total - 1) + c * (c - 1) + 2 * total * c)
                by (nonlinear_arith);
            assert(0 <= 2 * total * c) by (nonlinear_arith)
                requires
                    0 <= total,
                    0 <= c,
            ;
            assert((total + c) * (total + c - 1) <= total_len * (total_len - 1)) by (nonlinear_arith)
                requires
                    0 <= total + c <= total_len,
            ;
            assert(0 <= c * (c - 1)) by (nonlinear_arith)
                requires
                    0 <= c,
            ;
        }
        let term: u64 = if c == 0 {
            0
        } else {
            c * (c - 1)
        };
        sum = sum + term;
        proof {
            total = total + c;
        }
        l += 1;
    }
    let pairs: usize = n * (n - 1);
    (sum, pairs as u64)
}

/// An index of coincidence, kept as the two integers of its fraction:
/// coinciding pairs over all pairs.
#[derive(Clone, Copy, Debug, PartialEq, Eq, Structural)]
pub struct IocRatio {
    pub coincidences: u64,
    pub pairs: u64,
}

/// The index of coincidence of a capital-letter text.
pub open spec fn text_ratio(s: Seq<char>) -> IocRatio {
    IocRatio { coincidences: coincidences(s, 26) as u64, pairs: (s.len() * (s.len() - 1)) as u64 }
}

/// The index zero, where every search for a maximum starts.
pub open spec fn zero_ratio() -> IocRatio {
    IocRatio { coincidences: 0, pairs: 1 }
}

/// Whether index `a` is greater than index `b`. An index without pairs (a
/// text of one letter) is undefined and greater than nothing.
pub open spec fn ratio_greater(a: IocRatio, b: IocRatio) -> bool {
    a.pairs > 0 && a.coincidences * b.pairs > b.coincidences * a.pairs
}

/// Whether index `a` is greater than index `b`.
pub fn ratio_greater_exec(a: IocRatio, b: IocRatio) -> (greater: bool)
    ensures
        greater == ratio_greater(a, b),
{
    if a.pairs == 0 {
        return false;
    }
    proof {
        assert(a.coincidences * b.pairs <= u64::MAX * u64::MAX) by (nonlinear_arith);
        assert(b.coincidences * a.pairs <= u64::MAX * u64::MAX) by (nonlinear_arith);
    }
    (a.coincidences as u128) * (b.pairs as u128) > (b.coincidences as u128) * (a.pairs as u128)
}

/// Rotor positions given as letters.
#[derive(Clone, Copy, Debug, PartialEq, Eq, Structural)]
pub struct RotorPositions {
    pub left: char,
    pub mid: char,
    pub right: char,
}

/// The rotor positions tried at step `k` of a scan: every triple of letters,
/// the right rotor turning fastest.
pub open spec fn positions_at(k: nat) -> RotorPositions {
    RotorPositions {
        left: alphabet_letter(k / 676),
        mid: alphabet_letter((k / 26) % 26),
        right: alphabet_letter(k % 26),
    }
}

/// The letters of the positions of step `k` spell `k` in base 26 (`A` for
/// 0, left rotor most significant): the 17576 steps decrypt at 17576
/// different letter triples, each once, and every triple of `A` to `Z` is
/// among them.
pub proof fn lemma_positions_at_spell(k: nat)
    requires
        k < POSITION_COUNT,
    ensures
        'A' <= positions_at(k).left <= 'Z',
        'A' <= positions_at(k).mid <= 'Z',
        'A' <= positions_at(k).right <= 'Z',
        k == 676 * (positions_at(k).left as int - 65) + 26 * (positions_at(k).mid as int - 65) + (
        positions_at(k).right as int - 65),
        forall|j: nat| j < POSITION_COUNT && j != k ==> #[trigger] positions_at(j) != positions_at(k),
{
    lemma_position_digits(k as int);
    assert forall|j: nat| j < POSITION_COUNT && j != k implies #[trigger] positions_at(j)
        != positions_at(k) by {
        lemma_position_digits(j as int);
    }
}

fn positions_at_exec(k: usize) -> (positions: RotorPositions)
    requires
        k < POSITION_COUNT,
    ensures
        positions == positions_at(k as nat),
{
    RotorPositions {
        left: alphabet_letter_exec(k / 676),
        mid: alphabet_letter_exec((k / 26) % 26),
        right: alphabet_letter_exec(k % 26),
    }
}

/// What the index-of-coincidence search asks of the machine.
#[derive(Clone, Copy, Debug, PartialEq, Eq, Structural)]
pub enum IocQuery {
    /// Set the rotors to `positions` and decrypt the whole cipher text.
    Decrypt { positions: RotorPositions },
    /// Every position has been tried.
    Exhausted,
}

/// The scan of every rotor position of one machine for the decryption with
/// the highest index of coincidence.
#[derive(Clone, Copy, Debug, PartialEq, Eq, Structural)]
pub struct IocScan {
    pub position_index: usize,
    pub best: IocRatio,
    pub best_positions: Option<RotorPositions>,
    pub finished: bool,
}

/// The scan state and first query.
pub open spec fn ioc_scan_started() -> (IocScan, IocQuery) {
    (
        IocScan { position_index: 0, best: zero_ratio(), best_positions: None, finished: false },
        IocQuery::Decrypt { positions: positions_at(0) },
    )
}

/// The scan state and query after the decryption at the pending position
/// has index `ratio`: a strictly greater index than the best so far becomes
/// the best, with its positions.
pub open spec fn ioc_scan_observed(s: IocScan, ratio: IocRatio) -> (IocScan, IocQuery) {
    let k = s.position_index;
    let (best, best_positions) = if ratio_greater(ratio, s.best) {
        (ratio, Some(positions_at(k as nat)))
    } else {
        (s.best, s.best_positions)
    };
    if k + 1 < POSITION_COUNT {
        (
            IocScan { position_index: (k + 1) as usize, best, best_positions, finished: false },
            IocQuery::Decrypt { positions: positions_at((k + 1) as nat) },
        )
    } else {
        (IocScan { best, best_positions, finished: true, ..s }, IocQuery::Exhausted)
    }
}

impl IocScan {
    /// The scan is waiting for the decryption at its pending position.
    pub open spec fn awaiting(self) -> bool {
        &&& !self.finished
        &&& self.position_index < POSITION_COUNT
        &&& self.best.pairs > 0
    }

    /// Starts the scan at positions `A`, `A`, `A`.
    pub fn start() -> (r: (IocScan, IocQuery))
        ensures
            r == ioc_scan_started(),
    {
        (
            IocScan {
                position_index: 0,
                best: IocRatio { coincidences: 0, pairs: 1 },
                best_positions: None,
                finished: false,
            },
            IocQuery::Decrypt { positions: positions_at_exec(0) },
        )
    }

    /// Takes the decryption at the pending position (capital letters, not
    /// empty) and decides the next query.
    pub fn observe(&mut self, deciphered: &str) -> (query: IocQuery)
        requires
            old(self).awaiting(),
            all_capitals(deciphered@),
            1 <= deciphered@.len(),
            deciphered@.len() * (deciphered@.len() - 1) <= usize::MAX,
        ensures
            (*final(self), query) == ioc_scan_observed(*old(self), text_ratio(deciphered@)),
    {
        let (coincidences, pairs) = coincidence_counts(deciphered);
        let ratio = IocRatio { coincidences, pairs };
        let k = self.position_index;
        if ratio_greater_exec(ratio, self.best) {
            self.best = ratio;
            self.best_positions = Some(positions_at_exec(k));
        }
        if k + 1 < POSITION_COUNT {
            self.position_index = k + 1;
            IocQuery::Decrypt { positions: positions_at_exec(k + 1) }
        } else {
            self.finished = true;
            IocQuery::Exhausted
        }
    }
}

/// What became of one machine's scan.
#[derive(Clone, Copy, Debug, PartialEq, Eq, Structural)]
pub struct IocJobReport {
    pub job: usize,
    pub best: IocRatio,
    pub positions: Option<RotorPositions>,
    /// The scan's best index is greater than that of every earlier machine.
    pub new_maximum: bool,
}

/// A step of the search over all machines: the report of a scan that just
/// ended, whether the scan of a new machine begins (build it and start a
/// new record), and the next query.
#[derive(Clone, Copy, Debug, PartialEq, Eq, Structural)]
pub struct IocStep {
    pub report: Option<IocJobReport>,
    pub starts_job: bool,
    pub query: IocQuery,
}

/// The search over every reflector, choice of three rotors and order of
/// them (job numbers as in `rotor_order`), each machine scanned over all
/// rotor positions.
#[derive(Clone, Copy, Debug, PartialEq, Eq, Structural)]
pub struct IocSolve {
    pub job: usize,
    pub scan: IocScan,
    pub max: IocRatio,
    pub finished: bool,
}

/// The search state and first step.
pub open spec fn ioc_solve_started() -> (IocSolve, IocStep) {
    let (scan, query) = ioc_scan_started();
    (
        IocSolve { job: 0, scan, max: zero_ratio(), finished: false },
        IocStep { report: None, starts_job: true, query },
    )
}

/// The search state and step after the decryption at the pending position
/// has index `ratio`.
pub open spec fn ioc_solve_observed(s: IocSolve, ratio: IocRatio) -> (IocSolve, IocStep) {
    let (scan, query) = ioc_scan_observed(s.scan, ratio);
    if query is Exhausted {
        let new_maximum = ratio_greater(scan.best, s.max);
        let report = IocJobReport {
            job: s.job,
            best: scan.best,
            positions: scan.best_positions,
            new_maximum,
        };
        let max = if new_maximum {
            scan.best
        } else {
            s.max
        };
        if s.job + 1 < ROTOR_ORDER_COUNT {
            let (next, first) = ioc_scan_started();
            (
                IocSolve { job: (s.job + 1) as usize, scan: next, max, finished: false },
                IocStep { report: Some(report), starts_job: true, query: first },
            )
        } else {
            (
                IocSolve { scan, max, finished: true, ..s },
                IocStep { report: Some(report), starts_job: false, query: IocQuery::Exhausted },
            )
        }
    } else {
        (IocSolve { scan, ..s }, IocStep { report: None, starts_job: false, query })
    }
}

impl IocSolve {
    /// The search is waiting for the decryption at its pending position.
    pub open spec fn awaiting(self) -> bool {
        &&& !self.finished
        &&& self.job < ROTOR_ORDER_COUNT
        &&& self.scan.awaiting()
        &&& self.max.pairs > 0
    }

    /// Starts the search with the first machine at positions `A`, `A`, `A`.
    pub fn start() -> (r: (IocSolve, IocStep))
        ensures
            r == ioc_solve_started(),
    {
        let (scan, query) = IocScan::start();
        (
            IocSolve { job: 0, scan, max: IocRatio { coincidences: 0, pairs: 1 }, finished: false },
            IocStep { report: None, starts_job: true, query },
        )
    }

    /// Takes the decryption at the pending position (capital letters, not
    /// empty) and decides the next step.
    pub fn observe(&mut self, deciphered: &str) -> (step: IocStep)
        requires
            old(self).awaiting(),
            all_capitals(deciphered@),
            1 <= deciphered@.len(),
            deciphered@.len() * (deciphered@.len() - 1) <= usize::MAX,
        ensures
            (*final(self), step) == ioc_solve_observed(*old(self), text_ratio(deciphered@)),
    {
        let query = self.scan.observe(deciphered);
        match query {
            IocQuery::Exhausted => {
                let new_maximum = ratio_greater_exec(self.scan.best, self.max);
                let report = IocJobReport {
                    job: self.job,
                    best: self.scan.best,
                    positions: self.scan.best_positions,
                    new_maximum,
                };
                if new_maximum {
                    self.max = self.scan.best;
                }
                if self.job + 1 < ROTOR_ORDER_COUNT {
                    let (next, first) = IocScan::start();
                    self.job = self.job + 1;
                    self.scan = next;
                    IocStep { report: Some(report), starts_job: true, query: first }
                } else {
                    self.finished = true;
                    IocStep { report: Some(report), starts_job: false, query: IocQuery::Exhausted }
                }
            },
            _ => IocStep { report: None, starts_job: false, query },
        }
    }
}

/// A started search waits for its first decryption.
pub proof fn lemma_ioc_solve_started_awaiting()
    ensures
        ioc_solve_started().0.awaiting(),
        ioc_solve_started().1.query == (IocQuery::Decrypt { positions: positions_at(0) }),
{
}

/// Each decryption moves the scan one position on; the best index never
/// decreases, is at least the index just seen, and changes only to it, with
/// its positions. When the last position has been tried the scan ends.
pub proof fn lemma_ioc_scan_observed(s: IocScan, ratio: IocRatio)
    requires
        s.awaiting(),
    ensures
        ({
            let (next, query) = ioc_scan_observed(s, ratio);
            &&& !ratio_greater(s.best, next.best)
            &&& !ratio_greater(ratio, next.best)
            &&& next.best == s.best || (next.best == ratio && next.best_positions == Some(
                positions_at(s.position_index as nat),
            ))
            &&& query is Exhausted ==> next.finished && s.position_index == POSITION_COUNT - 1
            &&& !(query is Exhausted) ==> next.awaiting() && next.position_index == s.position_index + 1
                && query == (IocQuery::Decrypt { positions: positions_at(next.position_index as nat) })
        }),
{
}

/// Each query of a scan decrypts at the letter triple that spells its
/// position step in base 26, one step after the last.
pub proof fn lemma_ioc_scan_query_positions(s: IocScan, ratio: IocRatio)
    requires
        s.awaiting(),
    ensures
        ({
            let (next, query) = ioc_scan_observed(s, ratio);
            query is Decrypt ==> next.position_index == s.position_index + 1 && next.position_index
                == 676 * (query->positions.left as int - 65) + 26 * (query->positions.mid as int
                - 65) + (query->positions.right as int - 65)
        }),
{
    let (next, query) = ioc_scan_observed(s, ratio);
    if query is Decrypt {
        lemma_positions_at_spell(next.position_index as nat);
    }
}

/// The first query of a scan decrypts at `A`, `A`, `A`.
pub proof fn lemma_ioc_scan_started_positions()
    ensures
        ioc_scan_started().1 == (IocQuery::Decrypt {
            positions: RotorPositions { left: 'A', mid: 'A', right: 'A' },
        }),
{
}

/// Every step of the search either leaves it waiting for the next
/// decryption or ends it after the last position of the last machine; a
/// machine's report comes exactly when its scan ends, and the next machine's
/// scan then starts afresh; the overall maximum never decreases and is at
/// least the best index of every reported scan.
pub proof fn lemma_ioc_solve_observed(s: IocSolve, ratio: IocRatio)
    requires
        s.awaiting(),
    ensures
        ({
            let (next, step) = ioc_solve_observed(s, ratio);
            &&& step.query is Exhausted ==> next.finished && s.job == ROTOR_ORDER_COUNT - 1
                && s.scan.position_index == POSITION_COUNT - 1
            &&& !(step.query is Exhausted) ==> next.awaiting()
            &&& (step.report is Some) <==> s.scan.position_index == POSITION_COUNT - 1
            &&& step.report matches Some(report) ==> report.job == s.job && !ratio_greater(
                report.best,
                next.max,
            ) && (report.new_maximum <==> ratio_greater(report.best, s.max))
            &&& !ratio_greater(s.max, next.max)
            &&& next.job == s.job && next.scan == ioc_scan_observed(s.scan, ratio).0 || next.job
                == s.job + 1 && next.scan == ioc_scan_started().0 && step.starts_job
        }),
{
    lemma_ioc_scan_observed(s.scan, ratio);
}

/// The index-of-coincidence solver: the reflectors, choices of three rotors
/// and their orders that it scans.
pub struct IoCEnigmaSolver {
    five_choose_three_combinations: [[usize; 3]; 10],
    three_permutations: [[usize; 3]; 6],
    available_reflectors: [ReflectorName; 3],
}

impl IoCEnigmaSolver {
    /// The solver holds the ten rotor choices, the six orders and the three
    /// reflectors.
    pub closed spec fn well_formed(self) -> bool {
        &&& self.five_choose_three_combinations == FIVE_CHOOSE_THREE_COMBINATIONS
        &&& self.three_permutations == THREE_PERMUTATIONS
        &&& self.available_reflectors == [ReflectorName::A, ReflectorName::B, ReflectorName::C]
    }

    /// Builds the solver.
    pub fn new() -> (solver: Self)
        ensures
            solver.well_formed(),
    {
        IoCEnigmaSolver {
            five_choose_three_combinations: FIVE_CHOOSE_THREE_COMBINATIONS,
            three_permutations: THREE_PERMUTATIONS,
            available_reflectors: [ReflectorName::A, ReflectorName::B, ReflectorName::C],
        }
    }

    /// The machine of job `job` (0 to 179): rotors (zero-based, left to
    /// right) and reflector; reflectors vary slowest, then rotor choices,
    /// then orders.
    pub fn job_setting(&self, job: usize) -> (setting: (usize, usize, usize, ReflectorName))
        requires
            self.well_formed(),
            job < ROTOR_ORDER_COUNT,
        ensures
            setting.0 == rotor_order(job as nat).0,
            setting.1 == rotor_order(job as nat).1,
            setting.2 == rotor_order(job as nat).2,
            setting.3 == reflector_at(rotor_order(job as nat).3),
    {
        let combination = self.five_choose_three_combinations[(job / 6) % 10];
        let permutation = self.three_permutations[job % 6];
        (
            combination[permutation[0]],
            combination[permutation[1]],
            combination[permutation[2]],
            self.available_reflectors[job / 60],
        )
    }
}

} // verus!
