use enigma_breaker::ioc_solver::{
    coincidence_counts, ratio_greater_exec, IoCEnigmaSolver, IocQuery, IocRatio, IocScan, IocSolve,
    RotorPositions,
};
use enigma_breaker::solver::machine::ReflectorName;

fn at(left: char, mid: char, right: char) -> IocQuery {
    IocQuery::Decrypt { positions: RotorPositions { left, mid, right } }
}

#[test]
fn coincidences_count_equal_letter_pairs() {
    assert_eq!(coincidence_counts("AAB"), (2, 6));
    assert_eq!(coincidence_counts("ABCD"), (0, 12));
    assert_eq!(coincidence_counts("AAAA"), (12, 12));
    assert_eq!(coincidence_counts("A"), (0, 0));
}

#[test]
fn ratios_compare_as_fractions() {
    let zero = IocRatio { coincidences: 0, pairs: 1 };
    assert!(ratio_greater_exec(IocRatio { coincidences: 2, pairs: 6 }, zero));
    assert!(!ratio_greater_exec(
        IocRatio { coincidences: 1, pairs: 3 },
        IocRatio { coincidences: 2, pairs: 6 }
    ));
    assert!(ratio_greater_exec(
        IocRatio { coincidences: 12, pairs: 12 },
        IocRatio { coincidences: 2, pairs: 6 }
    ));
    assert!(!ratio_greater_exec(IocRatio { coincidences: 0, pairs: 0 }, zero));
}

#[test]
fn scan_keeps_first_strictly_best_position() {
    let (mut scan, query) = IocScan::start();
    assert_eq!(query, at('A', 'A', 'A'));
    assert_eq!(scan.observe("ABC"), at('A', 'A', 'B'));
    assert_eq!(scan.best_positions, None);
    assert_eq!(scan.observe("AAB"), at('A', 'A', 'C'));
    assert_eq!(scan.best, IocRatio { coincidences: 2, pairs: 6 });
    assert_eq!(scan.best_positions, Some(RotorPositions { left: 'A', mid: 'A', right: 'B' }));
    assert_eq!(scan.observe("BAA"), at('A', 'A', 'D'));
    assert_eq!(scan.best_positions, Some(RotorPositions { left: 'A', mid: 'A', right: 'B' }));
    assert_eq!(scan.observe("AAA"), at('A', 'A', 'E'));
    assert_eq!(scan.best_positions, Some(RotorPositions { left: 'A', mid: 'A', right: 'D' }));
}

#[test]
fn scan_positions_turn_right_rotor_fastest() {
    let (mut scan, _) = IocScan::start();
    let mut query = at('A', 'A', 'A');
    for _ in 0..27 {
        query = scan.observe("AB");
    }
    assert_eq!(query, at('A', 'B', 'B'));
}

#[test]
fn solve_reports_each_machine() {
    let (mut solve, step) = IocSolve::start();
    assert!(step.starts_job);
    assert_eq!(step.query, at('A', 'A', 'A'));
    let mut step = solve.observe("AAB");
    assert!(step.report.is_none());
    for _ in 1..17576 {
        step = solve.observe("AB");
    }
    let report = step.report.expect("the first machine's scan has ended");
    assert_eq!(report.job, 0);
    assert_eq!(report.best, IocRatio { coincidences: 2, pairs: 6 });
    assert_eq!(report.positions, Some(RotorPositions { left: 'A', mid: 'A', right: 'A' }));
    assert!(report.new_maximum);
    assert!(step.starts_job);
    assert_eq!(step.query, at('A', 'A', 'A'));
    assert_eq!(solve.job, 1);
}

#[test]
fn solver_jobs_follow_reflector_combination_order() {
    let solver = IoCEnigmaSolver::new();
    assert_eq!(solver.job_setting(0), (0, 1, 2, ReflectorName::A));
    assert_eq!(solver.job_setting(2), (1, 0, 2, ReflectorName::A));
    assert_eq!(solver.job_setting(179), (4, 3, 2, ReflectorName::C));
}
