use enigma_breaker::solver::enigma_settings::{EnigmaRotorConfiguration, EnigmaSettings};
use enigma_breaker::solver::enigma_solution_utils;
use enigma_breaker::solver::enigma_solver_utils::{
    transpose_new_letter, TranspositionError, TranspositionSearch,
};
use enigma_breaker::solver::machine::{Event, MachineOp, Query, ReflectorName, RotorName};
use enigma_breaker::solver::{rotor_order_exec, EnigmaSolver, MultiThreadedEnigmaSolver, SolverSearch};

fn config() -> EnigmaRotorConfiguration {
    EnigmaRotorConfiguration::new(0, 1, 2, 3, 4, 5)
}

#[test]
fn rotor_configuration_stores_one_based_rotors() {
    let c = config();
    assert_eq!(
        (c.left_rotor_index, c.middle_rotor_index, c.right_rotor_index),
        (1, 2, 3)
    );
    assert_eq!(
        (c.left_rotor_position, c.middle_rotor_position, c.right_rotor_position),
        (3, 4, 5)
    );
}

#[test]
fn solver_metadata_groups_positions_by_letter() {
    let solver = EnigmaSolver::new("XYZWV", "abca");
    let groups = &solver.cipher_metadata.letter_positions;
    assert_eq!(groups.len(), 3);
    assert_eq!(groups[0], ('A', vec![(0, 'X'), (3, 'W')]));
    let mut rest: Vec<(char, Vec<(usize, char)>)> = groups[1..].to_vec();
    rest.sort();
    assert_eq!(rest, vec![('B', vec![(1, 'Y')]), ('C', vec![(2, 'Z')])]);
}

#[test]
fn metadata_stops_at_the_shorter_text() {
    let metadata = enigma_solution_utils::build_cipher_metadata("eeee", "QR");
    assert_eq!(metadata.letter_positions, vec![('E', vec![(0, 'Q'), (1, 'R')])]);
    let empty = enigma_solution_utils::build_cipher_metadata("", "QR");
    assert!(empty.letter_positions.is_empty());
}

#[test]
fn transpose_new_letter_decisions() {
    assert_eq!(transpose_new_letter('Q', false, 'Q', true), Ok(None));
    assert_eq!(transpose_new_letter('Q', false, 'X', false), Ok(Some(('Q', 'X'))));
    assert_eq!(
        transpose_new_letter('Q', true, 'X', false),
        Err(TranspositionError::LetterExists)
    );
    assert_eq!(
        transpose_new_letter('Q', false, 'X', true),
        Err(TranspositionError::LetterExists)
    );
}

#[test]
fn transposition_search_finds_plugboard() {
    let entries = vec![(0, 'X'), (3, 'W')];
    let (mut search, step) = TranspositionSearch::start('A', config(), &entries);
    assert_eq!(
        step.ops,
        vec![
            MachineOp::SetRotorPositions { left: 3, middle: 4, right: 5 },
            MachineOp::SetTransposition { first: 'A', second: 'A' },
        ]
    );
    assert_eq!(step.query, Query::Encrypt { advance: 0, letter: 'A', cipher_letter: 'X' });
    let step = search.observe(
        &entries,
        Event::Encrypted { output: 'Q', output_plugged: false, cipher_plugged: false },
    );
    assert_eq!(step.ops, vec![MachineOp::SetTransposition { first: 'Q', second: 'X' }]);
    assert_eq!(step.query, Query::Encrypt { advance: 2, letter: 'A', cipher_letter: 'W' });
    let step = search.observe(
        &entries,
        Event::Encrypted { output: 'W', output_plugged: false, cipher_plugged: false },
    );
    assert!(step.ops.is_empty());
    assert_eq!(step.query, Query::Found);
    assert!(search.finished);
}

#[test]
fn transposition_search_moves_to_next_candidate_on_conflict() {
    let entries = vec![(2, 'X')];
    let (mut search, _) = TranspositionSearch::start('E', config(), &entries);
    let step = search.observe(
        &entries,
        Event::Encrypted { output: 'Q', output_plugged: true, cipher_plugged: false },
    );
    assert_eq!(
        step.ops,
        vec![
            MachineOp::ClearTranspositions,
            MachineOp::SetRotorPositions { left: 3, middle: 4, right: 5 },
            MachineOp::SetTransposition { first: 'E', second: 'B' },
        ]
    );
    assert_eq!(step.query, Query::Encrypt { advance: 2, letter: 'E', cipher_letter: 'X' });
    assert_eq!(search.candidate, 1);
}

#[test]
fn transposition_search_exhausts_after_last_candidate() {
    let entries = vec![(0, 'X')];
    let (mut search, _) = TranspositionSearch::start('E', config(), &entries);
    let mut last = None;
    for _ in 0..26 {
        let step = search.observe(&entries, Event::Stopped);
        last = Some(step.query);
    }
    assert_eq!(last, Some(Query::Exhausted));
    assert!(search.finished);
}

#[test]
fn empty_letter_list_is_found_at_once() {
    let entries: Vec<(usize, char)> = Vec::new();
    let (search, step) = TranspositionSearch::start('E', config(), &entries);
    assert_eq!(step.query, Query::Found);
    assert!(search.finished);
}

#[test]
fn rotor_orders_cover_reflectors_combinations_and_orders() {
    assert_eq!(rotor_order_exec(0), (0, 1, 2, 0));
    assert_eq!(rotor_order_exec(1), (0, 2, 1, 0));
    assert_eq!(rotor_order_exec(6), (0, 1, 3, 0));
    assert_eq!(rotor_order_exec(60), (0, 1, 2, 1));
    assert_eq!(rotor_order_exec(179), (4, 3, 2, 2));
}

#[test]
fn solver_search_starts_by_building_first_machine() {
    let solver = EnigmaSolver::new("XQ", "ee");
    let (search, step) = solver.start_search();
    assert_eq!(
        step.ops[0],
        MachineOp::Build {
            left_rotor: RotorName::Rotor1,
            middle_rotor: RotorName::Rotor2,
            right_rotor: RotorName::Rotor3,
            reflector: ReflectorName::A,
        }
    );
    assert_eq!(step.ops[1], MachineOp::SetRotorPositions { left: 0, middle: 0, right: 0 });
    assert_eq!(step.query, Query::Encrypt { advance: 0, letter: 'E', cipher_letter: 'X' });
    let (config, reflector) = search.configuration();
    assert_eq!(config, EnigmaRotorConfiguration::new(0, 1, 2, 0, 0, 0));
    assert_eq!(reflector, ReflectorName::A);
}

#[test]
fn solver_search_moves_to_next_position_after_all_candidates() {
    let solver = EnigmaSolver::new("X", "e");
    let (mut search, _) = solver.start_search();
    let entries = solver.target_positions().clone();
    let mut step = search.observe(&entries, Event::Stopped);
    for _ in 1..26 {
        step = search.observe(&entries, Event::Stopped);
    }
    assert_eq!(step.ops[0], MachineOp::ClearTranspositions);
    assert_eq!(step.ops[1], MachineOp::SetRotorPositions { left: 0, middle: 0, right: 1 });
    assert_eq!(step.query, Query::Encrypt { advance: 0, letter: 'E', cipher_letter: 'X' });
    assert_eq!(search.configuration().0.right_rotor_position, 1);
}

#[test]
fn multithreaded_solver_jobs_start_their_own_machine() {
    let solver = MultiThreadedEnigmaSolver::new("XQ", "ee");
    let (scan, step) = solver.start_job(11);
    assert_eq!(
        step.ops[0],
        MachineOp::Build {
            left_rotor: RotorName::Rotor4,
            middle_rotor: RotorName::Rotor2,
            right_rotor: RotorName::Rotor1,
            reflector: ReflectorName::A,
        }
    );
    assert_eq!(scan.position_index, 0);
    let (search, first) = SolverSearch::start('E', solver.target_positions());
    assert_eq!(first.query, Query::Encrypt { advance: 0, letter: 'E', cipher_letter: 'X' });
    assert_eq!(search.job, 0);
}

#[test]
fn settings_set_up_machine() {
    let settings = EnigmaSettings {
        rotor_config: EnigmaRotorConfiguration {
            left_rotor_index: 5,
            middle_rotor_index: 1,
            right_rotor_index: 3,
            left_rotor_position: 1,
            middle_rotor_position: 2,
            right_rotor_position: 25,
        },
        transpositions: vec![('A', 'Q'), ('E', 'Z')],
        reflector: ReflectorName::B,
    };
    assert_eq!(
        settings.machine_setup(),
        vec![
            MachineOp::Build {
                left_rotor: RotorName::Rotor5,
                middle_rotor: RotorName::Rotor1,
                right_rotor: RotorName::Rotor3,
                reflector: ReflectorName::B,
            },
            MachineOp::SetRotorPositions { left: 1, middle: 2, right: 25 },
            MachineOp::SetTransposition { first: 'A', second: 'Q' },
            MachineOp::SetTransposition { first: 'E', second: 'Z' },
        ]
    );
}

#[test]
fn fifth_rotor_first_appears_at_job_twelve() {
    assert_eq!(rotor_order_exec(11), (3, 1, 0, 0));
    assert_eq!(rotor_order_exec(12), (0, 1, 4, 0));
}

#[test]
fn search_cannot_move_on_to_fifth_rotor() {
    let solver = EnigmaSolver::new("X", "e");
    let entries = solver.target_positions().clone();
    let (mut search, _) = solver.start_search();
    assert!(search.step_buildable(&entries, Event::Stopped));
    let (mut scan, _) = solver_job_scan(&solver, 11);
    scan.position_index = 17575;
    scan.search.config = EnigmaRotorConfiguration::new(3, 1, 0, 25, 25, 25);
    scan.search.candidate = 25;
    search.job = 11;
    search.scan = scan;
    assert!(!search.step_buildable(&entries, Event::Stopped));
    let hit = Event::Encrypted { output: 'X', output_plugged: false, cipher_plugged: false };
    assert!(search.step_buildable(&entries, hit));
}

fn solver_job_scan(
    solver: &EnigmaSolver,
    job: usize,
) -> (enigma_breaker::solver::RotorOrderScan, enigma_breaker::solver::machine::Step) {
    enigma_breaker::solver::start_job(job, 'E', solver.target_positions())
}

#[test]
fn both_metadata_builders_give_the_same_groups() {
    let plain = "attack at dawn";
    let cipher = "QWERTYUIOPASDF";
    let mut first = enigma_solution_utils::build_cipher_metadata(plain, cipher).letter_positions;
    let mut second =
        enigma_breaker::solver::enigma_solver_utils::build_cipher_metadata(plain, cipher).letter_positions;
    assert_eq!(first[0].1.len(), 4);
    first.sort();
    second.sort();
    assert_eq!(first, second);
}
