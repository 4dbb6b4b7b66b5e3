use enigma_breaker::breaker::search::{BreakerQuery, BreakerSearch};
use enigma_breaker::breaker::{EnigmaBreaker, EnigmaRotorConfiguration};
use enigma_breaker::solver::machine::{Event, MachineOp, ReflectorName, RotorName};

fn any_output() -> Event {
    Event::Encrypted { output: 'Z', output_plugged: false, cipher_plugged: false }
}

fn first_position_ops(target: char) -> Vec<MachineOp> {
    vec![
        MachineOp::Build {
            left_rotor: RotorName::Rotor2,
            middle_rotor: RotorName::Rotor1,
            right_rotor: RotorName::Rotor3,
            reflector: ReflectorName::B,
        },
        MachineOp::SetRotorPositions { left: 1, middle: 5, right: 17 },
        MachineOp::SetTransposition { first: target, second: 'H' },
    ]
}

#[test]
fn frequency_order_most_frequent_first_then_alphabetical() {
    let metadata = EnigmaBreaker::build_cipher_metadata("hello");
    let order = &metadata.letter_frequency_order;
    assert_eq!(order.len(), 26);
    assert_eq!(&order[..5], &[('L', 2), ('E', 1), ('H', 1), ('O', 1), ('A', 0)]);
    assert_eq!(order[5], ('B', 0));
    assert_eq!(order[25], ('Z', 0));
}

#[test]
fn frequency_order_of_empty_text_is_alphabetical() {
    let metadata = EnigmaBreaker::build_cipher_metadata("");
    let letters: String = metadata.letter_frequency_order.iter().map(|&(c, _)| c).collect();
    assert_eq!(letters, "ABCDEFGHIJKLMNOPQRSTUVWXYZ");
    assert!(metadata.letter_frequency_order.iter().all(|&(_, n)| n == 0));
}

#[test]
fn breaker_targets_most_frequent_letter() {
    let breaker = EnigmaBreaker::new("ABCDE", "hello");
    assert_eq!(breaker.target_letter(), 'L');
    assert!(breaker.scan_ready());
    assert_eq!(breaker.known_plain_text_cipher_break("ABCDE", "hello"), "");
}

#[test]
fn scan_needs_cipher_at_every_target_place() {
    let breaker = EnigmaBreaker::new("AB", "hello");
    assert!(!breaker.scan_ready());
}

#[test]
fn scan_walks_the_plain_text() {
    let breaker = EnigmaBreaker::new("ABCDE", "hello");
    let (mut search, step) = breaker.start_search();
    assert_eq!(step.ops, first_position_ops('L'));
    assert_eq!(step.query, BreakerQuery::Encrypt { letter: 'H' });
    let step = breaker.observe(&mut search, any_output());
    assert_eq!(step.query, BreakerQuery::Encrypt { letter: 'E' });
    let step = breaker.observe(&mut search, any_output());
    assert_eq!(step.query, BreakerQuery::EncryptChecked { letter: 'L', cipher_letter: 'C' });
    let step = breaker.observe(
        &mut search,
        Event::Encrypted { output: 'Q', output_plugged: false, cipher_plugged: false },
    );
    assert_eq!(step.ops, vec![MachineOp::SetTransposition { first: 'Q', second: 'C' }]);
    assert_eq!(step.query, BreakerQuery::EncryptChecked { letter: 'L', cipher_letter: 'D' });
    let step = breaker.observe(
        &mut search,
        Event::Encrypted { output: 'D', output_plugged: false, cipher_plugged: false },
    );
    assert!(step.ops.is_empty());
    assert_eq!(step.query, BreakerQuery::Encrypt { letter: 'O' });
    let step = breaker.observe(&mut search, any_output());
    assert_eq!(step.query, BreakerQuery::Found);
    let step = breaker.observe(&mut search, any_output());
    assert_eq!(step.ops, first_position_ops('L'));
    assert_eq!(step.query, BreakerQuery::Encrypt { letter: 'H' });
    assert_eq!(search.position_index, 1);
}

#[test]
fn scan_conflict_moves_to_next_position() {
    let breaker = EnigmaBreaker::new("ABCDE", "hello");
    let (mut search, _) = breaker.start_search();
    breaker.observe(&mut search, any_output());
    breaker.observe(&mut search, any_output());
    let step = breaker.observe(
        &mut search,
        Event::Encrypted { output: 'Q', output_plugged: true, cipher_plugged: false },
    );
    let mut expected = vec![MachineOp::ClearTranspositions];
    expected.extend(first_position_ops('L'));
    assert_eq!(step.ops, expected);
    assert_eq!(step.query, BreakerQuery::Encrypt { letter: 'H' });
    assert_eq!(search.position_index, 1);
    assert_eq!(search.char_index, 0);
}

#[test]
fn scan_reads_cipher_at_byte_offsets() {
    let breaker = EnigmaBreaker::new("ABCD", "\u{141}ll");
    assert_eq!(breaker.target_letter(), 'L');
    let (mut search, step) = breaker.start_search();
    assert_eq!(step.query, BreakerQuery::Encrypt { letter: '\u{141}' });
    let step = breaker.observe(&mut search, any_output());
    assert_eq!(step.query, BreakerQuery::EncryptChecked { letter: 'L', cipher_letter: 'C' });
    let step = breaker.observe(
        &mut search,
        Event::Encrypted { output: 'C', output_plugged: false, cipher_plugged: false },
    );
    assert_eq!(step.query, BreakerQuery::EncryptChecked { letter: 'L', cipher_letter: 'D' });
}

#[test]
fn scan_ends_after_last_position() {
    let plain: Vec<char> = vec!['E'];
    let cipher: Vec<char> = vec!['X'];
    let (mut search, _) = BreakerSearch::start(&plain, &cipher, 'E', 1, 0, 2, ReflectorName::B);
    let conflict = Event::Encrypted { output: 'Q', output_plugged: true, cipher_plugged: false };
    let mut last = None;
    for _ in 0..17576 {
        last = Some(search.observe(&plain, &cipher, conflict).query);
    }
    assert_eq!(last, Some(BreakerQuery::Exhausted));
    assert!(search.finished);
}

#[test]
fn rotor_configuration_ops() {
    let config = EnigmaRotorConfiguration::new(1, 0, 2, 1, 5, 17);
    assert_eq!(EnigmaRotorConfiguration::rotor_index_to_rotor(4), RotorName::Rotor5);
    assert_eq!(
        config.to_enigma(ReflectorName::B),
        vec![
            MachineOp::Build {
                left_rotor: RotorName::Rotor2,
                middle_rotor: RotorName::Rotor1,
                right_rotor: RotorName::Rotor3,
                reflector: ReflectorName::B,
            },
            MachineOp::SetRotorPositions { left: 1, middle: 5, right: 17 },
        ]
    );
    let pairs = vec![('A', 'B'), ('C', 'D')];
    assert_eq!(
        EnigmaBreaker::set_enigma_state_by_transpositions_and_rotor_config(&config, Some(&pairs)),
        vec![
            MachineOp::SetRotorPositions { left: 1, middle: 5, right: 17 },
            MachineOp::ClearTranspositions,
            MachineOp::SetTransposition { first: 'A', second: 'B' },
            MachineOp::SetTransposition { first: 'C', second: 'D' },
        ]
    );
    assert_eq!(
        EnigmaBreaker::set_enigma_state_by_transpositions_and_rotor_config(&config, None),
        vec![
            MachineOp::SetRotorPositions { left: 1, middle: 5, right: 17 },
            MachineOp::ClearTranspositions,
        ]
    );
}

#[test]
fn aligned_letters_are_counted_case_insensitively() {
    assert_eq!(EnigmaBreaker::count_aligned_letters(&vec!['H', 'E', 'X'], "hello"), 2);
    assert_eq!(EnigmaBreaker::count_aligned_letters(&vec!['H', 'E', 'L', 'L', 'O', 'S'], "hello"), 5);
    assert_eq!(EnigmaBreaker::count_aligned_letters(&vec![], "hello"), 0);
}
