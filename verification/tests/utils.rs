use enigma_breaker::utils::permutations::{Permutations, PermutationsError};
use enigma_breaker::utils::{enumerate_n_choose_k, gospers_hack, positions_of_bits, NChooseKError};
use enigma_breaker::utils32;

#[test]
fn gosper_test_with_1() {
    let k: u32 = 1;
    let result: Vec<u32> = (1..=11)
        .scan(k, |acc, _| {
            let val = *acc;
            *acc = utils32::gospers_hack(*acc);
            Some(val)
        })
        .collect();

    assert_eq!(result, [1, 2, 4, 8, 16, 32, 64, 128, 256, 512, 1024])
}

#[test]
fn test_gospers_hack_with_1() {
    let k: usize = 1;
    let result: Vec<usize> = (1..=11)
        .scan(k, |acc, _| {
            let val = *acc;
            *acc = gospers_hack(*acc);
            Some(val)
        })
        .collect();

    assert_eq!(result, [1, 2, 4, 8, 16, 32, 64, 128, 256, 512, 1024])
}

#[test]
fn test_permutations_find_next() {
    let a = [5, 3, 2, 4];
    let p = Permutations::new(a);
    assert_eq!(p.find_next_bigger_neighbor(2).unwrap(), 3);
    assert_eq!(p.find_next_bigger_neighbor(4).unwrap(), 5);
    assert_eq!(
        p.find_next_bigger_neighbor(5).unwrap_err(),
        PermutationsError::ElementIsBiggest
    );
    assert_eq!(
        p.find_next_bigger_neighbor(17).unwrap_err(),
        PermutationsError::ElementNotFound
    );
}

#[test]
fn gospers_hack_keeps_popcount_and_grows() {
    assert_eq!(gospers_hack(0b0111), 0b1011);
    assert_eq!(gospers_hack(0b1011), 0b1101);
    assert_eq!(gospers_hack(0b1101), 0b1110);
    assert_eq!(gospers_hack(0b1110), 0b10011);
    assert_eq!(utils32::gospers_hack(0b0110), 0b1001);
}

#[test]
fn positions_of_bits_are_one_based_and_padded() {
    assert_eq!(positions_of_bits::<5, 3>(0b10101), [1, 3, 5]);
    assert_eq!(positions_of_bits::<5, 3>(0b00110), [2, 3, 0]);
    assert_eq!(positions_of_bits::<3, 2>(0b11000), [0, 0]);
}

#[test]
fn five_choose_three_visits_every_subset_in_mask_order() {
    let mut e = match enumerate_n_choose_k::<5, 3>() {
        Ok(e) => e,
        Err(_) => panic!("5 choose 3 is valid"),
    };
    let mut all: Vec<[u8; 3]> = Vec::new();
    while let Some(subset) = e.next() {
        all.push(subset);
    }
    assert_eq!(
        all,
        vec![
            [1, 2, 3],
            [1, 2, 4],
            [1, 3, 4],
            [2, 3, 4],
            [1, 2, 5],
            [1, 3, 5],
            [2, 3, 5],
            [1, 4, 5],
            [2, 4, 5],
            [3, 4, 5],
        ]
    );
    assert!(e.next().is_none());
    assert!(e.next().is_none());
    assert!(e.next().is_none());
}

#[test]
fn n_choose_n_has_one_subset() {
    let mut e = match enumerate_n_choose_k::<4, 4>() {
        Ok(e) => e,
        Err(_) => panic!("4 choose 4 is valid"),
    };
    assert_eq!(e.next(), Some([1, 2, 3, 4]));
    assert_eq!(e.next(), None);
}

#[test]
fn n_choose_k_errors() {
    assert!(matches!(enumerate_n_choose_k::<65, 3>(), Err(NChooseKError::NTooBig)));
    assert!(matches!(
        enumerate_n_choose_k::<3, 4>(),
        Err(NChooseKError::KTooBig { n: 3, k: 4 })
    ));
    assert!(matches!(enumerate_n_choose_k::<0, 0>(), Err(NChooseKError::NTooSmall)));
    assert!(matches!(enumerate_n_choose_k::<3, 0>(), Err(NChooseKError::KTooSmall)));
}

#[test]
fn n_choose_k_errors_on_32_bit_masks() {
    assert_eq!(utils32::enumerate_n_choose_k(40, 33), Err(utils32::NChooseKError::NTooBig));
    assert_eq!(
        utils32::enumerate_n_choose_k(3, 5),
        Err(utils32::NChooseKError::MTooBig { n: 3, m: 5 })
    );
    assert_eq!(utils32::enumerate_n_choose_k(0, 0), Err(utils32::NChooseKError::NTooSmall));
    assert_eq!(utils32::enumerate_n_choose_k(4, 0), Err(utils32::NChooseKError::MTooSmall));
    assert_eq!(utils32::enumerate_n_choose_k(5, 3), Ok(()));
}

#[test]
fn permutations_sort_and_repeat() {
    let mut p = Permutations::new([9, 1, 4]);
    assert_eq!(p.next(), Some([1, 4, 9]));
    assert_eq!(p.next(), Some([1, 4, 9]));
    assert_eq!(p.find_next_bigger_neighbor(1), Ok(4));
    assert_eq!(p.find_next_bigger_neighbor(9), Err(PermutationsError::ElementIsBiggest));
}
