//! Tests of code-space enumeration, the response catalog, and random draws.

use mastermind::algorithm::all_responses;
use mastermind::util::{all_combinations, is_valid_code, random_combination};

#[test]
fn all_combinations_count() {
    let all = all_combinations();
    assert_eq!(all.len(), 1296);
}

#[test]
fn all_combinations_order() {
    let all = all_combinations();
    assert_eq!(all[0], vec![0u8, 0, 0, 0]);
    assert_eq!(all[1], vec![0u8, 0, 0, 1]);
    assert_eq!(all[6], vec![0u8, 0, 1, 0]);
    assert_eq!(all[7], vec![0u8, 0, 1, 1]);
    assert_eq!(all[216], vec![1u8, 0, 0, 0]);
    assert_eq!(all[1295], vec![5u8, 5, 5, 5]);
    // The enumeration reads each index as four base-6 digits.
    for (i, code) in all.iter().enumerate() {
        let expected = vec![
            ((i / 216) % 6) as u8,
            ((i / 36) % 6) as u8,
            ((i / 6) % 6) as u8,
            (i % 6) as u8,
        ];
        assert_eq!(*code, expected);
    }
}

#[test]
fn all_combinations_valid_and_distinct() {
    let all = all_combinations();
    for code in &all {
        assert!(is_valid_code(code));
    }
    // Distinctness follows from the order check; spot-check a window.
    for i in 0..100 {
        for j in (i + 1)..100 {
            assert_ne!(all[i], all[j]);
        }
    }
}

#[test]
fn response_catalog_contents() {
    let responses = all_responses();
    let expected: Vec<(usize, usize)> = vec![
        (0, 4),
        (0, 3),
        (0, 2),
        (0, 1),
        (0, 0),
        (1, 3),
        (1, 2),
        (1, 1),
        (1, 0),
        (2, 2),
        (2, 1),
        (2, 0),
        (3, 0),
        (4, 0),
    ];
    assert_eq!(responses, expected);
}

#[test]
fn response_catalog_complete_and_sound() {
    let responses = all_responses();
    for e in 0..5usize {
        for w in 0..5usize {
            let legitimate = e + w <= 4 && !(e == 3 && w == 1);
            assert_eq!(responses.contains(&(e, w)), legitimate);
        }
    }
}

#[test]
fn random_combination_always_valid() {
    for _ in 0..200 {
        let code = random_combination();
        assert!(is_valid_code(&code));
    }
}
