//! Tests of the feedback classifier and the similarity predicate.

use mastermind::util::{are_similar, classify, determine_hits, is_valid_code, InvalidCodeError};

#[test]
fn classify_regression_fixture() {
    // Secret with four distinct symbols against the two-pair opening guess:
    // one exact position, one colour-only match.
    let secret = vec![0u8, 1, 2, 3];
    let guess = vec![0u8, 0, 1, 1];
    assert_eq!(determine_hits(&secret, &guess), (1, 1));
}

#[test]
fn classify_self_match() {
    for code in [
        vec![0u8, 0, 0, 0],
        vec![0u8, 1, 2, 3],
        vec![5u8, 5, 5, 5],
        vec![3u8, 1, 4, 1],
    ] {
        assert_eq!(determine_hits(&code, &code), (4, 0));
    }
}

#[test]
fn classify_symmetric_samples() {
    let codes = [
        vec![0u8, 0, 1, 1],
        vec![0u8, 1, 2, 3],
        vec![5u8, 4, 3, 2],
        vec![1u8, 1, 1, 2],
        vec![2u8, 0, 2, 0],
        vec![3u8, 3, 0, 5],
    ];
    for a in &codes {
        for b in &codes {
            assert_eq!(determine_hits(a, b), determine_hits(b, a));
        }
    }
}

#[test]
fn classify_bound_and_excluded_pair() {
    // Over a spread of pairs: the counts sum to at most 4 and (3, 1) never
    // appears.
    let mut samples: Vec<Vec<u8>> = Vec::new();
    for i in 0..1296usize {
        samples.push(vec![
            ((i / 216) % 6) as u8,
            ((i / 36) % 6) as u8,
            ((i / 6) % 6) as u8,
            (i % 6) as u8,
        ]);
    }
    let probes = [
        vec![0u8, 0, 0, 0],
        vec![0u8, 0, 1, 1],
        vec![0u8, 1, 2, 3],
        vec![5u8, 0, 5, 0],
        vec![2u8, 2, 4, 4],
    ];
    for a in &samples {
        for b in &probes {
            let (e, c) = determine_hits(a, b);
            assert!(e + c <= 4);
            assert_ne!((e, c), (3, 1));
        }
    }
}

#[test]
fn classify_known_values() {
    assert_eq!(
        determine_hits(&vec![0u8, 0, 1, 1], &vec![1u8, 1, 0, 0]),
        (0, 4)
    );
    assert_eq!(
        determine_hits(&vec![0u8, 1, 2, 3], &vec![3u8, 2, 1, 0]),
        (0, 4)
    );
    assert_eq!(
        determine_hits(&vec![0u8, 0, 0, 1], &vec![0u8, 0, 1, 1]),
        (3, 0)
    );
    assert_eq!(
        determine_hits(&vec![0u8, 0, 1, 2], &vec![0u8, 1, 1, 1]),
        (2, 0)
    );
    assert_eq!(
        determine_hits(&vec![0u8, 1, 2, 3], &vec![4u8, 5, 4, 5]),
        (0, 0)
    );
    assert_eq!(
        determine_hits(&vec![0u8, 0, 2, 2], &vec![2u8, 2, 0, 0]),
        (0, 4)
    );
}

#[test]
fn classify_rejects_wrong_length() {
    let short = vec![0u8, 1, 2];
    let long = vec![0u8, 1, 2, 3, 4];
    let good = vec![0u8, 1, 2, 3];
    assert_eq!(classify(&short, &good), Err(InvalidCodeError));
    assert_eq!(classify(&good, &long), Err(InvalidCodeError));
}

#[test]
fn classify_rejects_bad_symbol() {
    let bad = vec![0u8, 1, 2, 6];
    let good = vec![0u8, 1, 2, 3];
    assert_eq!(classify(&bad, &good), Err(InvalidCodeError));
    assert_eq!(classify(&good, &bad), Err(InvalidCodeError));
}

#[test]
fn classify_accepts_valid_codes() {
    let a = vec![0u8, 1, 2, 3];
    let b = vec![0u8, 0, 1, 1];
    assert_eq!(classify(&a, &b), Ok((1, 1)));
}

#[test]
fn code_validity() {
    assert!(is_valid_code(&vec![0u8, 5, 3, 2]));
    assert!(!is_valid_code(&vec![0u8, 5, 3]));
    assert!(!is_valid_code(&vec![0u8, 5, 3, 6]));
    assert!(!is_valid_code(&vec![0u8, 5, 3, 2, 1]));
}

#[test]
fn similarity_reflexive() {
    for code in [vec![0u8, 0, 0, 0], vec![0u8, 1, 2, 3], vec![5u8, 4, 5, 4]] {
        assert!(are_similar(&code, &code));
    }
}

#[test]
fn similarity_examples() {
    // Three exact matches: similar.
    assert!(are_similar(&vec![0u8, 0, 0, 1], &vec![0u8, 0, 0, 2]));
    // Four colour-only matches: exact + colour == 4, similar.
    assert!(are_similar(&vec![0u8, 0, 1, 1], &vec![1u8, 1, 0, 0]));
    // Nothing shared: not similar.
    assert!(!are_similar(&vec![0u8, 1, 2, 3], &vec![4u8, 5, 4, 5]));
    // Two exact matches and nothing else: not similar.
    assert!(!are_similar(&vec![0u8, 0, 1, 2], &vec![0u8, 1, 1, 1]));
}
