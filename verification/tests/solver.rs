//! Tests of the minimax guess selector and its scoring function.

use mastermind::algorithm::{max_possible_outcomes, next_best_guesses};
use mastermind::util::{determine_hits, filter_codes};

#[test]
fn singleton_candidate_set() {
    let cands = vec![vec![1u8, 2, 3, 4]];
    let (best, forced) = next_best_guesses(&cands);
    assert_eq!(best, vec![vec![1u8, 2, 3, 4]]);
    assert!(forced);
}

#[test]
fn two_candidates_both_optimal() {
    // Either candidate distinguishes the two, so both are optimal and both
    // are live: the tied set narrows to exactly them, and a win is
    // possible.
    let a = vec![0u8, 0, 0, 0];
    let b = vec![1u8, 1, 1, 1];
    let (best, forced) = next_best_guesses(&vec![a.clone(), b.clone()]);
    assert!(forced);
    assert_eq!(best, vec![a, b]);
}

#[test]
fn three_spread_candidates_forced_win_impossible() {
    // Three candidates with no symbol in common: every candidate guess
    // lumps the other two together, while an outside guess can split all
    // three.  The optimal guesses are therefore all outside the candidate
    // set.
    let cands = vec![
        vec![0u8, 0, 0, 0],
        vec![1u8, 1, 1, 1],
        vec![2u8, 2, 2, 2],
    ];
    let (best, forced) = next_best_guesses(&cands);
    assert!(!forced);
    assert!(!best.is_empty());
    for g in &best {
        assert!(!cands.contains(g));
        // Each optimal guess distinguishes all three candidates.
        let f0 = determine_hits(&cands[0], g);
        let f1 = determine_hits(&cands[1], g);
        let f2 = determine_hits(&cands[2], g);
        assert_ne!(f0, f1);
        assert_ne!(f0, f2);
        assert_ne!(f1, f2);
    }
}

#[test]
fn scoring_matches_worst_bucket() {
    let cands = vec![
        vec![0u8, 0, 0, 0],
        vec![1u8, 1, 1, 1],
        vec![2u8, 2, 2, 2],
    ];
    // This guess splits the three candidates into three distinct feedback
    // categories, so its worst bucket holds one candidate.
    assert_eq!(max_possible_outcomes(&cands, &vec![0u8, 0, 0, 1], 3), 1);
    // A candidate guess isolates itself but lumps the other two together.
    assert_eq!(max_possible_outcomes(&cands, &vec![0u8, 0, 0, 0], 3), 2);
}

#[test]
fn scoring_prunes_past_the_running_minimum() {
    let cands = vec![
        vec![0u8, 0, 0, 0],
        vec![1u8, 1, 1, 1],
        vec![2u8, 2, 2, 2],
    ];
    // With a running minimum of zero every guess is pruned: the result
    // only promises to exceed the minimum.
    let r = max_possible_outcomes(&cands, &vec![0u8, 0, 0, 0], 0);
    assert!(r > 0);
}

#[test]
fn filtering_by_feedback() {
    let cands = vec![
        vec![0u8, 0, 0, 0],
        vec![0u8, 0, 0, 1],
        vec![1u8, 1, 1, 1],
        vec![0u8, 1, 0, 0],
    ];
    let guess = vec![0u8, 0, 0, 0];
    // Codes agreeing with the guess in exactly three places, nothing else
    // shared.
    let kept = filter_codes(&cands, &guess, 3, 0);
    assert_eq!(kept, vec![vec![0u8, 0, 0, 1], vec![0u8, 1, 0, 0]]);
    // Filtering again with the same pair changes nothing.
    let again = filter_codes(&kept, &guess, 3, 0);
    assert_eq!(again, kept);
}

#[test]
fn filtering_keeps_the_secret() {
    let secret = vec![3u8, 1, 4, 1];
    let mut cands = Vec::new();
    for i in 0..1296usize {
        cands.push(vec![
            ((i / 216) % 6) as u8,
            ((i / 36) % 6) as u8,
            ((i / 6) % 6) as u8,
            (i % 6) as u8,
        ]);
    }
    let guess = vec![0u8, 0, 1, 1];
    let (e, w) = determine_hits(&secret, &guess);
    let kept = filter_codes(&cands, &guess, e, w);
    assert!(kept.contains(&secret));
    assert!(kept.len() < cands.len());
}
