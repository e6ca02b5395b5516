//! End-to-end scenarios: the opening recommendation on the full universe,
//! and convergence of repeated solving to the secret.

use mastermind::algorithm::next_best_guesses;
use mastermind::util::{all_combinations, determine_hits, filter_codes, random_combination};

#[test]
fn opening_guess_on_the_full_universe() {
    let universe = all_combinations();
    let (best, forced) = next_best_guesses(&universe);
    // Every guess is a live candidate here, so a win is always possible.
    assert!(forced);
    // The earliest optimal opening is the two-pair pattern.
    assert_eq!(best[0], vec![0u8, 0, 1, 1]);
}

#[test]
fn solver_converges_within_five_rounds() {
    let universe = all_combinations();
    // The opening recommendation does not depend on the secret: compute it
    // once.
    let (opening, _) = next_best_guesses(&universe);
    let first_guess = opening[0].clone();

    let mut secrets = vec![
        vec![0u8, 1, 2, 3],
        vec![5u8, 5, 5, 5],
        vec![0u8, 0, 0, 0],
    ];
    for _ in 0..3 {
        secrets.push(random_combination());
    }

    for secret in &secrets {
        let mut candidates = universe.clone();
        let mut rounds = 0usize;
        let mut guess = first_guess.clone();
        loop {
            let (e, w) = determine_hits(secret, &guess);
            candidates = filter_codes(&candidates, &guess, e, w);
            rounds += 1;
            assert!(candidates.contains(secret));
            if candidates.len() == 1 {
                break;
            }
            assert!(rounds < 5, "secret {:?} not cornered in five rounds", secret);
            let (best, _) = next_best_guesses(&candidates);
            guess = best[0].clone();
        }
        assert_eq!(&candidates[0], secret);
        assert!(rounds <= 5);
    }
}
