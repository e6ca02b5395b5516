//! Tests of the session state and the interaction step.

use mastermind::game::{user_interaction, PlayerInput};
use mastermind::state::{Display, GameMode, GameState};
use mastermind::util::{all_combinations, filter_codes, is_valid_code};

#[test]
fn new_normal_session() {
    let s = GameState::new(GameMode::Normal);
    assert!(s.remaining_combinations.is_empty());
    assert!(s.current_guess.is_empty());
    assert!(is_valid_code(&s.combination));
    assert_eq!(s.attempt, 1);
    assert!(s.past_guesses.is_empty());
    assert!(!s.game_won);
    assert!(s.best_guesses.is_empty());
    assert!(s.was_victory_possible);
    assert_eq!(s.chosen_symbol, 0);
    assert_eq!(s.display, Display::KeepGuessing);
}

#[test]
fn new_helper_session_seeds_the_universe() {
    let s = GameState::new(GameMode::WithHelper);
    assert_eq!(s.remaining_combinations, all_combinations());
    assert!(s.current_guess.is_empty());
    assert!(s.remaining_combinations.contains(&s.combination));
}

#[test]
fn new_simulated_session_opens_with_two_pairs() {
    let s = GameState::new(GameMode::Simulated);
    assert_eq!(s.current_guess, vec![0u8, 0, 1, 1]);
    assert_eq!(s.remaining_combinations.len(), 1296);
}

#[test]
fn save_current_guess_records_feedback() {
    let mut s = GameState::new(GameMode::Normal);
    s.combination = vec![0u8, 1, 2, 3];
    s.current_guess = vec![0u8, 0, 1, 1];
    s.chosen_symbol = 3;
    s.save_current_guess();
    assert_eq!(s.past_guesses, vec![(vec![0u8, 0, 1, 1], 1, 1)]);
    assert_eq!(s.attempt, 2);
    assert!(s.current_guess.is_empty());
    assert_eq!(s.chosen_symbol, 0);
    assert!(!s.game_won);
    assert_eq!(s.display, Display::KeepGuessing);
}

#[test]
fn save_current_guess_detects_the_win() {
    let mut s = GameState::new(GameMode::Normal);
    s.combination = vec![2u8, 5, 0, 4];
    s.current_guess = vec![2u8, 5, 0, 4];
    s.save_current_guess();
    assert!(s.game_won);
    assert_eq!(s.past_guesses, vec![(vec![2u8, 5, 0, 4], 4, 0)]);
}

#[test]
fn save_in_helper_mode_offers_review() {
    let mut s = GameState::new(GameMode::WithHelper);
    s.combination = vec![0u8, 1, 2, 3];
    s.current_guess = vec![4u8, 4, 5, 5];
    s.save_current_guess();
    assert_eq!(s.display, Display::OfferReview);
}

#[test]
fn process_past_guesses_narrows_candidates() {
    let mut s = GameState::new(GameMode::WithHelper);
    s.combination = vec![0u8, 1, 2, 3];
    s.current_guess = vec![0u8, 0, 1, 1];
    s.save_current_guess();
    s.process_past_guesses();
    assert_eq!(s.display, Display::ShowReviewOptions);
    assert_eq!(s.num_processed_guesses, 1);
    // The candidate set is the universe narrowed by the recorded feedback.
    let expected = filter_codes(&all_combinations(), &vec![0u8, 0, 1, 1], 1, 1);
    assert_eq!(s.remaining_combinations, expected);
    assert!(s.remaining_combinations.contains(&s.combination));
    // The solver ran on the set as it stood before that guess: the full
    // universe, where every optimal guess is live.
    assert!(!s.best_guesses.is_empty());
    assert!(s.was_victory_possible);
}

#[test]
fn similar_best_guesses_filters_recommendations() {
    let mut s = GameState::new(GameMode::Normal);
    s.combination = vec![0u8, 1, 2, 3];
    s.current_guess = vec![0u8, 0, 1, 1];
    s.save_current_guess();
    s.best_guesses = vec![
        vec![0u8, 0, 1, 2], // three positions agree with the last guess
        vec![1u8, 1, 0, 0], // all four symbols shared, wrong positions
        vec![4u8, 5, 4, 5], // nothing shared
    ];
    let similar = s.similar_best_guesses();
    assert_eq!(
        similar,
        vec![vec![0u8, 0, 1, 2], vec![1u8, 1, 0, 0]]
    );
}

#[test]
fn next_simulated_guess_plays_a_recommendation() {
    let mut s = GameState::new(GameMode::Simulated);
    // Narrow to a tiny set so the step is cheap and predictable.
    s.remaining_combinations = vec![vec![3u8, 3, 3, 3]];
    s.next_simulated_guess();
    assert_eq!(s.current_guess, vec![3u8, 3, 3, 3]);
    assert_eq!(s.best_guesses, vec![vec![3u8, 3, 3, 3]]);
    assert!(s.was_victory_possible);
    assert_eq!(s.attempt, 2);
}

#[test]
fn interaction_moves_the_cursor() {
    let mut s = GameState::new(GameMode::Normal);
    assert!(!user_interaction(&mut s, PlayerInput::MoveLeft));
    assert_eq!(s.chosen_symbol, 0); // saturates at the left end
    assert!(!user_interaction(&mut s, PlayerInput::MoveRight));
    assert_eq!(s.chosen_symbol, 1);
    for _ in 0..10 {
        user_interaction(&mut s, PlayerInput::MoveRight);
    }
    assert_eq!(s.chosen_symbol, 5); // saturates at the right end
    assert!(!user_interaction(&mut s, PlayerInput::MoveLeft));
    assert_eq!(s.chosen_symbol, 4);
}

#[test]
fn interaction_builds_and_saves_a_guess() {
    let mut s = GameState::new(GameMode::Normal);
    s.combination = vec![0u8, 1, 2, 3];
    // Place 0, 0, then 1, 1: the fourth symbol completes and saves the
    // guess.
    user_interaction(&mut s, PlayerInput::Confirm);
    user_interaction(&mut s, PlayerInput::Confirm);
    user_interaction(&mut s, PlayerInput::MoveRight);
    user_interaction(&mut s, PlayerInput::Confirm);
    assert_eq!(s.current_guess, vec![0u8, 0, 1]);
    user_interaction(&mut s, PlayerInput::Confirm);
    assert!(s.current_guess.is_empty());
    assert_eq!(s.past_guesses, vec![(vec![0u8, 0, 1, 1], 1, 1)]);
    assert_eq!(s.attempt, 2);
}

#[test]
fn interaction_deletes_a_symbol() {
    let mut s = GameState::new(GameMode::Normal);
    user_interaction(&mut s, PlayerInput::Confirm);
    user_interaction(&mut s, PlayerInput::Confirm);
    assert_eq!(s.current_guess, vec![0u8, 0]);
    user_interaction(&mut s, PlayerInput::DeleteSymbol);
    assert_eq!(s.current_guess, vec![0u8]);
    user_interaction(&mut s, PlayerInput::DeleteSymbol);
    user_interaction(&mut s, PlayerInput::DeleteSymbol); // deleting nothing is harmless
    assert!(s.current_guess.is_empty());
}

#[test]
fn interaction_quit_and_ignored_inputs() {
    let mut s = GameState::new(GameMode::Normal);
    assert!(user_interaction(&mut s, PlayerInput::Quit));
    assert!(!user_interaction(&mut s, PlayerInput::Review));
    assert!(!user_interaction(&mut s, PlayerInput::Other));
    assert!(s.current_guess.is_empty());
    assert_eq!(s.display, Display::KeepGuessing);
}

#[test]
fn interaction_review_flow() {
    let mut s = GameState::new(GameMode::WithHelper);
    s.combination = vec![0u8, 1, 2, 3];
    s.current_guess = vec![0u8, 0, 1];
    // Completing the guess in helper mode offers a review.
    assert!(!user_interaction(&mut s, PlayerInput::MoveRight));
    assert!(!user_interaction(&mut s, PlayerInput::Confirm));
    assert_eq!(s.display, Display::OfferReview);
    // Declining returns to guessing; re-offering and accepting processes
    // the history.
    assert!(!user_interaction(&mut s, PlayerInput::Confirm));
    assert_eq!(s.display, Display::KeepGuessing);
    s.display = Display::OfferReview;
    assert!(!user_interaction(&mut s, PlayerInput::Review));
    assert_eq!(s.display, Display::ShowReviewOptions);
    assert_eq!(s.num_processed_guesses, 1);
    // Picking a review shows it, and it hands back to the option list.
    assert!(!user_interaction(&mut s, PlayerInput::Number(2)));
    assert_eq!(s.display, Display::ShowReview(2));
    assert!(!user_interaction(&mut s, PlayerInput::Other));
    assert_eq!(s.display, Display::ShowReviewOptions);
    // An out-of-range pick is ignored; accepting leaves the review.
    assert!(!user_interaction(&mut s, PlayerInput::Number(7)));
    assert_eq!(s.display, Display::ShowReviewOptions);
    assert!(!user_interaction(&mut s, PlayerInput::Confirm));
    assert_eq!(s.display, Display::KeepGuessing);
}
