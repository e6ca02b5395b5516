//! The interaction step of a session: how one player input transforms the
//! session state.
//!
//! Reading the keyboard and drawing screens belong to the session driver
//! around this crate; what reaches this module is one already-decoded input
//! at a time, and the transition it causes is fully specified by
//! `user_transition`.

use vstd::prelude::*;

use crate::algorithm::best_guess_post;
use crate::state::{filter_history, Display, GameState};
use crate::util::{color_matches, exact_matches, ALPHABET_SIZE, CODE_LENGTH};

verus! {

/// One decoded player input.  `Confirm` places the symbol under the cursor
/// while guessing and accepts the default elsewhere; `Number` carries a
/// parsed digit; `Other` is any input with no meaning anywhere.
#[derive(Clone, Copy, Debug, PartialEq, Eq, Structural)]
pub enum PlayerInput {
    MoveLeft,
    MoveRight,
    DeleteSymbol,
    Confirm,
    Review,
    Quit,
    Number(u8),
    Other,
}

/// The fields an input step may never touch: everything but the guess under
/// construction, the cursor, the display, and what saving a guess or
/// processing the history updates.
pub open spec fn core_unchanged(pre: GameState, post: GameState) -> bool {
    &&& post.remaining_combinations == pre.remaining_combinations
    &&& post.combination == pre.combination
    &&& post.game_mode == pre.game_mode
    &&& post.num_processed_guesses == pre.num_processed_guesses
    &&& post.best_guesses == pre.best_guesses
    &&& post.was_victory_possible == pre.was_victory_possible
}

/// A pure navigation step: only the display may differ.
pub open spec fn display_changed(pre: GameState, post: GameState, d: Display) -> bool {
    &&& core_unchanged(pre, post)
    &&& post.past_guesses == pre.past_guesses
    &&& post.game_won == pre.game_won
    &&& post.attempt == pre.attempt
    &&& post.current_guess == pre.current_guess
    &&& post.chosen_symbol == pre.chosen_symbol
    &&& post.display == d
}

/// An editing step while guessing: the guess and the cursor change, the
/// display does not.
pub open spec fn guess_edited(pre: GameState, post: GameState, g: Seq<u8>, cursor: int) -> bool {
    &&& core_unchanged(pre, post)
    &&& post.past_guesses == pre.past_guesses
    &&& post.game_won == pre.game_won
    &&& post.attempt == pre.attempt
    &&& post.current_guess@ == g
    &&& post.chosen_symbol == cursor
    &&& post.display == pre.display
}

/// Saving a completed guess `g`: it joins the history with its true
/// feedback, a full exact count wins the game, the attempt counter and
/// entry cursor reset, and the helper mode offers a review.
pub open spec fn guess_saved(pre: GameState, post: GameState, g: Seq<u8>) -> bool {
    &&& core_unchanged(pre, post)
    &&& post.past_view() == pre.past_view().push(
        (g, exact_matches(pre.combination@, g), color_matches(pre.combination@, g)),
    )
    &&& post.past_guesses@.len() == pre.past_guesses@.len() + 1
    &&& post.game_won == (pre.game_won || exact_matches(pre.combination@, g) == CODE_LENGTH)
    &&& post.attempt == pre.attempt + 1
    &&& post.current_guess@.len() == 0
    &&& post.chosen_symbol == 0
    &&& post.display == if pre.game_mode is WithHelper {
        Display::OfferReview
    } else {
        pre.display
    }
}

/// Processing the history while reviewing: the unprocessed feedback is
/// folded into the candidate set, and the solver reports the optimal moves
/// as of just before the latest guess.
pub open spec fn history_processed(pre: GameState, post: GameState) -> bool {
    &&& post.display is ShowReviewOptions
    &&& post.num_processed_guesses == pre.past_guesses@.len()
    &&& best_guess_post(
        filter_history(
            pre.remaining_combinations.deep_view(),
            pre.past_view(),
            pre.num_processed_guesses as int,
            pre.past_guesses@.len() - 1,
        ),
        post.best_guesses.deep_view(),
        post.was_victory_possible,
    )
    &&& post.remaining_combinations.deep_view() == filter_history(
        pre.remaining_combinations.deep_view(),
        pre.past_view(),
        pre.num_processed_guesses as int,
        pre.past_guesses@.len() as int,
    )
    &&& post.combination == pre.combination
    &&& post.current_guess == pre.current_guess
    &&& post.attempt == pre.attempt
    &&& post.past_guesses == pre.past_guesses
    &&& post.game_won == pre.game_won
    &&& post.chosen_symbol == pre.chosen_symbol
    &&& post.game_mode == pre.game_mode
}

/// How one input transforms the session, screen by screen.  While guessing,
/// the cursor moves saturate at the alphabet ends, deletion drops the last
/// symbol, and placing the fourth symbol saves the guess at once.  The
/// review screens navigate, process the history, or pick a review; quitting
/// is honoured on every screen that reads input.
pub open spec fn user_transition(
    pre: GameState,
    input: PlayerInput,
    post: GameState,
    quit: bool,
) -> bool {
    match pre.display {
        Display::KeepGuessing => match input {
            PlayerInput::MoveLeft => !quit && guess_edited(
                pre,
                post,
                pre.current_guess@,
                if pre.chosen_symbol > 0 {
                    pre.chosen_symbol - 1
                } else {
                    0
                },
            ),
            PlayerInput::MoveRight => !quit && guess_edited(
                pre,
                post,
                pre.current_guess@,
                if pre.chosen_symbol + 1 < ALPHABET_SIZE as int {
                    pre.chosen_symbol + 1
                } else {
                    ALPHABET_SIZE as int - 1
                },
            ),
            PlayerInput::DeleteSymbol => !quit && guess_edited(
                pre,
                post,
                if pre.current_guess@.len() > 0 {
                    pre.current_guess@.drop_last()
                } else {
                    pre.current_guess@
                },
                pre.chosen_symbol as int,
            ),
            PlayerInput::Confirm => !quit && ({
                let pushed = pre.current_guess@.push(pre.chosen_symbol as u8);
                if pushed.len() == CODE_LENGTH {
                    guess_saved(pre, post, pushed)
                } else {
                    guess_edited(pre, post, pushed, pre.chosen_symbol as int)
                }
            }),
            PlayerInput::Quit => quit && post == pre,
            _ => !quit && post == pre,
        },
        Display::OfferReview => match input {
            PlayerInput::Review => !quit && history_processed(pre, post),
            PlayerInput::Confirm => !quit && display_changed(pre, post, Display::KeepGuessing),
            PlayerInput::Quit => quit && post == pre,
            _ => !quit && post == pre,
        },
        Display::ShowReviewOptions => match input {
            PlayerInput::Confirm => !quit && display_changed(pre, post, Display::KeepGuessing),
            PlayerInput::Quit => quit && post == pre,
            PlayerInput::Number(n) => !quit && if 1 <= n <= 3 {
                display_changed(pre, post, Display::ShowReview(n))
            } else {
                post == pre
            },
            _ => !quit && post == pre,
        },
        Display::ShowReview(_) => !quit && display_changed(pre, post, Display::ShowReviewOptions),
    }
}

/// Apply one decoded input to the session.  Returns whether the player
/// quit.  The driver shows the screen named by `display`, reads and decodes
/// one input, and calls this step; the review screen itself is drawn by the
/// driver before the step returns the session to the option list.
pub fn user_interaction(game_state: &mut GameState, input: PlayerInput) -> (quit: bool)
    requires
        old(game_state).wf(),
        old(game_state).attempt < u8::MAX,
        old(game_state).current_guess@.len() < CODE_LENGTH,
        old(game_state).game_mode is WithHelper ==> old(game_state).helper_consistent(),
        old(game_state).display is OfferReview ==> old(game_state).helper_consistent() && old(
            game_state).past_guesses@.len() > old(game_state).num_processed_guesses,
    ensures
        user_transition(*old(game_state), input, *final(game_state), quit),
        final(game_state).wf(),
        final(game_state).current_guess@.len() < CODE_LENGTH,
        old(game_state).helper_consistent() ==> final(game_state).helper_consistent(),
        final(game_state).game_mode is WithHelper ==> final(game_state).helper_consistent(),
        final(game_state).display is OfferReview ==> final(game_state).helper_consistent() && final(
            game_state).past_guesses@.len() > final(game_state).num_processed_guesses,
        final(game_state).attempt <= old(game_state).attempt + 1,
{
    match game_state.display {
        Display::KeepGuessing => {
            match input {
                PlayerInput::MoveLeft => {
                    if game_state.chosen_symbol > 0 {
                        game_state.chosen_symbol = game_state.chosen_symbol - 1;
                    }
                },
                PlayerInput::MoveRight => {
                    if game_state.chosen_symbol + 1 < ALPHABET_SIZE as usize {
                        game_state.chosen_symbol = game_state.chosen_symbol + 1;
                    }
                },
                PlayerInput::DeleteSymbol => {
                    game_state.current_guess.pop();
                },
                PlayerInput::Confirm => {
                    let s = game_state.chosen_symbol as u8;
                    game_state.current_guess.push(s);
                },
                PlayerInput::Quit => {
                    return true;
                },
                _ => {
                    return false;
                },
            }
            if game_state.current_guess.len() == CODE_LENGTH {
                game_state.save_current_guess();
            }
            false
        },
        Display::OfferReview => {
            match input {
                PlayerInput::Review => {
                    game_state.process_past_guesses();
                    false
                },
                PlayerInput::Confirm => {
                    game_state.display = Display::KeepGuessing;
                    false
                },
                PlayerInput::Quit => true,
                _ => false,
            }
        },
        Display::ShowReviewOptions => {
            match input {
                PlayerInput::Confirm => {
                    game_state.display = Display::KeepGuessing;
                    false
                },
                PlayerInput::Quit => true,
                PlayerInput::Number(n) => {
                    if 1 <= n && n <= 3 {
                        game_state.display = Display::ShowReview(n);
                    }
                    false
                },
                _ => false,
            }
        },
        Display::ShowReview(_) => {
            game_state.display = Display::ShowReviewOptions;
            false
        },
    }
}

} // verus!
