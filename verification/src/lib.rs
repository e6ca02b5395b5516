//! A solver core for a four-position, six-symbol code-guessing game.
//!
//! A hidden code is a sequence of `CODE_LENGTH` symbols drawn from an
//! alphabet of `ALPHABET_SIZE` values.  After each guess the guesser learns a
//! feedback pair: how many positions match exactly, and how many further
//! symbols occur in the code but at a different position.  This crate holds
//! the feedback classifier, the catalog of feedback categories, the minimax
//! guess selector, and the session state that ties them together.

pub mod algorithm;
pub mod game;
pub mod state;
pub mod util;
