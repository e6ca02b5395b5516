//! Session state: the hidden code, the guess under construction, the
//! feedback history, and the candidate set it induces.

use vstd::prelude::*;

use crate::algorithm::{best_guess_post, next_best_guesses};
use crate::util::{
    all_combinations, clone_code, code_universe, color_matches, determine_hits, exact_matches,
    filter_codes, filter_feedback, lemma_filter_sound, lemma_filter_stable,
    lemma_universe_complete, random_combination, similar_spec, valid_code, valid_codes,
    are_similar, ALPHABET_SIZE, CODE_LENGTH,
};

verus! {

/// Which screen the session driver should present next.
#[derive(Clone, Copy, Debug, PartialEq, Eq, Structural)]
pub enum Display {
    KeepGuessing,
    OfferReview,
    ShowReviewOptions,
    ShowReview(u8),
}

/// How a session is being played: unaided, with the review helper, or fully
/// simulated by the solver.
#[derive(Clone, Copy, Debug, PartialEq, Eq, Structural)]
pub enum GameMode {
    Normal,
    WithHelper,
    Simulated,
}

/// The state of one session.
pub struct GameState {
    /// Codes still consistent with every feedback pair processed so far.
    pub remaining_combinations: Vec<Vec<u8>>,
    /// The guess under construction, at most `CODE_LENGTH` symbols.
    pub current_guess: Vec<u8>,
    /// How the session is played; fixed at construction.
    pub game_mode: GameMode,
    /// The hidden code.
    pub combination: Vec<u8>,
    /// The number of the attempt about to be made, starting at 1.
    pub attempt: u8,
    /// Every completed guess with its feedback pair.
    pub past_guesses: Vec<(Vec<u8>, usize, usize)>,
    /// Whether a guess has matched the hidden code exactly.
    pub game_won: bool,
    /// How many entries of `past_guesses` have been folded into
    /// `remaining_combinations`.
    pub num_processed_guesses: usize,
    /// The tied minimax-optimal guesses of the latest solver run.
    pub best_guesses: Vec<Vec<u8>>,
    /// Whether any of `best_guesses` was itself a live candidate.
    pub was_victory_possible: bool,
    /// The symbol index under the selection cursor.
    pub chosen_symbol: usize,
    /// Which screen to present next.
    pub display: Display,
}

impl GameState {
    /// The feedback history as a mathematical sequence of
    /// `(guess, exact, color)` triples.
    pub open spec fn past_view(self) -> Seq<(Seq<u8>, int, int)> {
        Seq::new(
            self.past_guesses@.len(),
            |i: int|
                (
                    self.past_guesses@[i].0@,
                    self.past_guesses@[i].1 as int,
                    self.past_guesses@[i].2 as int,
                ),
        )
    }

    /// Basic shape of a session: every stored code is well-formed, the
    /// guess under construction fits in one code, the cursor points into
    /// the alphabet, and no more history has been processed than exists.
    pub open spec fn wf(self) -> bool {
        &&& valid_code(self.combination@)
        &&& valid_codes(self.remaining_combinations.deep_view())
        &&& valid_codes(self.best_guesses.deep_view())
        &&& self.current_guess@.len() <= CODE_LENGTH
        &&& forall|i: int|
            0 <= i < self.current_guess@.len() ==> self.current_guess@[i] < ALPHABET_SIZE
        &&& self.chosen_symbol < ALPHABET_SIZE as usize
        &&& self.num_processed_guesses <= self.past_guesses@.len()
        &&& forall|i: int|
            0 <= i < self.past_guesses@.len() ==> valid_code(
                (#[trigger] self.past_guesses@[i]).0@,
            )
    }

    /// The bookkeeping the candidate set relies on: the hidden code is
    /// still a live candidate, and every unprocessed history entry records
    /// the true feedback of its guess against the hidden code.
    pub open spec fn helper_consistent(self) -> bool {
        &&& self.remaining_combinations.deep_view().contains(self.combination@)
        &&& forall|i: int|
            self.num_processed_guesses <= i < self.past_guesses@.len() ==> (
            #[trigger] self.past_guesses@[i]).1 == exact_matches(
                self.combination@,
                self.past_guesses@[i].0@,
            ) && self.past_guesses@[i].2 == color_matches(
                self.combination@,
                self.past_guesses@[i].0@,
            )
    }
}

/// The candidate set after folding in the history entries with indices in
/// `[from, to)`, each narrowing the set to the codes consistent with its
/// recorded feedback.
pub open spec fn filter_history(
    cands: Seq<Seq<u8>>,
    past: Seq<(Seq<u8>, int, int)>,
    from: int,
    to: int,
) -> Seq<Seq<u8>>
    decreases to - from,
{
    if to <= from {
        cands
    } else {
        filter_feedback(
            filter_history(cands, past, from, to - 1),
            past[to - 1].0,
            past[to - 1].1,
            past[to - 1].2,
        )
    }
}

/// A candidate that every folded history entry scores truthfully against
/// survives the whole fold: filtering by true feedback never evicts it.
pub proof fn lemma_filter_history_keeps(
    cands: Seq<Seq<u8>>,
    past: Seq<(Seq<u8>, int, int)>,
    from: int,
    to: int,
    secret: Seq<u8>,
)
    requires
        cands.contains(secret),
        forall|i: int|
            from <= i < to ==> (#[trigger] past[i]).1 == exact_matches(secret, past[i].0)
                && past[i].2 == color_matches(secret, past[i].0),
    ensures
        filter_history(cands, past, from, to).contains(secret),
    decreases to - from,
{
    if to > from {
        lemma_filter_history_keeps(cands, past, from, to - 1, secret);
        lemma_filter_sound(filter_history(cands, past, from, to - 1), secret, past[to - 1].0);
    }
}

/// The fold is the identity on a candidate set whose every code already
/// classifies into each folded entry's recorded pair: filtering by the same
/// feedback again changes nothing.
pub proof fn lemma_filter_history_stable(
    cands: Seq<Seq<u8>>,
    past: Seq<(Seq<u8>, int, int)>,
    from: int,
    to: int,
)
    requires
        forall|j: int, i: int|
            0 <= j < cands.len() && from <= i < to ==> exact_matches(
                #[trigger] cands[j],
                (#[trigger] past[i]).0,
            ) == past[i].1 && color_matches(cands[j], past[i].0) == past[i].2,
    ensures
        filter_history(cands, past, from, to) == cands,
    decreases to - from,
{
    if to > from {
        lemma_filter_history_stable(cands, past, from, to - 1);
        lemma_filter_stable(cands, past[to - 1].0, past[to - 1].1, past[to - 1].2);
    }
}

/// The prefix of `gs` below `n`, restricted to the codes similar to
/// `reference`.
pub open spec fn similar_upto(reference: Seq<u8>, gs: Seq<Seq<u8>>, n: int) -> Seq<Seq<u8>>
    decreases n,
{
    if n <= 0 {
        Seq::empty()
    } else {
        let p = similar_upto(reference, gs, n - 1);
        if similar_spec(reference, gs[n - 1]) {
            p.push(gs[n - 1])
        } else {
            p
        }
    }
}

/// The codes of `gs` similar to `reference`, in order.
pub open spec fn similar_filter(reference: Seq<u8>, gs: Seq<Seq<u8>>) -> Seq<Seq<u8>> {
    similar_upto(reference, gs, gs.len() as int)
}

impl GameState {
    /// Start a session: draw a hidden code, and in the helper and
    /// simulated modes seed the candidate set with the full code space.
    /// The simulated mode opens with the fixed two-pair guess the solver
    /// plays first.
    pub fn new(game_mode: GameMode) -> (s: Self)
        ensures
            s.wf(),
            s.game_mode == game_mode,
            game_mode is Normal ==> s.remaining_combinations@.len() == 0,
            !(game_mode is Normal) ==> s.remaining_combinations.deep_view() == code_universe()
                && s.helper_consistent(),
            game_mode is Simulated ==> s.current_guess@ == seq![0u8, 0u8, 1u8, 1u8],
            !(game_mode is Simulated) ==> s.current_guess@.len() == 0,
            s.attempt == 1,
            s.past_guesses@.len() == 0,
            !s.game_won,
            s.num_processed_guesses == 0,
            s.best_guesses@.len() == 0,
            s.was_victory_possible,
            s.chosen_symbol == 0,
            s.display is KeepGuessing,
    {
        let remaining_combinations: Vec<Vec<u8>> = match game_mode {
            GameMode::Normal => Vec::new(),
            _ => all_combinations(),
        };
        let mut current_guess: Vec<u8> = Vec::new();
        if let GameMode::Simulated = game_mode {
            current_guess.push(0);
            current_guess.push(0);
            current_guess.push(1);
            current_guess.push(1);
            proof {
                assert(current_guess@ =~= seq![0u8, 0u8, 1u8, 1u8]);
            }
        }
        let combination = random_combination();
        let s = Self {
            remaining_combinations,
            current_guess,
            game_mode,
            combination,
            attempt: 1,
            past_guesses: Vec::new(),
            game_won: false,
            num_processed_guesses: 0,
            best_guesses: Vec::new(),
            was_victory_possible: true,
            chosen_symbol: 0,
            display: Display::KeepGuessing,
        };
        proof {
            if !(game_mode is Normal) {
                lemma_universe_complete(s.combination@);
                let idx = s.combination@[0] * 216 + s.combination@[1] * 36 + s.combination@[2] * 6
                    + s.combination@[3];
                assert(s.remaining_combinations.deep_view()[idx] == s.combination@);
            }
        }
        s
    }

    /// Record the completed guess with its true feedback against the
    /// hidden code, advance the attempt counter, and reset the entry
    /// cursor; the helper mode offers a review next.
    pub fn save_current_guess(&mut self)
        requires
            old(self).wf(),
            old(self).current_guess@.len() == CODE_LENGTH,
            old(self).attempt < u8::MAX,
        ensures
            final(self).wf(),
            final(self).past_view() == old(self).past_view().push(
                (
                    old(self).current_guess@,
                    exact_matches(old(self).combination@, old(self).current_guess@),
                    color_matches(old(self).combination@, old(self).current_guess@),
                ),
            ),
            final(self).past_guesses@.len() == old(self).past_guesses@.len() + 1,
            final(self).game_won == (old(self).game_won || exact_matches(
                old(self).combination@,
                old(self).current_guess@,
            ) == CODE_LENGTH),
            final(self).attempt == old(self).attempt + 1,
            final(self).current_guess@.len() == 0,
            final(self).chosen_symbol == 0,
            final(self).display == if old(self).game_mode is WithHelper {
                Display::OfferReview
            } else {
                old(self).display
            },
            final(self).remaining_combinations == old(self).remaining_combinations,
            final(self).combination == old(self).combination,
            final(self).game_mode == old(self).game_mode,
            final(self).num_processed_guesses == old(self).num_processed_guesses,
            final(self).best_guesses == old(self).best_guesses,
            final(self).was_victory_possible == old(self).was_victory_possible,
            old(self).helper_consistent() ==> final(self).helper_consistent(),
    {
        let (right, wrong) = determine_hits(&self.combination, &self.current_guess);
        let g = clone_code(&self.current_guess);
        self.past_guesses.push((g, right, wrong));
        if right == CODE_LENGTH {
            self.game_won = true;
        }
        self.attempt = self.attempt + 1;
        self.current_guess = Vec::new();
        self.chosen_symbol = 0;
        if let GameMode::WithHelper = self.game_mode {
            self.display = Display::OfferReview;
        }
        proof {
            assert(self.past_view() =~= old(self).past_view().push(
                (
                    old(self).current_guess@,
                    exact_matches(old(self).combination@, old(self).current_guess@),
                    color_matches(old(self).combination@, old(self).current_guess@),
                ),
            ));
        }
    }

    /// The latest solver recommendations that are similar to the guess the
    /// player just made.
    pub fn similar_best_guesses(&self) -> (r: Vec<Vec<u8>>)
        requires
            self.wf(),
            self.past_guesses@.len() >= 1,
        ensures
            r.deep_view() == similar_filter(
                self.past_guesses@[self.past_guesses@.len() - 1].0@,
                self.best_guesses.deep_view(),
            ),
            valid_codes(r.deep_view()),
    {
        let last = self.past_guesses.len() - 1;
        let ghost reference = self.past_guesses@[last as int].0@;
        let ghost gs = self.best_guesses.deep_view();
        let mut out: Vec<Vec<u8>> = Vec::new();
        let mut i: usize = 0;
        while i < self.best_guesses.len()
            invariant
                self.wf(),
                last == self.past_guesses@.len() - 1,
                self.past_guesses@.len() >= 1,
                reference == self.past_guesses@[last as int].0@,
                gs == self.best_guesses.deep_view(),
                i <= gs.len(),
                out.deep_view() =~= similar_upto(reference, gs, i as int),
                valid_codes(out.deep_view()),
            decreases gs.len() - i,
        {
            proof {
                assert(gs[i as int] =~= self.best_guesses@[i as int]@);
            }
            if are_similar(&self.past_guesses[last].0, &self.best_guesses[i]) {
                out.push(clone_code(&self.best_guesses[i]));
            }
            proof {
                assert(out.deep_view() =~= similar_upto(reference, gs, i as int + 1));
            }
            i = i + 1;
        }
        out
    }

    /// Fold the unprocessed feedback history into the candidate set.  The
    /// solver is consulted on the set as it stood before the latest guess —
    /// what the optimal moves were at that point — and the latest feedback
    /// is folded in afterwards.
    pub fn process_past_guesses(&mut self)
        requires
            old(self).wf(),
            old(self).helper_consistent(),
            old(self).past_guesses@.len() > old(self).num_processed_guesses,
        ensures
            final(self).wf(),
            final(self).helper_consistent(),
            final(self).display is ShowReviewOptions,
            final(self).num_processed_guesses == old(self).past_guesses@.len(),
            best_guess_post(
                filter_history(
                    old(self).remaining_combinations.deep_view(),
                    old(self).past_view(),
                    old(self).num_processed_guesses as int,
                    old(self).past_guesses@.len() - 1,
                ),
                final(self).best_guesses.deep_view(),
                final(self).was_victory_possible,
            ),
            final(self).best_guesses.deep_view().len() >= 1,
            final(self).remaining_combinations.deep_view() == filter_history(
                old(self).remaining_combinations.deep_view(),
                old(self).past_view(),
                old(self).num_processed_guesses as int,
                old(self).past_guesses@.len() as int,
            ),
            forall|secret: Seq<u8>|
                #![trigger final(self).remaining_combinations.deep_view().contains(secret)]
                old(self).remaining_combinations.deep_view().contains(secret) && (forall|i: int|
                    old(self).num_processed_guesses <= i < old(self).past_guesses@.len() ==> (
                    #[trigger] old(self).past_view()[i]).1 == exact_matches(
                        secret,
                        old(self).past_view()[i].0,
                    ) && old(self).past_view()[i].2 == color_matches(
                        secret,
                        old(self).past_view()[i].0,
                    )) ==> final(self).remaining_combinations.deep_view().contains(secret),
            (forall|j: int, i: int|
                0 <= j < old(self).remaining_combinations.deep_view().len() && old(
                    self).num_processed_guesses <= i < old(self).past_guesses@.len()
                    ==> exact_matches(
                    #[trigger] old(self).remaining_combinations.deep_view()[j],
                    (#[trigger] old(self).past_view()[i]).0,
                ) == old(self).past_view()[i].1 && color_matches(
                    old(self).remaining_combinations.deep_view()[j],
                    old(self).past_view()[i].0,
                ) == old(self).past_view()[i].2) ==> final(
                self).remaining_combinations.deep_view() == old(
                self).remaining_combinations.deep_view(),
            final(self).combination == old(self).combination,
            final(self).current_guess == old(self).current_guess,
            final(self).attempt == old(self).attempt,
            final(self).past_guesses == old(self).past_guesses,
            final(self).game_won == old(self).game_won,
            final(self).chosen_symbol == old(self).chosen_symbol,
            final(self).game_mode == old(self).game_mode,
    {
        let ghost cands0 = self.remaining_combinations.deep_view();
        let ghost past = self.past_view();
        let ghost np = self.num_processed_guesses as int;
        let ghost len = self.past_guesses@.len() as int;
        self.display = Display::ShowReviewOptions;
        let end = self.past_guesses.len() - 1;
        let mut i: usize = self.num_processed_guesses;
        while i < end
            invariant
                np <= i as int <= end as int,
                end as int == len - 1,
                self.past_guesses@.len() == len,
                past == self.past_view(),
                valid_code(self.combination@),
                self.combination == old(self).combination,
                self.past_guesses == old(self).past_guesses,
                self.current_guess == old(self).current_guess,
                self.attempt == old(self).attempt,
                self.game_won == old(self).game_won,
                self.chosen_symbol == old(self).chosen_symbol,
                self.game_mode == old(self).game_mode,
                self.num_processed_guesses == old(self).num_processed_guesses,
                self.best_guesses == old(self).best_guesses,
                self.was_victory_possible == old(self).was_victory_possible,
                self.display is ShowReviewOptions,
                old(self).wf(),
                cands0.contains(self.combination@),
                forall|j: int|
                    np <= j < len ==> (#[trigger] past[j]).1 == exact_matches(
                        self.combination@,
                        past[j].0,
                    ) && past[j].2 == color_matches(self.combination@, past[j].0),
                forall|j: int|
                    0 <= j < self.past_guesses@.len() ==> valid_code(
                        (#[trigger] self.past_guesses@[j]).0@,
                    ),
                self.remaining_combinations.deep_view() =~= filter_history(
                    cands0,
                    past,
                    np,
                    i as int,
                ),
                valid_codes(self.remaining_combinations.deep_view()),
            decreases end - i,
        {
            proof {
                assert(past[i as int].0 == self.past_guesses@[i as int].0@);
            }
            self.remaining_combinations = filter_codes(
                &self.remaining_combinations,
                &self.past_guesses[i].0,
                self.past_guesses[i].1,
                self.past_guesses[i].2,
            );
            i = i + 1;
        }
        proof {
            lemma_filter_history_keeps(cands0, past, np, end as int, self.combination@);
        }
        let (best, flag) = next_best_guesses(&self.remaining_combinations);
        self.best_guesses = best;
        self.was_victory_possible = flag;
        let last = self.past_guesses.len() - 1;
        proof {
            assert(past[last as int].0 == self.past_guesses@[last as int].0@);
        }
        self.remaining_combinations = filter_codes(
            &self.remaining_combinations,
            &self.past_guesses[last].0,
            self.past_guesses[last].1,
            self.past_guesses[last].2,
        );
        self.num_processed_guesses = self.past_guesses.len();
        proof {
            lemma_filter_history_keeps(cands0, past, np, len, self.combination@);
            assert forall|secret: Seq<u8>|
                cands0.contains(secret) && (forall|i: int|
                    np <= i < len ==> (#[trigger] past[i]).1 == exact_matches(secret, past[i].0)
                        && past[i].2 == color_matches(
                        secret,
                        past[i].0,
                    )) implies #[trigger] self.remaining_combinations.deep_view().contains(
                secret,
            ) by {
                lemma_filter_history_keeps(cands0, past, np, len, secret);
            }
            if forall|j: int, i: int|
                0 <= j < cands0.len() && np <= i < len ==> exact_matches(
                    #[trigger] cands0[j],
                    (#[trigger] past[i]).0,
                ) == past[i].1 && color_matches(cands0[j], past[i].0) == past[i].2 {
                lemma_filter_history_stable(cands0, past, np, len);
            }
        }
    }

    /// Let the solver choose the next guess of a simulated session: rerun
    /// it on the current candidate set and play the first tied
    /// recommendation.
    pub fn next_simulated_guess(&mut self)
        requires
            old(self).wf(),
            old(self).remaining_combinations@.len() >= 1,
            old(self).attempt < u8::MAX,
        ensures
            final(self).wf(),
            best_guess_post(
                old(self).remaining_combinations.deep_view(),
                final(self).best_guesses.deep_view(),
                final(self).was_victory_possible,
            ),
            final(self).best_guesses.deep_view().len() >= 1,
            final(self).current_guess@ == final(self).best_guesses.deep_view()[0],
            final(self).attempt == old(self).attempt + 1,
            final(self).remaining_combinations == old(self).remaining_combinations,
            final(self).combination == old(self).combination,
            final(self).past_guesses == old(self).past_guesses,
            final(self).game_won == old(self).game_won,
            final(self).num_processed_guesses == old(self).num_processed_guesses,
            final(self).chosen_symbol == old(self).chosen_symbol,
            final(self).display == old(self).display,
            final(self).game_mode == old(self).game_mode,
    {
        let (best, flag) = next_best_guesses(&self.remaining_combinations);
        self.best_guesses = best;
        self.was_victory_possible = flag;
        proof {
            assert(self.best_guesses.deep_view()[0] =~= self.best_guesses@[0]@);
        }
        self.current_guess = clone_code(&self.best_guesses[0]);
        self.attempt = self.attempt + 1;
    }
}

} // verus!
