//! The response catalog and the minimax guess selector.
//!
//! A guess partitions the candidate set by the feedback pair it would
//! receive from each candidate as secret.  The score of a guess is the size
//! of its largest partition class: the worst case an adversarial secret
//! could force.  The selector returns every guess from the full code space
//! whose score is minimal, preferring guesses that are still live
//! candidates, since those can win outright.

use vstd::prelude::*;

use crate::util::{
    all_combinations, clone_code, code_for_index, code_universe, contains_code, determine_hits,
    filter_feedback, filter_upto, valid_code, valid_codes, CODE_LENGTH,
};

verus! {

/// Every feedback pair that can occur for the configured code length, in
/// catalog order: exact count ascending, wrong-position count descending.
/// The pair `(3, 1)` is combinatorially impossible and is excluded; see
/// `lemma_excluded_pair`.
pub open spec fn response_list() -> Seq<(usize, usize)> {
    seq![
        (0usize, 4usize),
        (0usize, 3usize),
        (0usize, 2usize),
        (0usize, 1usize),
        (0usize, 0usize),
        (1usize, 3usize),
        (1usize, 2usize),
        (1usize, 1usize),
        (1usize, 0usize),
        (2usize, 2usize),
        (2usize, 1usize),
        (2usize, 0usize),
        (3usize, 0usize),
        (4usize, 0usize),
    ]
}

/// Enumerate the feedback categories of the catalog.
pub fn all_responses() -> (r: Vec<(usize, usize)>)
    ensures
        r@ == response_list(),
{
    let mut r: Vec<(usize, usize)> = Vec::new();
    r.push((0, 4));
    r.push((0, 3));
    r.push((0, 2));
    r.push((0, 1));
    r.push((0, 0));
    r.push((1, 3));
    r.push((1, 2));
    r.push((1, 1));
    r.push((1, 0));
    r.push((2, 2));
    r.push((2, 1));
    r.push((2, 0));
    r.push((3, 0));
    r.push((4, 0));
    proof {
        assert(r@ =~= response_list());
    }
    r
}

/// The catalog holds exactly the pairs of non-negative counts summing to at
/// most the code length, save the impossible `(3, 1)`.
pub proof fn lemma_response_list_complete()
    ensures
        forall|e: usize, w: usize|
            e + w <= CODE_LENGTH && !(e == 3 && w == 1) ==> response_list().contains((e, w)),
        forall|i: int|
            0 <= i < response_list().len() ==> (#[trigger] response_list()[i]).0
                + response_list()[i].1 <= CODE_LENGTH && !(response_list()[i].0 == 3
                && response_list()[i].1 == 1),
{
    assert forall|e: usize, w: usize|
        e + w <= CODE_LENGTH && !(e == 3 && w == 1) implies response_list().contains((e, w)) by {
        let l = response_list();
        if e == 0 {
            assert(l[4 - w] == (e, w));
        } else if e == 1 {
            assert(l[8 - w] == (e, w));
        } else if e == 2 {
            assert(l[11 - w] == (e, w));
        } else if e == 3 {
            assert(l[12] == (e, w));
        } else {
            assert(l[13] == (e, w));
        }
    }
}

/// The worst partition-class size of `g` over the first `n` categories of
/// the catalog.
pub open spec fn score_upto(cands: Seq<Seq<u8>>, g: Seq<u8>, n: int) -> int
    decreases n,
{
    if n <= 0 {
        0
    } else {
        vstd::math::max(
            score_upto(cands, g, n - 1),
            filter_feedback(
                cands,
                g,
                response_list()[n - 1].0 as int,
                response_list()[n - 1].1 as int,
            ).len() as int,
        )
    }
}

/// The score of a guess: the largest number of candidates that could remain
/// after guessing `g` and observing any one feedback category.
pub open spec fn guess_score(cands: Seq<Seq<u8>>, g: Seq<u8>) -> int {
    score_upto(cands, g, response_list().len() as int)
}

/// The running minimum score over the first `n` guesses of the code
/// universe, seeded with the candidate count — the trivial worst case of
/// learning nothing.
pub open spec fn min_score_upto(cands: Seq<Seq<u8>>, n: int) -> int
    decreases n,
{
    if n <= 0 {
        cands.len() as int
    } else {
        vstd::math::min(min_score_upto(cands, n - 1), guess_score(cands, code_for_index(n - 1)))
    }
}

/// The minimal score any guess of the universe achieves against `cands`.
pub open spec fn min_score(cands: Seq<Seq<u8>>) -> int {
    min_score_upto(cands, code_universe().len() as int)
}

/// The guesses among the first `n` of the universe whose score equals `m`,
/// in enumeration order.
pub open spec fn tied_upto(cands: Seq<Seq<u8>>, m: int, n: int) -> Seq<Seq<u8>>
    decreases n,
{
    if n <= 0 {
        Seq::empty()
    } else {
        let p = tied_upto(cands, m, n - 1);
        if guess_score(cands, code_for_index(n - 1)) == m {
            p.push(code_for_index(n - 1))
        } else {
            p
        }
    }
}

/// Every guess of the universe whose score equals `m`, in enumeration
/// order.
pub open spec fn tied_guesses(cands: Seq<Seq<u8>>, m: int) -> Seq<Seq<u8>> {
    tied_upto(cands, m, code_universe().len() as int)
}

/// The prefix of `tied` below `n`, restricted to codes that are still live
/// candidates.
pub open spec fn members_upto(tied: Seq<Seq<u8>>, cands: Seq<Seq<u8>>, n: int) -> Seq<Seq<u8>>
    decreases n,
{
    if n <= 0 {
        Seq::empty()
    } else {
        let p = members_upto(tied, cands, n - 1);
        if cands.contains(tied[n - 1]) {
            p.push(tied[n - 1])
        } else {
            p
        }
    }
}

/// The members of `tied` that are still live candidates, in order.
pub open spec fn candidate_members(tied: Seq<Seq<u8>>, cands: Seq<Seq<u8>>) -> Seq<Seq<u8>> {
    members_upto(tied, cands, tied.len() as int)
}

/// What the guess selector returns.  A single candidate is returned
/// directly: it is necessarily the secret.  Otherwise the result is the full
/// tied set of minimal-score guesses, narrowed to live candidates exactly
/// when any tied guess is one, and the flag reports whether that narrowing
/// applied — whether some optimal guess could still win this round.
pub open spec fn best_guess_post(cands: Seq<Seq<u8>>, out: Seq<Seq<u8>>, forced: bool) -> bool {
    if cands.len() == 1 {
        out == seq![cands[0]] && forced
    } else {
        let tied = tied_guesses(cands, min_score(cands));
        &&& (forced <==> exists|i: int| 0 <= i < tied.len() && cands.contains(#[trigger] tied[i]))
        &&& out == if forced {
            candidate_members(tied, cands)
        } else {
            tied
        }
    }
}

/// A filtered prefix holds at most as many codes as the prefix is long.
proof fn lemma_filter_upto_len_le(cands: Seq<Seq<u8>>, g: Seq<u8>, e: int, w: int, n: int)
    requires
        0 <= n,
    ensures
        0 <= filter_upto(cands, g, e, w, n).len() <= n,
    decreases n,
{
    if n > 0 {
        lemma_filter_upto_len_le(cands, g, e, w, n - 1);
    }
}

/// Extending the filtered prefix never loses codes.
proof fn lemma_filter_upto_len_mono(cands: Seq<Seq<u8>>, g: Seq<u8>, e: int, w: int, k: int, n: int)
    requires
        0 <= k <= n,
    ensures
        filter_upto(cands, g, e, w, k).len() <= filter_upto(cands, g, e, w, n).len(),
    decreases n,
{
    if k < n {
        lemma_filter_upto_len_mono(cands, g, e, w, k, n - 1);
    }
}

/// Partial scores are non-negative, grow with the category range, and never
/// exceed the candidate count.
proof fn lemma_score_upto_bounds(cands: Seq<Seq<u8>>, g: Seq<u8>, n: int)
    requires
        0 <= n,
    ensures
        0 <= score_upto(cands, g, n) <= cands.len(),
    decreases n,
{
    if n > 0 {
        lemma_score_upto_bounds(cands, g, n - 1);
        let e = response_list()[n - 1].0 as int;
        let w = response_list()[n - 1].1 as int;
        lemma_filter_upto_len_le(cands, g, e, w, cands.len() as int);
    }
}

/// The score of a guess dominates the size of each of its partition
/// classes.
proof fn lemma_score_upto_ge_bucket(cands: Seq<Seq<u8>>, g: Seq<u8>, j: int, n: int)
    requires
        0 <= j < n,
    ensures
        score_upto(cands, g, n) >= filter_feedback(
            cands,
            g,
            response_list()[j].0 as int,
            response_list()[j].1 as int,
        ).len(),
    decreases n,
{
    if j < n - 1 {
        lemma_score_upto_ge_bucket(cands, g, j, n - 1);
    }
}

/// The running minimum is a lower bound on the score of every guess it has
/// scanned.
proof fn lemma_min_score_upto_le_all(cands: Seq<Seq<u8>>, i: int, n: int)
    requires
        0 <= i < n,
    ensures
        min_score_upto(cands, n) <= guess_score(cands, code_for_index(i)),
    decreases n,
{
    if i < n - 1 {
        lemma_min_score_upto_le_all(cands, i, n - 1);
    }
}

/// Some scanned guess achieves the running minimum, or no guess improved on
/// the seed and every scanned guess scores at least the candidate count.
proof fn lemma_min_score_upto_achieved(cands: Seq<Seq<u8>>, n: int)
    requires
        1 <= n,
    ensures
        min_score_upto(cands, n) == cands.len() || exists|i: int|
            0 <= i < n && guess_score(cands, code_for_index(i)) == min_score_upto(cands, n),
    decreases n,
{
    if n == 1 {
        let s = guess_score(cands, code_for_index(0));
        assert(min_score_upto(cands, 0) == cands.len());
        if s < cands.len() {
            assert(min_score_upto(cands, 1) == s);
            assert(0 <= 0 < 1 && guess_score(cands, code_for_index(0)) == min_score_upto(
                cands,
                1,
            ));
        }
    } else {
        lemma_min_score_upto_achieved(cands, n - 1);
        let m1 = min_score_upto(cands, n - 1);
        let s = guess_score(cands, code_for_index(n - 1));
        if s <= m1 {
            assert(min_score_upto(cands, n) == s);
            assert(0 <= n - 1 < n && guess_score(cands, code_for_index(n - 1)) == min_score_upto(
                cands,
                n,
            ));
        } else {
            assert(min_score_upto(cands, n) == m1);
            if m1 != cands.len() {
                let i = choose|i: int|
                    0 <= i < n - 1 && guess_score(cands, code_for_index(i)) == m1;
                assert(0 <= i < n && guess_score(cands, code_for_index(i)) == min_score_upto(
                    cands,
                    n,
                ));
            }
        }
    }
}

/// No guess scans into the tied set below the running minimum.
proof fn lemma_tied_upto_empty(cands: Seq<Seq<u8>>, m: int, n: int)
    requires
        0 <= n,
        m < min_score_upto(cands, n),
    ensures
        tied_upto(cands, m, n).len() == 0,
    decreases n,
{
    if n > 0 {
        lemma_tied_upto_empty(cands, m, n - 1);
    }
}

/// A scanned guess whose score equals `m` puts at least one code into the
/// tied set.
proof fn lemma_tied_upto_nonempty(cands: Seq<Seq<u8>>, m: int, i: int, n: int)
    requires
        0 <= i < n,
        guess_score(cands, code_for_index(i)) == m,
    ensures
        tied_upto(cands, m, n).len() >= 1,
    decreases n,
{
    if i < n - 1 {
        lemma_tied_upto_nonempty(cands, m, i, n - 1);
    }
}

/// The tied set for the minimal score is never empty: either some guess
/// achieves the minimum, or every guess scores the full candidate count and
/// all of them tie.
pub proof fn lemma_tied_guesses_nonempty(cands: Seq<Seq<u8>>)
    ensures
        tied_guesses(cands, min_score(cands)).len() >= 1,
{
    let n = code_universe().len() as int;
    lemma_min_score_upto_achieved(cands, n);
    if min_score_upto(cands, n) == cands.len() && !(exists|i: int|
        0 <= i < n && guess_score(cands, code_for_index(i)) == min_score_upto(cands, n))  {
        lemma_min_score_upto_le_all(cands, 0, n);
        lemma_score_upto_bounds(cands, code_for_index(0), response_list().len() as int);
        assert(guess_score(cands, code_for_index(0)) == cands.len());
    }
    let i = choose|i: int|
        0 <= i < n && guess_score(cands, code_for_index(i)) == min_score_upto(cands, n);
    lemma_tied_upto_nonempty(cands, min_score(cands), i, n);
}

/// Every code in a tied prefix is a guess whose score equals `m`.
proof fn lemma_tied_upto_scores(cands: Seq<Seq<u8>>, m: int, n: int)
    requires
        0 <= n,
    ensures
        forall|j: int|
            0 <= j < tied_upto(cands, m, n).len() ==> guess_score(
                cands,
                #[trigger] tied_upto(cands, m, n)[j],
            ) == m,
    decreases n,
{
    if n > 0 {
        lemma_tied_upto_scores(cands, m, n - 1);
        let p = tied_upto(cands, m, n - 1);
        if guess_score(cands, code_for_index(n - 1)) == m {
            assert(forall|j: int| 0 <= j < p.len() ==> p.push(code_for_index(n - 1))[j] == #[trigger] p[j]);
        }
    }
}

/// A scanned guess whose score equals `m` is in the tied set.
proof fn lemma_tied_upto_contains(cands: Seq<Seq<u8>>, m: int, i: int, n: int)
    requires
        0 <= i < n,
        guess_score(cands, code_for_index(i)) == m,
    ensures
        tied_upto(cands, m, n).contains(code_for_index(i)),
    decreases n,
{
    let p = tied_upto(cands, m, n - 1);
    if i == n - 1 {
        assert(tied_upto(cands, m, n)[p.len() as int] == code_for_index(i));
    } else {
        lemma_tied_upto_contains(cands, m, i, n - 1);
        let j = choose|j: int| 0 <= j < p.len() && p[j] == code_for_index(i);
        assert(tied_upto(cands, m, n)[j] == code_for_index(i));
    }
}

/// The tied set for the minimal score is exactly the minimax-optimal slice
/// of the universe: each of its guesses achieves the minimal score, no
/// guess of the universe scores lower, and a guess belongs to it precisely
/// when its score is minimal — membership does not depend on scan order.
pub proof fn lemma_tied_guesses_optimal(cands: Seq<Seq<u8>>)
    ensures
        forall|j: int|
            0 <= j < tied_guesses(cands, min_score(cands)).len() ==> guess_score(
                cands,
                #[trigger] tied_guesses(cands, min_score(cands))[j],
            ) == min_score(cands),
        forall|i: int|
            0 <= i < code_universe().len() ==> min_score(cands) <= guess_score(
                cands,
                #[trigger] code_universe()[i],
            ),
        forall|i: int|
            0 <= i < code_universe().len() ==> (tied_guesses(cands, min_score(cands)).contains(
                #[trigger] code_universe()[i],
            ) <==> guess_score(cands, code_universe()[i]) == min_score(cands)),
{
    let n = code_universe().len() as int;
    let m = min_score(cands);
    lemma_tied_upto_scores(cands, m, n);
    assert forall|i: int| 0 <= i < n implies m <= guess_score(
        cands,
        #[trigger] code_universe()[i],
    ) by {
        lemma_min_score_upto_le_all(cands, i, n);
    }
    assert forall|i: int|
        0 <= i < n && guess_score(cands, code_universe()[i]) == m implies tied_guesses(
        cands,
        m,
    ).contains(#[trigger] code_universe()[i]) by {
        lemma_tied_upto_contains(cands, m, i, n);
    }
}

/// Score `guess` against the candidate partition: the size of its largest
/// feedback class.  Counting a class aborts as soon as it passes `min`,
/// since such a guess can no longer improve on the running minimum; the
/// result is then only guaranteed to exceed `min`.
pub fn max_possible_outcomes(remaining_combinations: &Vec<Vec<u8>>, guess: &Vec<u8>, min: usize) -> (r:
    usize)
    requires
        valid_codes(remaining_combinations.deep_view()),
        valid_code(guess@),
    ensures
        guess_score(remaining_combinations.deep_view(), guess@) <= min ==> r == guess_score(
            remaining_combinations.deep_view(),
            guess@,
        ),
        guess_score(remaining_combinations.deep_view(), guess@) > min ==> r > min,
        r <= remaining_combinations@.len(),
{
    let ghost dv = remaining_combinations.deep_view();
    let responses = all_responses();
    let mut max: usize = 0;
    let mut j: usize = 0;
    while j < responses.len()
        invariant
            responses@ == response_list(),
            valid_codes(dv),
            valid_code(guess@),
            dv == remaining_combinations.deep_view(),
            j <= responses@.len(),
            max == score_upto(dv, guess@, j as int),
            max <= min,
        decreases responses@.len() - j,
    {
        let (right, wrong) = responses[j];
        let ghost e = right as int;
        let ghost w = wrong as int;
        let mut count: usize = 0;
        let mut i: usize = 0;
        while i < remaining_combinations.len()
            invariant_except_break
                count <= min,
            invariant
                responses@ == response_list(),
                valid_codes(dv),
                valid_code(guess@),
                dv == remaining_combinations.deep_view(),
                j < responses@.len(),
                (right, wrong) == response_list()[j as int],
                e == right as int && w == wrong as int,
                i <= dv.len(),
                count <= i,
                count == filter_upto(dv, guess@, e, w, i as int).len(),
            ensures
                count <= dv.len(),
                count > min ==> filter_feedback(dv, guess@, e, w).len() > min,
                count <= min ==> i == dv.len() && count == filter_feedback(dv, guess@, e, w).len(),
            decreases dv.len() - i,
        {
            proof {
                assert(dv[i as int] =~= remaining_combinations@[i as int]@);
            }
            let (ce, cw) = determine_hits(&remaining_combinations[i], guess);
            if ce == right && cw == wrong {
                count = count + 1;
            }
            i = i + 1;
            if count > min {
                proof {
                    lemma_filter_upto_len_mono(dv, guess@, e, w, i as int, dv.len() as int);
                }
                break ;
            }
        }
        if count > min {
            proof {
                lemma_score_upto_ge_bucket(dv, guess@, j as int, response_list().len() as int);
            }
            return count;
        }
        if count > max {
            max = count;
        }
        j = j + 1;
    }
    proof {
        lemma_score_upto_bounds(dv, guess@, response_list().len() as int);
    }
    max
}

/// A kept prefix of the tied set is non-empty exactly when some tied guess
/// in it is a live candidate.
proof fn lemma_members_upto_iff(tied: Seq<Seq<u8>>, cands: Seq<Seq<u8>>, n: int)
    requires
        0 <= n,
    ensures
        members_upto(tied, cands, n).len() >= 1 <==> exists|i: int|
            0 <= i < n && cands.contains(#[trigger] tied[i]),
    decreases n,
{
    if n > 0 {
        lemma_members_upto_iff(tied, cands, n - 1);
        if cands.contains(tied[n - 1]) {
            assert(0 <= n - 1 < n && cands.contains(tied[n - 1]));
        }
    }
}

/// Select the guesses that minimize the worst-case remaining candidate
/// count.  A lone candidate is returned at once: it must be the secret.
/// Otherwise every guess of the full universe is scored against the
/// candidate set; the tied minimal-score guesses are narrowed to live
/// candidates when any of them is one, and the flag reports whether such a
/// possibly winning guess exists.
pub fn next_best_guesses(remaining_combinations: &Vec<Vec<u8>>) -> (r: (Vec<Vec<u8>>, bool))
    requires
        valid_codes(remaining_combinations.deep_view()),
        remaining_combinations@.len() >= 1,
    ensures
        best_guess_post(remaining_combinations.deep_view(), r.0.deep_view(), r.1),
        r.0.deep_view().len() >= 1,
        valid_codes(r.0.deep_view()),
{
    let ghost dv = remaining_combinations.deep_view();
    if remaining_combinations.len() == 1 {
        let mut only: Vec<Vec<u8>> = Vec::new();
        only.push(clone_code(&remaining_combinations[0]));
        proof {
            assert(dv[0] =~= remaining_combinations@[0]@);
            assert(only.deep_view() =~= seq![dv[0]]);
        }
        return (only, true);
    }
    let universe = all_combinations();
    let mut min: usize = remaining_combinations.len();
    let mut best: Vec<Vec<u8>> = Vec::new();
    let mut gi: usize = 0;
    while gi < universe.len()
        invariant
            universe.deep_view() == code_universe(),
            universe@.len() == 1296,
            forall|j: int| 0 <= j < 1296 ==> valid_code(#[trigger] universe@[j]@),
            dv == remaining_combinations.deep_view(),
            valid_codes(dv),
            gi <= 1296,
            min == min_score_upto(dv, gi as int),
            best.deep_view() =~= tied_upto(dv, min as int, gi as int),
            valid_codes(best.deep_view()),
        decreases 1296 - gi,
    {
        proof {
            assert(universe.deep_view()[gi as int] =~= universe@[gi as int]@);
            assert(universe@[gi as int]@ == code_for_index(gi as int));
        }
        let mx = max_possible_outcomes(remaining_combinations, &universe[gi], min);
        let ghost sc = guess_score(dv, code_for_index(gi as int));
        proof {
            if sc > min {
                assert(mx > min);
            } else {
                assert(mx == sc);
            }
        }
        if mx < min {
            proof {
                lemma_tied_upto_empty(dv, mx as int, gi as int);
                assert(tied_upto(dv, mx as int, gi as int) =~= Seq::<Seq<u8>>::empty());
            }
            min = mx;
            best = Vec::new();
            best.push(clone_code(&universe[gi]));
            proof {
                assert(best.deep_view() =~= tied_upto(dv, min as int, gi as int + 1));
            }
        } else if mx == min {
            best.push(clone_code(&universe[gi]));
            proof {
                assert(best.deep_view() =~= tied_upto(dv, min as int, gi as int + 1));
            }
        } else {
            proof {
                assert(tied_upto(dv, min as int, gi as int + 1) =~= tied_upto(
                    dv,
                    min as int,
                    gi as int,
                ));
            }
        }
        gi = gi + 1;
    }
    let ghost tied = tied_guesses(dv, min as int);
    proof {
        assert(best.deep_view() == tied);
    }
    let mut members: Vec<Vec<u8>> = Vec::new();
    let mut bi: usize = 0;
    while bi < best.len()
        invariant
            dv == remaining_combinations.deep_view(),
            bi <= best@.len(),
            best.deep_view() == tied,
            members.deep_view() =~= members_upto(tied, dv, bi as int),
            valid_codes(best.deep_view()),
            valid_codes(members.deep_view()),
        decreases best@.len() - bi,
    {
        proof {
            assert(best.deep_view()[bi as int] =~= best@[bi as int]@);
        }
        if contains_code(remaining_combinations, &best[bi]) {
            members.push(clone_code(&best[bi]));
        }
        proof {
            assert(members.deep_view() =~= members_upto(tied, dv, bi as int + 1));
        }
        bi = bi + 1;
    }
    proof {
        lemma_members_upto_iff(tied, dv, tied.len() as int);
        lemma_tied_guesses_nonempty(dv);
    }
    if members.len() > 0 {
        (members, true)
    } else {
        (best, false)
    }
}

} // verus!
