//! Codes, the feedback classifier, and candidate filtering.
//!
//! A code is a `Vec<u8>` of length `CODE_LENGTH` whose entries are symbol
//! indices below `ALPHABET_SIZE`.  Classifying a guess against a reference
//! code yields a pair `(right, wrong)`: `right` counts positions where the
//! two codes agree, and `wrong` counts the remaining symbol matches, one per
//! symbol occurrence shared by the two codes outside the agreeing positions.

use vstd::prelude::*;

verus! {

/// Number of distinct symbols a code may draw from.
pub const ALPHABET_SIZE: u8 = 6;

/// Number of positions in a code.
pub const CODE_LENGTH: usize = 4;

/// A well-formed code: exactly `CODE_LENGTH` symbols, each below
/// `ALPHABET_SIZE`.
pub open spec fn valid_code(c: Seq<u8>) -> bool {
    &&& c.len() == CODE_LENGTH
    &&& forall|i: int| 0 <= i < c.len() ==> c[i] < ALPHABET_SIZE
}

/// Number of positions below `n` where `a` and `b` hold the same symbol.
pub open spec fn exact_upto(a: Seq<u8>, b: Seq<u8>, n: int) -> int
    decreases n,
{
    if n <= 0 {
        0
    } else {
        exact_upto(a, b, n - 1) + if a[n - 1] == b[n - 1] {
            1int
        } else {
            0int
        }
    }
}

/// The exact-match count of the feedback pair.
pub open spec fn exact_matches(a: Seq<u8>, b: Seq<u8>) -> int {
    exact_upto(a, b, a.len() as int)
}

/// Number of positions below `n` where `a` holds symbol `s` and disagrees
/// with `b`: occurrences of `s` in `a` that are free for a wrong-position
/// match.
pub open spec fn free_upto(a: Seq<u8>, b: Seq<u8>, s: u8, n: int) -> int
    decreases n,
{
    if n <= 0 {
        0
    } else {
        free_upto(a, b, s, n - 1) + if a[n - 1] == s && a[n - 1] != b[n - 1] {
            1int
        } else {
            0int
        }
    }
}

/// Occurrences of symbol `s` in `a`, outside the positions where `a` and `b`
/// agree.
pub open spec fn free_count(a: Seq<u8>, b: Seq<u8>, s: u8) -> int {
    free_upto(a, b, s, a.len() as int)
}

/// Sum over the symbols below `s` of the shared free occurrences: each symbol
/// contributes the smaller of its free counts in the two codes.
pub open spec fn color_upto(a: Seq<u8>, b: Seq<u8>, s: int) -> int
    decreases s,
{
    if s <= 0 {
        0
    } else {
        color_upto(a, b, s - 1) + vstd::math::min(
            free_count(a, b, (s - 1) as u8),
            free_count(b, a, (s - 1) as u8),
        )
    }
}

/// The wrong-position count of the feedback pair: the multiset intersection
/// of the two codes' symbols outside the agreeing positions.
pub open spec fn color_matches(a: Seq<u8>, b: Seq<u8>) -> int {
    color_upto(a, b, ALPHABET_SIZE as int)
}

/// Count the positions where the two codes agree.
fn count_exact(a: &Vec<u8>, b: &Vec<u8>) -> (r: usize)
    requires
        a@.len() == CODE_LENGTH,
        b@.len() == CODE_LENGTH,
    ensures
        r == exact_matches(a@, b@),
{
    let mut r: usize = 0;
    let mut i: usize = 0;
    while i < CODE_LENGTH
        invariant
            i <= CODE_LENGTH,
            a@.len() == CODE_LENGTH,
            b@.len() == CODE_LENGTH,
            r == exact_upto(a@, b@, i as int),
            r <= i,
        decreases CODE_LENGTH - i,
    {
        if a[i] == b[i] {
            r = r + 1;
        }
        i = i + 1;
    }
    r
}

/// Count the occurrences of symbol `s` in `a` outside the positions where
/// `a` and `b` agree.
fn count_free(a: &Vec<u8>, b: &Vec<u8>, s: u8) -> (r: usize)
    requires
        a@.len() == CODE_LENGTH,
        b@.len() == CODE_LENGTH,
    ensures
        r == free_count(a@, b@, s),
{
    let mut r: usize = 0;
    let mut i: usize = 0;
    while i < CODE_LENGTH
        invariant
            i <= CODE_LENGTH,
            a@.len() == CODE_LENGTH,
            b@.len() == CODE_LENGTH,
            r == free_upto(a@, b@, s, i as int),
            r <= i,
        decreases CODE_LENGTH - i,
    {
        if a[i] == s && a[i] != b[i] {
            r = r + 1;
        }
        i = i + 1;
    }
    r
}

/// Classify `guess` against `combination`: exact matches, then
/// wrong-position matches resolved by symbol-frequency intersection.
pub fn determine_hits(combination: &Vec<u8>, guess: &Vec<u8>) -> (r: (usize, usize))
    requires
        valid_code(combination@),
        valid_code(guess@),
    ensures
        r.0 == exact_matches(combination@, guess@),
        r.1 == color_matches(combination@, guess@),
        r.0 + r.1 <= CODE_LENGTH,
        !(r.0 == 3 && r.1 == 1),
{
    proof {
        lemma_feedback_bound(combination@, guess@);
        if exact_matches(combination@, guess@) == 3 {
            lemma_excluded_pair(combination@, guess@);
        }
    }
    let right = count_exact(combination, guess);
    let mut wrong: usize = 0;
    let mut s: u8 = 0;
    while s < ALPHABET_SIZE
        invariant
            s <= ALPHABET_SIZE,
            valid_code(combination@),
            valid_code(guess@),
            wrong == color_upto(combination@, guess@, s as int),
            wrong <= CODE_LENGTH * s,
        decreases ALPHABET_SIZE - s,
    {
        let fa = count_free(combination, guess, s);
        let fb = count_free(guess, combination, s);
        proof {
            lemma_free_upto_bounds(combination@, guess@, s, CODE_LENGTH as int);
            lemma_free_upto_bounds(guess@, combination@, s, CODE_LENGTH as int);
        }
        wrong = wrong + if fa <= fb {
            fa
        } else {
            fb
        };
        s = s + 1;
    }
    (right, wrong)
}

/// Every code in the sequence is well-formed.
pub open spec fn valid_codes(cs: Seq<Seq<u8>>) -> bool {
    forall|i: int| 0 <= i < cs.len() ==> valid_code(#[trigger] cs[i])
}

/// The error returned when a code has the wrong length or a symbol outside
/// the alphabet.
#[derive(Clone, Copy, Debug, PartialEq, Eq, Structural)]
pub struct InvalidCodeError;

/// Check that a code has the configured length and draws every symbol from
/// the alphabet.
pub fn is_valid_code(c: &Vec<u8>) -> (r: bool)
    ensures
        r == valid_code(c@),
{
    if c.len() != CODE_LENGTH {
        return false;
    }
    let mut i: usize = 0;
    while i < CODE_LENGTH
        invariant
            i <= CODE_LENGTH,
            c@.len() == CODE_LENGTH,
            forall|j: int| 0 <= j < i ==> c@[j] < ALPHABET_SIZE,
        decreases CODE_LENGTH - i,
    {
        if c[i] >= ALPHABET_SIZE {
            return false;
        }
        i = i + 1;
    }
    true
}

/// Classify `guess` against `reference` after validating both codes at the
/// boundary; malformed input is rejected, never coerced.
pub fn classify(reference: &Vec<u8>, guess: &Vec<u8>) -> (r: Result<(usize, usize), InvalidCodeError>)
    ensures
        r is Ok <==> valid_code(reference@) && valid_code(guess@),
        r matches Ok(p) ==> p.0 == exact_matches(reference@, guess@) && p.1 == color_matches(
            reference@,
            guess@,
        ),
{
    if !is_valid_code(reference) || !is_valid_code(guess) {
        return Err(InvalidCodeError);
    }
    Ok(determine_hits(reference, guess))
}

/// Two codes are similar when they share more than two exact matches, more
/// than two wrong-position matches, or a full complement of either kind.
pub open spec fn similar_spec(a: Seq<u8>, b: Seq<u8>) -> bool {
    ||| exact_matches(a, b) > 2
    ||| color_matches(a, b) > 2
    ||| exact_matches(a, b) + color_matches(a, b) == 4
}

/// Decide whether `guess` is close enough to `user_guess` to be offered as
/// an alternative to it.
pub fn are_similar(user_guess: &Vec<u8>, guess: &Vec<u8>) -> (r: bool)
    requires
        valid_code(user_guess@),
        valid_code(guess@),
    ensures
        r == similar_spec(user_guess@, guess@),
{
    let (right, wrong) = determine_hits(user_guess, guess);
    right > 2 || wrong > 2 || right + wrong == 4
}

/// A code is always similar to itself: classifying it against itself fills
/// the exact count.
pub proof fn lemma_similar_reflexive(a: Seq<u8>)
    requires
        valid_code(a),
    ensures
        similar_spec(a, a),
{
    lemma_classify_self(a);
}

/// Compare two codes for equality, symbol by symbol.
pub fn codes_equal(a: &Vec<u8>, b: &Vec<u8>) -> (r: bool)
    ensures
        r == (a@ == b@),
{
    if a.len() != b.len() {
        return false;
    }
    let mut i: usize = 0;
    while i < a.len()
        invariant
            i <= a@.len(),
            a@.len() == b@.len(),
            forall|j: int| 0 <= j < i ==> a@[j] == b@[j],
        decreases a@.len() - i,
    {
        if a[i] != b[i] {
            return false;
        }
        i = i + 1;
    }
    proof {
        assert(a@ =~= b@);
    }
    true
}

/// Copy a code, symbol by symbol.
pub fn clone_code(c: &Vec<u8>) -> (r: Vec<u8>)
    ensures
        r@ == c@,
{
    let mut r: Vec<u8> = Vec::new();
    let mut i: usize = 0;
    while i < c.len()
        invariant
            i <= c@.len(),
            r@ =~= c@.take(i as int),
        decreases c@.len() - i,
    {
        r.push(c[i]);
        proof {
            assert(r@ =~= c@.take(i as int + 1));
        }
        i = i + 1;
    }
    proof {
        assert(c@.take(c@.len() as int) =~= c@);
    }
    r
}

/// Decide whether `c` occurs in `v`.
pub fn contains_code(v: &Vec<Vec<u8>>, c: &Vec<u8>) -> (r: bool)
    ensures
        r == v.deep_view().contains(c@),
{
    let mut i: usize = 0;
    while i < v.len()
        invariant
            i <= v@.len(),
            forall|j: int| 0 <= j < i ==> v.deep_view()[j] != c@,
        decreases v@.len() - i,
    {
        if codes_equal(&v[i], c) {
            proof {
                assert(v.deep_view()[i as int] =~= c@);
            }
            return true;
        }
        proof {
            assert(v.deep_view()[i as int] =~= v@[i as int]@);
        }
        i = i + 1;
    }
    false
}

/// The prefix of `cands` below `n`, restricted to the candidates that
/// `guess` classifies into the feedback pair `(e, w)`.
pub open spec fn filter_upto(cands: Seq<Seq<u8>>, guess: Seq<u8>, e: int, w: int, n: int) -> Seq<
    Seq<u8>,
>
    decreases n,
{
    if n <= 0 {
        Seq::empty()
    } else {
        let p = filter_upto(cands, guess, e, w, n - 1);
        if exact_matches(cands[n - 1], guess) == e && color_matches(cands[n - 1], guess) == w {
            p.push(cands[n - 1])
        } else {
            p
        }
    }
}

/// The candidates that remain consistent after guessing `guess` and
/// observing the feedback pair `(e, w)`, in their original order.
pub open spec fn filter_feedback(cands: Seq<Seq<u8>>, guess: Seq<u8>, e: int, w: int) -> Seq<
    Seq<u8>,
> {
    filter_upto(cands, guess, e, w, cands.len() as int)
}

/// Narrow a candidate list to the codes whose classification against `guess`
/// equals the observed feedback pair.
pub fn filter_codes(cands: &Vec<Vec<u8>>, guess: &Vec<u8>, right: usize, wrong: usize) -> (r: Vec<
    Vec<u8>,
>)
    requires
        valid_codes(cands.deep_view()),
        valid_code(guess@),
    ensures
        r.deep_view() == filter_feedback(cands.deep_view(), guess@, right as int, wrong as int),
        valid_codes(r.deep_view()),
{
    let mut out: Vec<Vec<u8>> = Vec::new();
    let mut i: usize = 0;
    while i < cands.len()
        invariant
            i <= cands@.len(),
            valid_codes(cands.deep_view()),
            valid_code(guess@),
            out.deep_view() =~= filter_upto(
                cands.deep_view(),
                guess@,
                right as int,
                wrong as int,
                i as int,
            ),
            valid_codes(out.deep_view()),
        decreases cands@.len() - i,
    {
        proof {
            assert(cands.deep_view()[i as int] =~= cands@[i as int]@);
        }
        let (e, w) = determine_hits(&cands[i], guess);
        if e == right && w == wrong {
            let copy = clone_code(&cands[i]);
            proof {
                assert(copy.deep_view() =~= cands.deep_view()[i as int]);
            }
            out.push(copy);
        }
        proof {
            assert(out.deep_view() =~= filter_upto(
                cands.deep_view(),
                guess@,
                right as int,
                wrong as int,
                i as int + 1,
            ));
        }
        i = i + 1;
    }
    out
}

/// A candidate that classifies into the feedback pair survives every
/// extension of the filtered prefix that covers its position.
proof fn lemma_filter_upto_keeps(cands: Seq<Seq<u8>>, guess: Seq<u8>, e: int, w: int, n: int, k: int)
    requires
        0 <= k < n <= cands.len(),
        exact_matches(cands[k], guess) == e,
        color_matches(cands[k], guess) == w,
    ensures
        filter_upto(cands, guess, e, w, n).contains(cands[k]),
    decreases n,
{
    let p = filter_upto(cands, guess, e, w, n - 1);
    if k == n - 1 {
        assert(filter_upto(cands, guess, e, w, n) == p.push(cands[k]));
        assert(p.push(cands[k])[p.len() as int] == cands[k]);
    } else {
        lemma_filter_upto_keeps(cands, guess, e, w, n - 1, k);
        let j = choose|j: int| 0 <= j < p.len() && p[j] == cands[k];
        if exact_matches(cands[n - 1], guess) == e && color_matches(cands[n - 1], guess) == w {
            assert(p.push(cands[n - 1])[j] == cands[k]);
        }
    }
}

/// Filtering by the feedback that the secret itself produces never evicts
/// the secret: whenever it is among the candidates before, it is among them
/// after.
pub proof fn lemma_filter_sound(cands: Seq<Seq<u8>>, secret: Seq<u8>, guess: Seq<u8>)
    requires
        cands.contains(secret),
    ensures
        filter_feedback(
            cands,
            guess,
            exact_matches(secret, guess),
            color_matches(secret, guess),
        ).contains(secret),
{
    let k = choose|k: int| 0 <= k < cands.len() && cands[k] == secret;
    lemma_filter_upto_keeps(
        cands,
        guess,
        exact_matches(secret, guess),
        color_matches(secret, guess),
        cands.len() as int,
        k,
    );
}

/// Every code that the filter keeps classifies into the feedback pair it
/// filtered by.
proof fn lemma_filter_upto_elems(cands: Seq<Seq<u8>>, guess: Seq<u8>, e: int, w: int, n: int)
    requires
        n <= cands.len(),
    ensures
        forall|j: int|
            0 <= j < filter_upto(cands, guess, e, w, n).len() ==> exact_matches(
                #[trigger] filter_upto(cands, guess, e, w, n)[j],
                guess,
            ) == e && color_matches(filter_upto(cands, guess, e, w, n)[j], guess) == w,
    decreases n,
{
    if n > 0 {
        lemma_filter_upto_elems(cands, guess, e, w, n - 1);
        let p = filter_upto(cands, guess, e, w, n - 1);
        if exact_matches(cands[n - 1], guess) == e && color_matches(cands[n - 1], guess) == w {
            assert(forall|j: int|
                0 <= j < p.len() ==> p.push(cands[n - 1])[j] == #[trigger] p[j]);
        }
    }
}

/// Filtering a list whose every element already classifies into the pair
/// keeps the list unchanged.
proof fn lemma_filter_upto_stable(cands: Seq<Seq<u8>>, guess: Seq<u8>, e: int, w: int, n: int)
    requires
        0 <= n <= cands.len(),
        forall|j: int|
            0 <= j < cands.len() ==> exact_matches(#[trigger] cands[j], guess) == e
                && color_matches(cands[j], guess) == w,
    ensures
        filter_upto(cands, guess, e, w, n) == cands.take(n),
    decreases n,
{
    if n > 0 {
        lemma_filter_upto_stable(cands, guess, e, w, n - 1);
        assert(cands.take(n) =~= cands.take(n - 1).push(cands[n - 1]));
    } else {
        assert(cands.take(0) =~= Seq::<Seq<u8>>::empty());
    }
}

/// Filtering is the identity on a candidate list whose every element
/// already classifies into the filtered pair.
pub proof fn lemma_filter_stable(cands: Seq<Seq<u8>>, guess: Seq<u8>, e: int, w: int)
    requires
        forall|j: int|
            0 <= j < cands.len() ==> exact_matches(#[trigger] cands[j], guess) == e
                && color_matches(cands[j], guess) == w,
    ensures
        filter_feedback(cands, guess, e, w) == cands,
{
    lemma_filter_upto_stable(cands, guess, e, w, cands.len() as int);
    assert(cands.take(cands.len() as int) =~= cands);
}

/// Filtering a candidate list by the same guess and feedback pair twice
/// yields the same list as filtering once.
pub proof fn lemma_filter_idempotent(cands: Seq<Seq<u8>>, guess: Seq<u8>, e: int, w: int)
    ensures
        filter_feedback(filter_feedback(cands, guess, e, w), guess, e, w) == filter_feedback(
            cands,
            guess,
            e,
            w,
        ),
{
    let f = filter_feedback(cands, guess, e, w);
    lemma_filter_upto_elems(cands, guess, e, w, cands.len() as int);
    lemma_filter_upto_stable(f, guess, e, w, f.len() as int);
    assert(f.take(f.len() as int) =~= f);
}

/// Draws one symbol index uniformly.  Relies on `rand::Rng::gen_range` over
/// the range `0..ALPHABET_SIZE`: the sampled value always lies in that
/// half-open range.
#[verifier::external_body]
fn random_symbol() -> (r: u8)
    ensures
        r < ALPHABET_SIZE,
{
    rand::Rng::gen_range(&mut rand::thread_rng(), 0..ALPHABET_SIZE)
}

/// Draw a code uniformly from the code space, one symbol per position.
pub fn random_combination() -> (r: Vec<u8>)
    ensures
        valid_code(r@),
{
    let mut r: Vec<u8> = Vec::new();
    let mut i: usize = 0;
    while i < CODE_LENGTH
        invariant
            i <= CODE_LENGTH,
            r@.len() == i,
            forall|j: int| 0 <= j < i ==> r@[j] < ALPHABET_SIZE,
        decreases CODE_LENGTH - i,
    {
        r.push(random_symbol());
        i = i + 1;
    }
    r
}

/// The code that enumeration places at index `i`: the four digits of `i`
/// written in base `ALPHABET_SIZE`, most significant first.
pub open spec fn code_for_index(i: int) -> Seq<u8> {
    seq![
        ((i / 216) % 6) as u8,
        ((i / 36) % 6) as u8,
        ((i / 6) % 6) as u8,
        (i % 6) as u8,
    ]
}

/// The full code space in enumeration order.
pub open spec fn code_universe() -> Seq<Seq<u8>> {
    Seq::new(1296, |i: int| code_for_index(i))
}

/// Generate the universe of all codes, ordered lexicographically by symbol
/// index.
pub fn all_combinations() -> (r: Vec<Vec<u8>>)
    ensures
        r.deep_view() == code_universe(),
        r@.len() == 1296,
        forall|j: int| 0 <= j < 1296 ==> valid_code(#[trigger] r@[j]@),
{
    let mut r: Vec<Vec<u8>> = Vec::new();
    let mut i: usize = 0;
    while i < 1296
        invariant
            i <= 1296,
            r@.len() == i,
            forall|j: int| 0 <= j < i ==> #[trigger] r@[j]@ == code_for_index(j),
        decreases 1296 - i,
    {
        let mut c: Vec<u8> = Vec::new();
        c.push(((i / 216) % 6) as u8);
        c.push(((i / 36) % 6) as u8);
        c.push(((i / 6) % 6) as u8);
        c.push((i % 6) as u8);
        proof {
            assert(c@ =~= code_for_index(i as int));
        }
        r.push(c);
        i = i + 1;
    }
    proof {
        assert forall|j: int| 0 <= j < 1296 implies valid_code(#[trigger] r@[j]@) by {
            assert(r@[j]@ == code_for_index(j));
        }
        assert forall|j: int| 0 <= j < 1296 implies r.deep_view()[j] == code_universe()[j] by {
            assert(r@[j].deep_view() =~= r@[j]@);
        }
        assert(r.deep_view() =~= code_universe());
    }
    r
}

/// Every valid code sits in the universe, at the index given by reading its
/// symbols as base-`ALPHABET_SIZE` digits.
pub proof fn lemma_universe_complete(c: Seq<u8>)
    requires
        valid_code(c),
    ensures
        0 <= c[0] * 216 + c[1] * 36 + c[2] * 6 + c[3] < 1296,
        code_universe()[c[0] * 216 + c[1] * 36 + c[2] * 6 + c[3]] == c,
{
    let i = c[0] * 216 + c[1] * 36 + c[2] * 6 + c[3];
    assert(0 <= i < 1296);
    assert(i / 216 == c[0] && i % 216 == c[1] * 36 + c[2] * 6 + c[3]) by (nonlinear_arith)
        requires
            i == c[0] * 216 + c[1] * 36 + c[2] * 6 + c[3],
            0 <= c[1] * 36 + c[2] * 6 + c[3] < 216,
            0 <= c[0] < 6,
    ;
    assert((i / 216) % 6 == c[0]);
    assert(i / 36 == c[0] * 6 + c[1] && (c[0] * 6 + c[1]) % 6 == c[1]) by (nonlinear_arith)
        requires
            i == (c[0] * 6 + c[1]) * 36 + c[2] * 6 + c[3],
            0 <= c[2] * 6 + c[3] < 36,
            0 <= c[1] < 6,
            0 <= c[0],
    ;
    assert(i / 6 == c[0] * 36 + c[1] * 6 + c[2] && (c[0] * 36 + c[1] * 6 + c[2]) % 6 == c[2])
        by (nonlinear_arith)
        requires
            i == (c[0] * 36 + c[1] * 6 + c[2]) * 6 + c[3],
            0 <= c[3] < 6,
            0 <= c[2] < 6,
            0 <= c[0] && 0 <= c[1],
    ;
    assert(i % 6 == c[3]) by (nonlinear_arith)
        requires
            i == (c[0] * 36 + c[1] * 6 + c[2]) * 6 + c[3],
            0 <= c[3] < 6,
            0 <= c[0] && 0 <= c[1] && 0 <= c[2],
    ;
    assert(code_for_index(i) =~= c);
}

/// The count of agreeing positions below `n` lies between 0 and `n`.
proof fn lemma_exact_upto_bounds(a: Seq<u8>, b: Seq<u8>, n: int)
    requires
        n >= 0,
    ensures
        0 <= exact_upto(a, b, n) <= n,
    decreases n,
{
    if n > 0 {
        lemma_exact_upto_bounds(a, b, n - 1);
    }
}

/// The free count below `n` lies between 0 and `n`.
proof fn lemma_free_upto_bounds(a: Seq<u8>, b: Seq<u8>, s: u8, n: int)
    requires
        n >= 0,
    ensures
        0 <= free_upto(a, b, s, n) <= n,
    decreases n,
{
    if n > 0 {
        lemma_free_upto_bounds(a, b, s, n - 1);
    }
}

/// Sum over the symbols below `s` of the free occurrences of each in `a`.
spec fn free_sum(a: Seq<u8>, b: Seq<u8>, s: int, n: int) -> int
    decreases s,
{
    if s <= 0 {
        0
    } else {
        free_sum(a, b, s - 1, n) + free_upto(a, b, (s - 1) as u8, n)
    }
}

/// Extending the position range by one adds one free occurrence to the sum
/// exactly when the new position disagrees and its symbol lies below `s`.
proof fn lemma_free_sum_step(a: Seq<u8>, b: Seq<u8>, s: int, n: int)
    requires
        1 <= n,
        0 <= s <= ALPHABET_SIZE,
    ensures
        free_sum(a, b, s, n) == free_sum(a, b, s, n - 1) + if a[n - 1] != b[n - 1] && a[n - 1]
            < s {
            1int
        } else {
            0int
        },
    decreases s,
{
    if s > 0 {
        lemma_free_sum_step(a, b, s - 1, n);
    }
}

/// An empty position range leaves every free count, and so their sum, at
/// zero.
proof fn lemma_free_sum_empty(a: Seq<u8>, b: Seq<u8>, s: int)
    ensures
        free_sum(a, b, s, 0) == 0,
    decreases s,
{
    if s > 0 {
        lemma_free_sum_empty(a, b, s - 1);
    }
}

/// Every position disagreeing below `n` is counted once in the sum of free
/// occurrences over the whole alphabet, so that sum complements the exact
/// count.
proof fn lemma_free_sum_total(a: Seq<u8>, b: Seq<u8>, n: int)
    requires
        0 <= n,
        forall|i: int| 0 <= i < n ==> a[i] < ALPHABET_SIZE,
    ensures
        free_sum(a, b, ALPHABET_SIZE as int, n) == n - exact_upto(a, b, n),
    decreases n,
{
    if n == 0 {
        lemma_free_sum_empty(a, b, ALPHABET_SIZE as int);
    } else {
        lemma_free_sum_total(a, b, n - 1);
        lemma_free_sum_step(a, b, ALPHABET_SIZE as int, n);
    }
}

/// Each symbol's contribution to the wrong-position count is at most its
/// free count in `a`, so the partial sums are bounded by the free sums.
proof fn lemma_color_le_free_sum(a: Seq<u8>, b: Seq<u8>, s: int)
    requires
        0 <= s,
    ensures
        0 <= color_upto(a, b, s) <= free_sum(a, b, s, a.len() as int),
    decreases s,
{
    if s > 0 {
        lemma_color_le_free_sum(a, b, s - 1);
        lemma_free_upto_bounds(a, b, (s - 1) as u8, a.len() as int);
        lemma_free_upto_bounds(b, a, (s - 1) as u8, b.len() as int);
    }
}

/// The feedback pair is bounded: both counts are non-negative and they sum
/// to at most the code length.
pub proof fn lemma_feedback_bound(a: Seq<u8>, b: Seq<u8>)
    requires
        valid_code(a),
        valid_code(b),
    ensures
        0 <= exact_matches(a, b),
        0 <= color_matches(a, b),
        exact_matches(a, b) + color_matches(a, b) <= CODE_LENGTH,
{
    lemma_exact_upto_bounds(a, b, a.len() as int);
    lemma_free_sum_total(a, b, a.len() as int);
    lemma_color_le_free_sum(a, b, ALPHABET_SIZE as int);
}

/// Counting agreeing positions does not depend on the argument order.
proof fn lemma_exact_upto_symmetric(a: Seq<u8>, b: Seq<u8>, n: int)
    ensures
        exact_upto(a, b, n) == exact_upto(b, a, n),
    decreases n,
{
    if n > 0 {
        lemma_exact_upto_symmetric(a, b, n - 1);
    }
}

/// Each symbol's contribution is the minimum of a pair that swapping the
/// codes merely reverses.
proof fn lemma_color_upto_symmetric(a: Seq<u8>, b: Seq<u8>, s: int)
    ensures
        color_upto(a, b, s) == color_upto(b, a, s),
    decreases s,
{
    if s > 0 {
        lemma_color_upto_symmetric(a, b, s - 1);
    }
}

/// The feedback pair is symmetric in its two codes: agreement by position and
/// shared symbol multisets both ignore which code is the reference.
pub proof fn lemma_classify_symmetric(a: Seq<u8>, b: Seq<u8>)
    requires
        a.len() == b.len(),
    ensures
        exact_matches(a, b) == exact_matches(b, a),
        color_matches(a, b) == color_matches(b, a),
{
    lemma_exact_upto_symmetric(a, b, a.len() as int);
    lemma_color_upto_symmetric(a, b, ALPHABET_SIZE as int);
}

/// A code agrees with itself at every position.
proof fn lemma_exact_upto_self(a: Seq<u8>, n: int)
    requires
        0 <= n,
    ensures
        exact_upto(a, a, n) == n,
    decreases n,
{
    if n > 0 {
        lemma_exact_upto_self(a, n - 1);
    }
}

/// No position of a code disagrees with itself, so nothing is free.
proof fn lemma_free_upto_self(a: Seq<u8>, s: u8, n: int)
    ensures
        free_upto(a, a, s, n) == 0,
    decreases n,
{
    if n > 0 {
        lemma_free_upto_self(a, s, n - 1);
    }
}

/// With no free occurrences on either side every symbol contributes zero.
proof fn lemma_color_upto_self(a: Seq<u8>, s: int)
    ensures
        color_upto(a, a, s) == 0,
    decreases s,
{
    if s > 0 {
        lemma_color_upto_self(a, s - 1);
        lemma_free_upto_self(a, (s - 1) as u8, a.len() as int);
    }
}

/// Classifying a code against itself yields a full exact count and no
/// wrong-position matches.
pub proof fn lemma_classify_self(a: Seq<u8>)
    ensures
        exact_matches(a, a) == a.len(),
        color_matches(a, a) == 0,
{
    lemma_exact_upto_self(a, a.len() as int);
    lemma_color_upto_self(a, ALPHABET_SIZE as int);
}

/// Three exact matches leave a single disagreeing position on each side, and
/// its two symbols differ, so no wrong-position match can form: the pair
/// `(3, 1)` can never be produced.
pub proof fn lemma_excluded_pair(a: Seq<u8>, b: Seq<u8>)
    requires
        valid_code(a),
        valid_code(b),
        exact_matches(a, b) == 3,
    ensures
        color_matches(a, b) == 0,
{
    reveal_with_fuel(exact_upto, 5);
    let p: int = if a[0] != b[0] {
        0
    } else if a[1] != b[1] {
        1
    } else if a[2] != b[2] {
        2
    } else {
        3
    };
    assert(a[p] != b[p]);
    assert(forall|j: int| 0 <= j < 4 && j != p ==> a[j] == b[j]);
    assert forall|s: u8| #[trigger] free_count(a, b, s) == if a[p] == s {
        1int
    } else {
        0int
    } by {
        reveal_with_fuel(free_upto, 5);
    }
    assert forall|s: u8| #[trigger] free_count(b, a, s) == if b[p] == s {
        1int
    } else {
        0int
    } by {
        reveal_with_fuel(free_upto, 5);
    }
    reveal_with_fuel(color_upto, 7);
    assert(color_matches(a, b) == 0);
}

} // verus!

