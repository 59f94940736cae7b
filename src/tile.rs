//! Scoring of one guess against the secret answer.

use vstd::prelude::*;

verus! {

/// The number of characters of a playable word.
pub const WORD_LEN: usize = 5;

/// The outcome of one position of a guess.
#[derive(Clone, Copy, Debug, PartialEq, Eq, Structural)]
pub enum Placement {
    /// Right letter in the right position.
    Correct,
    /// Right letter, wrong position.
    Incorrect,
    /// The letter cannot improve the score any further.
    Missing,
}

/// Whether both words have a position `k` and agree there.
pub open spec fn matched(attempt: Seq<char>, answer: Seq<char>, k: int) -> bool {
    0 <= k < attempt.len() && k < answer.len() && attempt[k] == answer[k]
}

/// Positions `k < n` where the answer holds `c` and the guess does not match
/// the answer exactly: the copies of `c` still free after the exact matches.
pub open spec fn unmatched(attempt: Seq<char>, answer: Seq<char>, c: char, n: int) -> nat
    decreases n,
{
    if n <= 0 {
        0
    } else {
        unmatched(attempt, answer, c, n - 1) + if answer[n - 1] == c && !matched(
            attempt,
            answer,
            n - 1,
        ) {
            1nat
        } else {
            0nat
        }
    }
}

/// Positions `j < i` where the guess holds `c` without an exact match.
pub open spec fn misplaced_before(attempt: Seq<char>, answer: Seq<char>, c: char, i: int) -> nat
    decreases i,
{
    if i <= 0 {
        0
    } else {
        misplaced_before(attempt, answer, c, i - 1) + if attempt[i - 1] == c && !matched(
            attempt,
            answer,
            i - 1,
        ) {
            1nat
        } else {
            0nat
        }
    }
}

/// The placement of position `i`: exact matches first; then, from left to
/// right, each other letter takes one of the answer's free copies of it while
/// any is left.
pub open spec fn placement_of(attempt: Seq<char>, answer: Seq<char>, i: int) -> Placement {
    if matched(attempt, answer, i) {
        Placement::Correct
    } else if misplaced_before(attempt, answer, attempt[i], i) < unmatched(
        attempt,
        answer,
        attempt[i],
        answer.len() as int,
    ) {
        Placement::Incorrect
    } else {
        Placement::Missing
    }
}

/// The placements of every position of a guess.
pub open spec fn evaluation(attempt: Seq<char>, answer: Seq<char>) -> Seq<Placement> {
    Seq::new(attempt.len(), |i: int| placement_of(attempt, answer, i))
}

/// Whether every placement is `Correct`.
pub open spec fn all_correct(ps: Seq<Placement>) -> bool {
    forall|i: int| 0 <= i < ps.len() ==> ps[i] == Placement::Correct
}

/// Positions `i < n` holding `p`.
pub open spec fn count_placement(ps: Seq<Placement>, p: Placement, n: int) -> nat
    decreases n,
{
    if n <= 0 {
        0
    } else {
        count_placement(ps, p, n - 1) + if ps[n - 1] == p {
            1nat
        } else {
            0nat
        }
    }
}

/// Positions `i < n` where the two words agree.
pub open spec fn count_matches(attempt: Seq<char>, answer: Seq<char>, n: int) -> nat
    decreases n,
{
    if n <= 0 {
        0
    } else {
        count_matches(attempt, answer, n - 1) + if attempt[n - 1] == answer[n - 1] {
            1nat
        } else {
            0nat
        }
    }
}

/// Positions `i < n` of the guess holding `c` that were scored `Incorrect`.
pub open spec fn count_present(attempt: Seq<char>, ps: Seq<Placement>, c: char, n: int) -> nat
    decreases n,
{
    if n <= 0 {
        0
    } else {
        count_present(attempt, ps, c, n - 1) + if attempt[n - 1] == c && ps[n - 1]
            == Placement::Incorrect {
            1nat
        } else {
            0nat
        }
    }
}

/// The glyph shown for one placement.
pub open spec fn glyph(p: Placement) -> Seq<char> {
    match p {
        Placement::Correct => "\u{1F7E9}"@,
        Placement::Incorrect => "\u{1F7E8}"@,
        Placement::Missing => "\u{2B1B}"@,
    }
}

/// The glyphs of a row of placements, side by side.
pub open spec fn glyphs(ps: Seq<Placement>) -> Seq<char>
    decreases ps.len(),
{
    if ps.len() == 0 {
        Seq::empty()
    } else {
        glyphs(ps.drop_last()) + glyph(ps.last())
    }
}

/// Whether `attempt` and `answer` have a position `k` and agree there.
fn matches_at(attempt: &Vec<char>, answer: &Vec<char>, k: usize) -> (r: bool)
    ensures
        r == matched(attempt@, answer@, k as int),
{
    k < attempt.len() && k < answer.len() && attempt[k] == answer[k]
}

/// Counts the positions `k < n` where `answer` holds `c` and `attempt` differs.
fn count_unmatched(attempt: &Vec<char>, answer: &Vec<char>, c: char, n: usize) -> (r: usize)
    requires
        n <= answer@.len(),
    ensures
        r == unmatched(attempt@, answer@, c, n as int),
{
    let mut r: usize = 0;
    let mut k: usize = 0;
    while k < n
        invariant
            k <= n,
            n <= answer@.len(),
            r == unmatched(attempt@, answer@, c, k as int),
            r <= k,
        decreases n - k,
    {
        if answer[k] == c && !matches_at(attempt, answer, k) {
            r = r + 1;
        }
        k = k + 1;
    }
    r
}

/// Counts the positions `j < i` where `attempt` holds `c` and differs from `answer`.
fn count_misplaced(attempt: &Vec<char>, answer: &Vec<char>, c: char, i: usize) -> (r: usize)
    requires
        i <= attempt@.len(),
    ensures
        r == misplaced_before(attempt@, answer@, c, i as int),
{
    let mut r: usize = 0;
    let mut j: usize = 0;
    while j < i
        invariant
            j <= i,
            i <= attempt@.len(),
            r == misplaced_before(attempt@, answer@, c, j as int),
            r <= j,
        decreases i - j,
    {
        if attempt[j] == c && !matches_at(attempt, answer, j) {
            r = r + 1;
        }
        j = j + 1;
    }
    r
}

/// The characters of a word, in order.
fn chars_of(s: &str) -> (r: Vec<char>)
    ensures
        r@ == s@,
{
    let n = s.unicode_len();
    let mut r: Vec<char> = Vec::new();
    let mut i: usize = 0;
    while i < n
        invariant
            n == s@.len(),
            i <= n,
            r@ == s@.subrange(0, i as int),
        decreases n - i,
    {
        r.push(s.get_char(i));
        i = i + 1;
    }
    r
}

/// Scores `attempt` against `answer`, one placement per position of the
/// guess; an answer of another length agrees with the guess on no position
/// past its end.
pub fn evaluate(attempt: &str, answer: &str) -> (r: Vec<Placement>)
    requires
        attempt@.len() == WORD_LEN,
    ensures
        r@ == evaluation(attempt@, answer@),
{
    let a = chars_of(attempt);
    let b = chars_of(answer);
    let mut r: Vec<Placement> = Vec::new();
    let mut i: usize = 0;
    while i < WORD_LEN
        invariant
            a@ == attempt@,
            b@ == answer@,
            a@.len() == WORD_LEN,
            i <= WORD_LEN,
            r@.len() == i,
            forall|j: int| 0 <= j < i ==> r@[j] == placement_of(a@, b@, j),
        decreases WORD_LEN - i,
    {
        let p = if matches_at(&a, &b, i) {
            Placement::Correct
        } else if count_misplaced(&a, &b, a[i], i) < count_unmatched(&a, &b, a[i], b.len()) {
            Placement::Incorrect
        } else {
            Placement::Missing
        };
        r.push(p);
        i = i + 1;
    }
    assert(r@ =~= evaluation(attempt@, answer@));
    r
}

/// Whether every placement is `Correct`: the guess is the answer.
pub fn is_win(ps: &Vec<Placement>) -> (r: bool)
    ensures
        r == all_correct(ps@),
{
    let mut i: usize = 0;
    while i < ps.len()
        invariant
            i <= ps@.len(),
            forall|j: int| 0 <= j < i ==> ps@[j] == Placement::Correct,
        decreases ps@.len() - i,
    {
        if ps[i] != Placement::Correct {
            return false;
        }
        i = i + 1;
    }
    true
}

/// The row of glyphs that shows a scored guess.
pub fn to_emoji(placement: &Vec<Placement>) -> (r: String)
    ensures
        r@ == glyphs(placement@),
{
    let mut r = String::new();
    let mut i: usize = 0;
    while i < placement.len()
        invariant
            i <= placement@.len(),
            r@ == glyphs(placement@.subrange(0, i as int)),
        decreases placement@.len() - i,
    {
        let g: &str = match placement[i] {
            Placement::Correct => "\u{1F7E9}",
            Placement::Incorrect => "\u{1F7E8}",
            Placement::Missing => "\u{2B1B}",
        };
        r.append(g);
        proof {
            let s = placement@.subrange(0, i as int + 1);
            assert(s.drop_last() =~= placement@.subrange(0, i as int));
        }
        i = i + 1;
    }
    assert(placement@.subrange(0, placement@.len() as int) =~= placement@);
    r
}

/// Scoring is exact on matches: the number of `Correct` placements equals the
/// number of positions where the guess and the answer agree.
pub proof fn lemma_correct_count(attempt: Seq<char>, answer: Seq<char>)
    requires
        attempt.len() == answer.len(),
    ensures
        count_placement(evaluation(attempt, answer), Placement::Correct, attempt.len() as int)
            == count_matches(attempt, answer, attempt.len() as int),
{
    lemma_correct_prefix(attempt, answer, attempt.len() as int);
}

proof fn lemma_correct_prefix(attempt: Seq<char>, answer: Seq<char>, n: int)
    requires
        attempt.len() == answer.len(),
        0 <= n <= attempt.len(),
    ensures
        count_placement(evaluation(attempt, answer), Placement::Correct, n) == count_matches(
            attempt,
            answer,
            n,
        ),
    decreases n,
{
    if n > 0 {
        lemma_correct_prefix(attempt, answer, n - 1);
    }
}

/// The `Incorrect` placements of a letter among the first `i` positions: as
/// many as the guess's inexact copies of it there, up to the free copies.
proof fn lemma_present_prefix(attempt: Seq<char>, answer: Seq<char>, c: char, i: int)
    requires
        attempt.len() == answer.len(),
        0 <= i <= attempt.len(),
    ensures
        count_present(attempt, evaluation(attempt, answer), c, i) == if misplaced_before(
            attempt,
            answer,
            c,
            i,
        ) < unmatched(attempt, answer, c, answer.len() as int) {
            misplaced_before(attempt, answer, c, i)
        } else {
            unmatched(attempt, answer, c, answer.len() as int)
        },
    decreases i,
{
    if i > 0 {
        lemma_present_prefix(attempt, answer, c, i - 1);
    }
}

/// Repeated letters are never over-counted: for every letter, the `Incorrect`
/// placements of it never outnumber the copies of it in the answer that are
/// left once the exact matches are taken out.
pub proof fn lemma_present_bounded(attempt: Seq<char>, answer: Seq<char>, c: char)
    requires
        attempt.len() == answer.len(),
    ensures
        count_present(attempt, evaluation(attempt, answer), c, attempt.len() as int)
            <= unmatched(attempt, answer, c, answer.len() as int),
{
    lemma_present_prefix(attempt, answer, c, attempt.len() as int);
}

} // verus!
