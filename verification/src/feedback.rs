//! Per-letter feedback for a guess against the secret.
//!
//! The evaluator runs the classic duplicate-safe two-pass scan: pass 1
//! marks exact-position matches `Correct` and consumes those secret
//! positions; pass 2 walks the remaining guess positions left to right
//! and marks each `Present` when an unconsumed occurrence of its letter
//! is still available in the secret (consuming the leftmost one), and
//! `Absent` otherwise.
//!
//! The specification states the outcome of that scan in closed form:
//! because consumption is per letter, a position's mark depends only on
//! how many occurrences of its letter pass 1 left available in the
//! secret, and how many earlier guess positions carry the same letter
//! out of place.

use vstd::prelude::*;

verus! {

/// Per-letter classification of a guess against the secret.
#[derive(Clone, Copy, PartialEq, Eq, Structural, Debug)]
pub enum Feedback {
    /// The letter matches the secret at this exact position.
    Correct,
    /// The letter occurs elsewhere in the secret and an occurrence of it
    /// is still unaccounted for by higher-priority matches.
    Present,
    /// The letter does not occur in the secret, or every occurrence of
    /// it is already accounted for.
    Absent,
}

/// Number of positions `j < n` where the secret holds `x` but the guess
/// misses it (`s[j] == x` and `g[j] != s[j]`): the occurrences of `x`
/// that pass 1 leaves available for `Present` marks.
pub open spec fn avail_upto(g: Seq<char>, s: Seq<char>, x: char, n: int) -> int
    decreases n,
{
    if n <= 0 {
        0
    } else {
        avail_upto(g, s, x, n - 1) + if s[n - 1] == x && g[n - 1] != s[n - 1] {
            1int
        } else {
            0int
        }
    }
}

/// Occurrences of `x` in the whole secret that pass 1 leaves available.
pub open spec fn avail(g: Seq<char>, s: Seq<char>, x: char) -> int {
    avail_upto(g, s, x, s.len() as int)
}

/// Number of positions `j < n` where the guess holds `x` out of place
/// (`g[j] == x` and `g[j] != s[j]`): the guess positions that compete,
/// left to right, for the available occurrences of `x`.
pub open spec fn misses_upto(g: Seq<char>, s: Seq<char>, x: char, n: int) -> int
    decreases n,
{
    if n <= 0 {
        0
    } else {
        misses_upto(g, s, x, n - 1) + if g[n - 1] == x && g[n - 1] != s[n - 1] {
            1int
        } else {
            0int
        }
    }
}

/// The feedback the two-pass scan assigns to position `i`: `Correct` on
/// an exact match; otherwise `Present` exactly while the guess positions
/// before `i` carrying the same letter out of place have not yet claimed
/// every available occurrence of that letter.
pub open spec fn feedback_at(g: Seq<char>, s: Seq<char>, i: int) -> Feedback {
    if g[i] == s[i] {
        Feedback::Correct
    } else if misses_upto(g, s, g[i], i) < avail(g, s, g[i]) {
        Feedback::Present
    } else {
        Feedback::Absent
    }
}

/// Feedback for a whole guess against a secret of the same length.
pub open spec fn feedback_of(g: Seq<char>, s: Seq<char>) -> Seq<Feedback> {
    Seq::new(g.len(), |i: int| feedback_at(g, s, i))
}

proof fn lemma_avail_upto_nonneg(g: Seq<char>, s: Seq<char>, x: char, n: int)
    ensures
        avail_upto(g, s, x, n) >= 0,
    decreases n,
{
    if n > 0 {
        lemma_avail_upto_nonneg(g, s, x, n - 1);
    }
}

proof fn lemma_misses_upto_nonneg(g: Seq<char>, s: Seq<char>, x: char, n: int)
    ensures
        misses_upto(g, s, x, n) >= 0,
    decreases n,
{
    if n > 0 {
        lemma_misses_upto_nonneg(g, s, x, n - 1);
    }
}

proof fn lemma_avail_upto_monotone(g: Seq<char>, s: Seq<char>, x: char, m: int, n: int)
    requires
        m <= n,
    ensures
        avail_upto(g, s, x, m) <= avail_upto(g, s, x, n),
    decreases n - m,
{
    if m < n {
        lemma_avail_upto_monotone(g, s, x, m, n - 1);
    }
}

/// `min2(a, b)` is the smaller of `a` and `b`.
spec fn min2(a: int, b: int) -> int {
    if a <= b {
        a
    } else {
        b
    }
}

/// How many available occurrences of `x` the first `i` guess positions
/// have claimed: one per out-of-place occurrence of `x` among them,
/// capped by what is available.
spec fn claimed(g: Seq<char>, s: Seq<char>, x: char, i: int) -> int {
    min2(misses_upto(g, s, x, i), avail(g, s, x))
}

/// The consumed set pass 2 holds after scanning the first `i` guess
/// positions, described by counting: a secret position is consumed
/// exactly when pass 1 matched it, or when its rank among the available
/// occurrences of its letter falls below the number already claimed.
spec fn consumed_matches(g: Seq<char>, s: Seq<char>, c: Seq<bool>, i: int) -> bool {
    &&& c.len() == s.len()
    &&& forall|j: int|
        0 <= j < s.len() ==> (c[j] <==> (g[j] == s[j] || avail_upto(g, s, s[j], j) < claimed(
            g,
            s,
            s[j],
            i,
        )))
}

/// If every secret position before `j` holding `x` is consumed, the rank
/// of position `j` cannot exceed the claimed count for `x`.
proof fn lemma_consumed_prefix_bound(
    g: Seq<char>,
    s: Seq<char>,
    c: Seq<bool>,
    i: int,
    x: char,
    j: int,
)
    requires
        g.len() == s.len(),
        consumed_matches(g, s, c, i),
        0 <= j <= s.len(),
        forall|j2: int| 0 <= j2 < j && s[j2] == x ==> c[j2],
    ensures
        avail_upto(g, s, x, j) <= claimed(g, s, x, i),
    decreases j,
{
    lemma_misses_upto_nonneg(g, s, x, i);
    lemma_avail_upto_nonneg(g, s, x, s.len() as int);
    if j > 0 {
        if s[j - 1] == x && g[j - 1] != s[j - 1] {
            assert(c[j - 1]);
            assert(avail_upto(g, s, x, j - 1) < claimed(g, s, x, i));
        } else {
            lemma_consumed_prefix_bound(g, s, c, i, x, j - 1);
        }
    }
}

/// Pass 2's scan of the secret: the leftmost position that still holds
/// an unconsumed occurrence of `x`.
fn find_unconsumed(secret: &Vec<char>, consumed: &Vec<bool>, x: char) -> (r: Option<usize>)
    requires
        consumed@.len() == secret@.len(),
    ensures
        match r {
            Some(j) => {
                &&& 0 <= j < secret@.len()
                &&& !consumed@[j as int]
                &&& secret@[j as int] == x
                &&& forall|j2: int| 0 <= j2 < j ==> consumed@[j2] || secret@[j2] != x
            },
            None => forall|j2: int|
                0 <= j2 < secret@.len() ==> consumed@[j2] || secret@[j2] != x,
        },
{
    let n = secret.len();
    let mut j: usize = 0;
    while j < n
        invariant
            secret@.len() == n,
            consumed@.len() == n,
            j <= n,
            forall|j2: int| 0 <= j2 < j ==> consumed@[j2] || secret@[j2] != x,
        decreases n - j,
    {
        if !consumed[j] && secret[j] == x {
            return Some(j);
        }
        j += 1;
    }
    None
}

/// Two-pass evaluation of a guess against a secret of the same length,
/// with per-call consumed tracking over the secret's positions.
pub fn evaluate(guess: &Vec<char>, secret: &Vec<char>) -> (fb: Vec<Feedback>)
    requires
        guess@.len() == secret@.len(),
    ensures
        fb@ == feedback_of(guess@, secret@),
{
    let ghost g = guess@;
    let ghost s = secret@;
    let n = guess.len();
    let mut fb: Vec<Feedback> = Vec::new();
    let mut consumed: Vec<bool> = Vec::new();

    // Pass 1: exact positions.
    let mut i: usize = 0;
    while i < n
        invariant
            guess@ == g,
            secret@ == s,
            g.len() == n,
            s.len() == n,
            i <= n,
            fb@.len() == i,
            consumed@.len() == i,
            forall|k: int| 0 <= k < i ==> consumed@[k] == (g[k] == s[k]),
            forall|k: int|
                0 <= k < i ==> fb@[k] == (if g[k] == s[k] {
                    Feedback::Correct
                } else {
                    Feedback::Absent
                }),
        decreases n - i,
    {
        if guess[i] == secret[i] {
            fb.push(Feedback::Correct);
            consumed.push(true);
        } else {
            fb.push(Feedback::Absent);
            consumed.push(false);
        }
        i += 1;
    }

    proof {
        assert forall|j: int| 0 <= j < n implies (consumed@[j] <==> (g[j] == s[j] || avail_upto(
            g,
            s,
            s[j],
            j,
        ) < claimed(g, s, s[j], 0))) by {
            lemma_avail_upto_nonneg(g, s, s[j], j);
            lemma_avail_upto_nonneg(g, s, s[j], s.len() as int);
            assert(claimed(g, s, s[j], 0) == 0);
        }
        assert(consumed_matches(g, s, consumed@, 0));
    }

    // Pass 2: remaining presence, leftmost unconsumed occurrence first.
    let mut i: usize = 0;
    while i < n
        invariant
            guess@ == g,
            secret@ == s,
            g.len() == n,
            s.len() == n,
            i <= n,
            fb@.len() == n,
            consumed_matches(g, s, consumed@, i as int),
            forall|k: int| 0 <= k < i ==> fb@[k] == feedback_at(g, s, k),
            forall|k: int|
                i <= k < n ==> fb@[k] == (if g[k] == s[k] {
                    Feedback::Correct
                } else {
                    Feedback::Absent
                }),
        decreases n - i,
    {
        let ghost c0 = consumed@;
        let gi = guess[i];
        if gi != secret[i] {
            let ghost x = g[i as int];
            match find_unconsumed(secret, &consumed, gi) {
                Some(j) => {
                    proof {
                        // The found position has exactly the claimed rank, so
                        // a claim is still available and this mark is Present.
                        lemma_consumed_prefix_bound(g, s, c0, i as int, x, j as int);
                        assert(avail_upto(g, s, x, j as int) >= claimed(g, s, x, i as int));
                        assert(avail_upto(g, s, x, j as int) == claimed(g, s, x, i as int));
                        assert(avail_upto(g, s, x, j as int + 1) == avail_upto(g, s, x, j as int)
                            + 1);
                        lemma_avail_upto_monotone(g, s, x, j as int + 1, s.len() as int);
                        assert(claimed(g, s, x, i as int) < avail(g, s, x));
                        assert(misses_upto(g, s, x, i as int) < avail(g, s, x));
                        assert(feedback_at(g, s, i as int) == Feedback::Present);
                    }
                    consumed.set(j, true);
                    fb.set(i, Feedback::Present);
                    proof {
                        let i1 = i as int + 1;
                        assert(misses_upto(g, s, x, i1) == misses_upto(g, s, x, i as int) + 1);
                        assert(claimed(g, s, x, i1) == claimed(g, s, x, i as int) + 1);
                        assert forall|j2: int| 0 <= j2 < n implies (consumed@[j2] <==> (g[j2]
                            == s[j2] || avail_upto(g, s, s[j2], j2) < claimed(g, s, s[j2], i1)))
                            by {
                            if s[j2] == x {
                                if j2 < j {
                                    lemma_avail_upto_monotone(g, s, x, j2 + 1, j as int);
                                } else if j2 > j {
                                    lemma_avail_upto_monotone(g, s, x, j as int + 1, j2);
                                }
                            } else {
                                assert(misses_upto(g, s, s[j2], i1) == misses_upto(
                                    g,
                                    s,
                                    s[j2],
                                    i as int,
                                ));
                            }
                        }
                        assert(consumed_matches(g, s, consumed@, i1));
                    }
                }
                None => {
                    proof {
                        // Every occurrence of the letter is consumed: the
                        // claimed count has reached what is available, so
                        // this mark stays Absent and nothing changes.
                        let i1 = i as int + 1;
                        lemma_consumed_prefix_bound(g, s, c0, i as int, x, s.len() as int);
                        assert(avail(g, s, x) <= claimed(g, s, x, i as int));
                        assert(misses_upto(g, s, x, i as int) >= avail(g, s, x));
                        assert(feedback_at(g, s, i as int) == Feedback::Absent);
                        assert(misses_upto(g, s, x, i1) == misses_upto(g, s, x, i as int) + 1);
                        assert(claimed(g, s, x, i1) == claimed(g, s, x, i as int));
                        assert forall|j2: int| 0 <= j2 < n implies (consumed@[j2] <==> (g[j2]
                            == s[j2] || avail_upto(g, s, s[j2], j2) < claimed(g, s, s[j2], i1)))
                            by {
                            if s[j2] != x {
                                assert(misses_upto(g, s, s[j2], i1) == misses_upto(
                                    g,
                                    s,
                                    s[j2],
                                    i as int,
                                ));
                            }
                        }
                        assert(consumed_matches(g, s, consumed@, i1));
                    }
                }
            }
        } else {
            proof {
                // An exact match claims nothing in pass 2.
                let i1 = i as int + 1;
                assert forall|j2: int| 0 <= j2 < n implies (consumed@[j2] <==> (g[j2] == s[j2]
                    || avail_upto(g, s, s[j2], j2) < claimed(g, s, s[j2], i1))) by {
                    assert(misses_upto(g, s, s[j2], i1) == misses_upto(g, s, s[j2], i as int));
                }
                assert(consumed_matches(g, s, consumed@, i1));
                assert(feedback_at(g, s, i as int) == Feedback::Correct);
            }
        }
        i += 1;
    }

    proof {
        assert(fb@ =~= feedback_of(g, s));
    }
    fb
}

/// Law: a guess equal to the secret is marked `Correct` at every
/// position.
pub proof fn lemma_equal_guess_all_correct(g: Seq<char>, s: Seq<char>)
    requires
        g == s,
    ensures
        forall|i: int| 0 <= i < g.len() ==> feedback_of(g, s)[i] == Feedback::Correct,
{
}

/// When `x` occurs nowhere in the first `n` secret positions, nothing
/// of it is available there.
proof fn lemma_avail_upto_zero(g: Seq<char>, s: Seq<char>, x: char, n: int)
    requires
        forall|j: int| 0 <= j < n ==> s[j] != x,
    ensures
        avail_upto(g, s, x, n) == 0,
    decreases n,
{
    if n > 0 {
        lemma_avail_upto_zero(g, s, x, n - 1);
    }
}

/// Law: a guess sharing no letter with the secret is marked `Absent` at
/// every position.
pub proof fn lemma_disjoint_guess_all_absent(g: Seq<char>, s: Seq<char>)
    requires
        g.len() == s.len(),
        forall|i: int, j: int| 0 <= i < g.len() && 0 <= j < s.len() ==> g[i] != s[j],
    ensures
        forall|i: int| 0 <= i < g.len() ==> feedback_of(g, s)[i] == Feedback::Absent,
{
    assert forall|i: int| 0 <= i < g.len() implies feedback_of(g, s)[i] == Feedback::Absent by {
        assert(g[i] != s[i]);
        lemma_avail_upto_zero(g, s, g[i], s.len() as int);
        lemma_misses_upto_nonneg(g, s, g[i], i);
    }
}

/// Occurrences of `x` among the first `n` letters of `w`.
pub open spec fn occurrences_upto(w: Seq<char>, x: char, n: int) -> int
    decreases n,
{
    if n <= 0 {
        0
    } else {
        occurrences_upto(w, x, n - 1) + if w[n - 1] == x {
            1int
        } else {
            0int
        }
    }
}

/// Occurrences of `x` in `w`.
pub open spec fn occurrences(w: Seq<char>, x: char) -> int {
    occurrences_upto(w, x, w.len() as int)
}

/// Positions among the first `n` that hold `x` in the guess and receive
/// feedback `f`.
pub open spec fn marked_upto(g: Seq<char>, s: Seq<char>, x: char, f: Feedback, n: int) -> int
    decreases n,
{
    if n <= 0 {
        0
    } else {
        marked_upto(g, s, x, f, n - 1) + if g[n - 1] == x && feedback_at(g, s, n - 1) == f {
            1int
        } else {
            0int
        }
    }
}

/// Positions that hold `x` in the guess and receive feedback `f`.
pub open spec fn marked(g: Seq<char>, s: Seq<char>, x: char, f: Feedback) -> int {
    marked_upto(g, s, x, f, g.len() as int)
}

proof fn lemma_occurrences_upto_nonneg(w: Seq<char>, x: char, n: int)
    ensures
        occurrences_upto(w, x, n) >= 0,
    decreases n,
{
    if n > 0 {
        lemma_occurrences_upto_nonneg(w, x, n - 1);
    }
}

/// When no guess occurrence of `x` sits at its correct position, the
/// available count of `x` is its occurrence count in the secret.
proof fn lemma_avail_eq_occurrences(g: Seq<char>, s: Seq<char>, x: char, n: int)
    requires
        g.len() == s.len(),
        0 <= n <= s.len(),
        forall|i: int| 0 <= i < g.len() && g[i] == x ==> g[i] != s[i],
    ensures
        avail_upto(g, s, x, n) == occurrences_upto(s, x, n),
    decreases n,
{
    if n > 0 {
        lemma_avail_eq_occurrences(g, s, x, n - 1);
    }
}

/// When no guess occurrence of `x` sits at its correct position, the
/// competing count of `x` is its occurrence count in the guess.
proof fn lemma_misses_eq_occurrences(g: Seq<char>, s: Seq<char>, x: char, n: int)
    requires
        g.len() == s.len(),
        0 <= n <= g.len(),
        forall|i: int| 0 <= i < g.len() && g[i] == x ==> g[i] != s[i],
    ensures
        misses_upto(g, s, x, n) == occurrences_upto(g, x, n),
    decreases n,
{
    if n > 0 {
        lemma_misses_eq_occurrences(g, s, x, n - 1);
    }
}

/// Running tally behind the duplicate-letter law: among the first `n`
/// positions, the occurrences of `x` in the guess are marked `Present`
/// up to the secret's supply `k`, and `Absent` past it.
proof fn lemma_duplicate_tally(g: Seq<char>, s: Seq<char>, x: char, k: int, n: int)
    requires
        g.len() == s.len(),
        occurrences(s, x) == k,
        0 <= n <= g.len(),
        forall|i: int| 0 <= i < g.len() && g[i] == x ==> g[i] != s[i],
    ensures
        marked_upto(g, s, x, Feedback::Correct, n) == 0,
        marked_upto(g, s, x, Feedback::Present, n) == min2(occurrences_upto(g, x, n), k),
        marked_upto(g, s, x, Feedback::Absent, n) == occurrences_upto(g, x, n) - min2(
            occurrences_upto(g, x, n),
            k,
        ),
    decreases n,
{
    lemma_occurrences_upto_nonneg(s, x, s.len() as int);
    if n > 0 {
        lemma_duplicate_tally(g, s, x, k, n - 1);
        if g[n - 1] == x {
            lemma_misses_eq_occurrences(g, s, x, n - 1);
            lemma_avail_eq_occurrences(g, s, x, s.len() as int);
            lemma_occurrences_upto_nonneg(g, x, n - 1);
            assert(avail(g, s, x) == k);
            if occurrences_upto(g, x, n - 1) < k {
                assert(feedback_at(g, s, n - 1) == Feedback::Present);
            } else {
                assert(feedback_at(g, s, n - 1) == Feedback::Absent);
            }
        }
    }
}

/// Law of duplicate letters: if the secret holds exactly `k` occurrences
/// of `x` and the guess holds `m > k` occurrences of `x`, none at its
/// correct position, then exactly `k` of those guess positions are
/// marked `Present`, none `Correct`, and the remaining `m - k` `Absent`.
pub proof fn lemma_duplicate_letter_accounting(g: Seq<char>, s: Seq<char>, x: char, k: int, m: int)
    requires
        g.len() == s.len(),
        occurrences(s, x) == k,
        occurrences(g, x) == m,
        m > k,
        forall|i: int| 0 <= i < g.len() && g[i] == x ==> g[i] != s[i],
    ensures
        marked(g, s, x, Feedback::Correct) == 0,
        marked(g, s, x, Feedback::Present) == k,
        marked(g, s, x, Feedback::Absent) == m - k,
{
    lemma_duplicate_tally(g, s, x, k, g.len() as int);
    lemma_occurrences_upto_nonneg(s, x, s.len() as int);
}

} // verus!
