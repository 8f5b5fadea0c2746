//! The guess evaluator: classifies each letter of a five-letter guess
//! against the secret word as `POSITIONED` (right letter, right place),
//! `CONTAINS` (right letter, wrong place) or `EXCLUDES` (not available).
//!
//! Repeated letters are disambiguated by two passes that consume secret
//! letters as they match: exact positions are resolved first, and every
//! remaining guess letter then claims at most one of the leftover secret
//! letters, scanned left to right. The specification models the leftover
//! letters as per-letter counts: `pool_init` counts a letter among the
//! secret positions that were not exact matches, and `pool_at` is what is
//! left of that count just before guess position `i` is classified.

use vstd::prelude::*;

verus! {

/// The classification of one letter of one guess against the secret.
#[derive(Clone, Copy, Debug, PartialEq, Eq, Structural)]
pub enum CharState {
    EXCLUDES,
    CONTAINS,
    POSITIONED,
}

/// How many of the first `n` characters of `s` equal `c`.
pub open spec fn letter_count(s: Seq<char>, c: char, n: int) -> int
    decreases n,
{
    if n <= 0 {
        0
    } else {
        letter_count(s, c, n - 1) + (if s[n - 1] == c {
            1int
        } else {
            0int
        })
    }
}

/// How many of the first `n` secret positions hold `c` without being an
/// exact match: the occurrences of `c` that pass one leaves to pass two.
pub open spec fn pool_init(g: Seq<char>, s: Seq<char>, c: char, n: int) -> int
    decreases n,
{
    if n <= 0 {
        0
    } else {
        pool_init(g, s, c, n - 1) + (if g[n - 1] != s[n - 1] && s[n - 1] == c {
            1int
        } else {
            0int
        })
    }
}

/// How many occurrences of `c` are still unclaimed just before guess
/// position `i` is classified: pass two walks the guess left to right and
/// each loose match consumes one occurrence of its letter.
pub open spec fn pool_at(g: Seq<char>, s: Seq<char>, i: int, c: char) -> int
    decreases i,
{
    if i <= 0 {
        pool_init(g, s, c, 5)
    } else if g[i - 1] != s[i - 1] && g[i - 1] == c && pool_at(g, s, i - 1, c) > 0 {
        pool_at(g, s, i - 1, c) - 1
    } else {
        pool_at(g, s, i - 1, c)
    }
}

/// The classification of guess position `i`.
pub open spec fn outcome_of(g: Seq<char>, s: Seq<char>, i: int) -> CharState {
    if g[i] == s[i] {
        CharState::POSITIONED
    } else if pool_at(g, s, i, g[i]) > 0 {
        CharState::CONTAINS
    } else {
        CharState::EXCLUDES
    }
}

/// The full classification of a guess against the secret.
pub open spec fn outcomes_of(g: Seq<char>, s: Seq<char>) -> Seq<CharState> {
    Seq::new(5, |i: int| outcome_of(g, s, i))
}

/// True when every outcome of the row is `POSITIONED`: a winning guess.
pub open spec fn all_positioned(row: Seq<CharState>) -> bool {
    forall|i: int| 0 <= i < row.len() ==> row[i] == CharState::POSITIONED
}

/// How many of the first `n` slots of `w` hold `Some(c)`.
spec fn opt_count(w: Seq<Option<char>>, c: char, n: int) -> int
    decreases n,
{
    if n <= 0 {
        0
    } else {
        opt_count(w, c, n - 1) + (if w[n - 1] == Some(c) {
            1int
        } else {
            0int
        })
    }
}

proof fn lemma_opt_count_zero(w: Seq<Option<char>>, c: char, n: int)
    requires
        forall|q: int| 0 <= q < n ==> w[q] != Some(c),
    ensures
        opt_count(w, c, n) == 0,
    decreases n,
{
    if n > 0 {
        lemma_opt_count_zero(w, c, n - 1);
    }
}

proof fn lemma_opt_count_ge_one(w: Seq<Option<char>>, c: char, j: int, n: int)
    requires
        0 <= j < n,
        w[j] == Some(c),
    ensures
        opt_count(w, c, n) >= 1,
    decreases n,
{
    if j == n - 1 {
        lemma_opt_count_nonneg(w, c, n - 1);
    } else {
        lemma_opt_count_ge_one(w, c, j, n - 1);
    }
}

proof fn lemma_opt_count_nonneg(w: Seq<Option<char>>, c: char, n: int)
    ensures
        opt_count(w, c, n) >= 0,
    decreases n,
{
    if n > 0 {
        lemma_opt_count_nonneg(w, c, n - 1);
    }
}

proof fn lemma_opt_count_update(w: Seq<Option<char>>, j: int, v: Option<char>, c: char, n: int)
    requires
        0 <= j < w.len(),
        n <= w.len(),
    ensures
        opt_count(w.update(j, v), c, n) == opt_count(w, c, n) - (if j < n && w[j] == Some(c) {
            1int
        } else {
            0int
        }) + (if j < n && v == Some(c) {
            1int
        } else {
            0int
        }),
    decreases n,
{
    if n > 0 {
        lemma_opt_count_update(w, j, v, c, n - 1);
    }
}

proof fn lemma_count_matches_pool_init(
    w: Seq<Option<char>>,
    g: Seq<char>,
    s: Seq<char>,
    c: char,
    n: int,
)
    requires
        forall|k: int| 0 <= k < n ==> w[k] == (if g[k] == s[k] {
            None::<char>
        } else {
            Some(s[k])
        }),
    ensures
        opt_count(w, c, n) == pool_init(g, s, c, n),
    decreases n,
{
    if n > 0 {
        lemma_count_matches_pool_init(w, g, s, c, n - 1);
    }
}

/// Removes the leftmost slot of the pool that still holds `c`, reporting
/// whether one was found; per-letter counts change accordingly.
fn consume_first(pool: &mut Vec<Option<char>>, c: char) -> (found: bool)
    requires
        old(pool)@.len() == 5,
    ensures
        final(pool)@.len() == 5,
        found == (opt_count(old(pool)@, c, 5) > 0),
        forall|d: char| (#[trigger] opt_count(final(pool)@, d, 5)) == (if found && d == c {
            opt_count(old(pool)@, d, 5) - 1
        } else {
            opt_count(old(pool)@, d, 5)
        }),
{
    let mut j: usize = 0;
    while j < 5
        invariant
            j <= 5,
            pool@.len() == 5,
            pool@ == old(pool)@,
            forall|q: int| 0 <= q < j ==> pool@[q] != Some(c),
        decreases 5 - j,
    {
        let slot: Option<char> = pool[j];
        match slot {
            Some(x) => {
                if x == c {
                    pool.set(j, None);
                    proof {
                        lemma_opt_count_ge_one(old(pool)@, c, j as int, 5);
                        assert forall|d: char|
                            (#[trigger] opt_count(pool@, d, 5)) == (if d == c {
                                opt_count(old(pool)@, d, 5) - 1
                            } else {
                                opt_count(old(pool)@, d, 5)
                            }) by {
                            lemma_opt_count_update(old(pool)@, j as int, None::<char>, d, 5);
                        }
                    }
                    return true;
                }
            },
            None => {},
        }
        j += 1;
    }
    proof {
        lemma_opt_count_zero(pool@, c, 5);
    }
    false
}

/// Classifies a five-letter guess against a five-letter secret: exact
/// positions first, then each remaining guess letter claims the leftmost
/// unclaimed secret letter equal to it, and everything else is excluded.
pub fn evaluate(guess: &Vec<char>, secret: &Vec<char>) -> (marks: Vec<CharState>)
    requires
        guess@.len() == 5,
        secret@.len() == 5,
    ensures
        marks@ == outcomes_of(guess@, secret@),
{
    let mut marks: Vec<CharState> = Vec::new();
    let mut pool: Vec<Option<char>> = Vec::new();
    let mut i: usize = 0;
    while i < 5
        invariant
            i <= 5,
            guess@.len() == 5,
            secret@.len() == 5,
            marks@.len() == i,
            pool@.len() == i,
            forall|k: int| 0 <= k < i ==> #[trigger] pool@[k] == (if guess@[k] == secret@[k] {
                None::<char>
            } else {
                Some(secret@[k])
            }),
            forall|k: int| 0 <= k < i ==> #[trigger] marks@[k] == (if guess@[k] == secret@[k] {
                CharState::POSITIONED
            } else {
                CharState::EXCLUDES
            }),
        decreases 5 - i,
    {
        if guess[i] == secret[i] {
            marks.push(CharState::POSITIONED);
            pool.push(None);
        } else {
            marks.push(CharState::EXCLUDES);
            pool.push(Some(secret[i]));
        }
        i += 1;
    }
    proof {
        assert forall|c: char| (#[trigger] opt_count(pool@, c, 5)) == pool_at(
            guess@,
            secret@,
            0,
            c,
        ) by {
            lemma_count_matches_pool_init(pool@, guess@, secret@, c, 5);
        }
    }
    let mut i: usize = 0;
    while i < 5
        invariant
            i <= 5,
            guess@.len() == 5,
            secret@.len() == 5,
            marks@.len() == 5,
            pool@.len() == 5,
            forall|c: char| (#[trigger] opt_count(pool@, c, 5)) == pool_at(
                guess@,
                secret@,
                i as int,
                c,
            ),
            forall|k: int|
                0 <= k < 5 && guess@[k] == secret@[k] ==> #[trigger] marks@[k]
                    == CharState::POSITIONED,
            forall|k: int|
                0 <= k < i && guess@[k] != secret@[k] ==> #[trigger] marks@[k] == outcome_of(
                    guess@,
                    secret@,
                    k,
                ),
            forall|k: int|
                i <= k < 5 && guess@[k] != secret@[k] ==> #[trigger] marks@[k]
                    == CharState::EXCLUDES,
        decreases 5 - i,
    {
        if guess[i] != secret[i] {
            let gi: char = guess[i];
            let ghost pool_before: Seq<Option<char>> = pool@;
            let found: bool = consume_first(&mut pool, gi);
            if found {
                marks.set(i, CharState::CONTAINS);
            }
            proof {
                assert(opt_count(pool_before, gi, 5) == pool_at(guess@, secret@, i as int, gi));
                lemma_pool_at_nonneg(guess@, secret@, i as int, gi);
                assert forall|c: char| (#[trigger] opt_count(pool@, c, 5)) == pool_at(
                    guess@,
                    secret@,
                    i as int + 1,
                    c,
                ) by {
                    assert(opt_count(pool_before, c, 5) == pool_at(guess@, secret@, i as int, c));
                }
                assert(marks@[i as int] == outcome_of(guess@, secret@, i as int));
            }
        } else {
            proof {
                assert forall|c: char| (#[trigger] opt_count(pool@, c, 5)) == pool_at(
                    guess@,
                    secret@,
                    i as int + 1,
                    c,
                ) by {
                    assert(opt_count(pool@, c, 5) == pool_at(guess@, secret@, i as int, c));
                }
            }
        }
        i += 1;
    }
    proof {
        assert forall|k: int| 0 <= k < 5 implies marks@[k] == outcomes_of(guess@, secret@)[k] by {
            assert(outcomes_of(guess@, secret@)[k] == outcome_of(guess@, secret@, k));
        }
        assert(marks@ =~= outcomes_of(guess@, secret@));
    }
    marks
}

/// How many of the first `n` guess positions are exact matches on `c`.
pub open spec fn positioned_count(g: Seq<char>, s: Seq<char>, c: char, n: int) -> int
    decreases n,
{
    if n <= 0 {
        0
    } else {
        positioned_count(g, s, c, n - 1) + (if g[n - 1] == s[n - 1] && s[n - 1] == c {
            1int
        } else {
            0int
        })
    }
}

/// How many of the first `n` guess positions hold `c` and are classified
/// as loose matches.
pub open spec fn contains_count(g: Seq<char>, s: Seq<char>, c: char, n: int) -> int
    decreases n,
{
    if n <= 0 {
        0
    } else {
        contains_count(g, s, c, n - 1) + (if g[n - 1] == c && outcome_of(g, s, n - 1)
            == CharState::CONTAINS {
            1int
        } else {
            0int
        })
    }
}

/// How many of the first `n` guess positions hold `c` and are classified
/// as anything other than `EXCLUDES`.
pub open spec fn matched_count(g: Seq<char>, s: Seq<char>, c: char, n: int) -> int
    decreases n,
{
    if n <= 0 {
        0
    } else {
        matched_count(g, s, c, n - 1) + (if g[n - 1] == c && outcome_of(g, s, n - 1)
            != CharState::EXCLUDES {
            1int
        } else {
            0int
        })
    }
}

proof fn lemma_pool_init_bounds(g: Seq<char>, s: Seq<char>, c: char, n: int)
    ensures
        0 <= pool_init(g, s, c, n),
        pool_init(g, s, c, n) <= letter_count(s, c, n),
    decreases n,
{
    if n > 0 {
        lemma_pool_init_bounds(g, s, c, n - 1);
    }
}

proof fn lemma_pool_at_nonneg(g: Seq<char>, s: Seq<char>, i: int, c: char)
    ensures
        pool_at(g, s, i, c) >= 0,
    decreases i,
{
    if i <= 0 {
        lemma_pool_init_bounds(g, s, c, 5);
    } else {
        lemma_pool_at_nonneg(g, s, i - 1, c);
    }
}

proof fn lemma_letter_count_zero(s: Seq<char>, c: char, n: int)
    requires
        forall|j: int| 0 <= j < n ==> s[j] != c,
    ensures
        letter_count(s, c, n) == 0,
    decreases n,
{
    if n > 0 {
        lemma_letter_count_zero(s, c, n - 1);
    }
}

proof fn lemma_contains_count_nonneg(g: Seq<char>, s: Seq<char>, c: char, n: int)
    ensures
        contains_count(g, s, c, n) >= 0,
    decreases n,
{
    if n > 0 {
        lemma_contains_count_nonneg(g, s, c, n - 1);
    }
}

proof fn lemma_pool_conservation(g: Seq<char>, s: Seq<char>, c: char, i: int)
    requires
        0 <= i,
    ensures
        pool_at(g, s, i, c) + contains_count(g, s, c, i) == pool_init(g, s, c, 5),
    decreases i,
{
    if i > 0 {
        lemma_pool_conservation(g, s, c, i - 1);
    }
}

proof fn lemma_letters_split(g: Seq<char>, s: Seq<char>, c: char, n: int)
    ensures
        pool_init(g, s, c, n) + positioned_count(g, s, c, n) == letter_count(s, c, n),
    decreases n,
{
    if n > 0 {
        lemma_letters_split(g, s, c, n - 1);
    }
}

proof fn lemma_matched_split(g: Seq<char>, s: Seq<char>, c: char, n: int)
    ensures
        matched_count(g, s, c, n) == positioned_count(g, s, c, n) + contains_count(g, s, c, n),
    decreases n,
{
    if n > 0 {
        lemma_matched_split(g, s, c, n - 1);
    }
}

/// Law: for every letter, a guess is never credited with more matches
/// (`POSITIONED` or `CONTAINS`) of that letter than the secret holds.
pub proof fn lemma_no_letter_overcount(g: Seq<char>, s: Seq<char>, c: char)
    requires
        g.len() == 5,
        s.len() == 5,
    ensures
        matched_count(g, s, c, 5) <= letter_count(s, c, 5),
{
    lemma_matched_split(g, s, c, 5);
    lemma_pool_conservation(g, s, c, 5);
    lemma_pool_at_nonneg(g, s, 5, c);
    lemma_letters_split(g, s, c, 5);
}

/// Law: a guess equal to the secret is classified `POSITIONED` everywhere.
pub proof fn lemma_exact_guess_all_positioned(g: Seq<char>, s: Seq<char>)
    requires
        g.len() == 5,
        s.len() == 5,
        g == s,
    ensures
        all_positioned(outcomes_of(g, s)),
{
    assert forall|i: int| 0 <= i < 5 implies outcomes_of(g, s)[i] == CharState::POSITIONED by {
        assert(outcomes_of(g, s)[i] == outcome_of(g, s, i));
    }
}

/// Law: a guess that shares no letter with the secret is classified
/// `EXCLUDES` everywhere.
pub proof fn lemma_disjoint_all_excluded(g: Seq<char>, s: Seq<char>)
    requires
        g.len() == 5,
        s.len() == 5,
        forall|i: int, j: int| 0 <= i < 5 && 0 <= j < 5 ==> g[i] != s[j],
    ensures
        forall|i: int| 0 <= i < 5 ==> outcomes_of(g, s)[i] == CharState::EXCLUDES,
{
    assert forall|i: int| 0 <= i < 5 implies outcomes_of(g, s)[i] == CharState::EXCLUDES by {
        assert(g[i] != s[i]);
        assert forall|j: int| 0 <= j < 5 implies s[j] != g[i] by {
            assert(g[i] != s[j]);
        }
        lemma_letter_count_zero(s, g[i], 5);
        lemma_pool_init_bounds(g, s, g[i], 5);
        lemma_pool_conservation(g, s, g[i], i);
        lemma_contains_count_nonneg(g, s, g[i], i);
        assert(pool_at(g, s, i, g[i]) <= 0);
        assert(outcomes_of(g, s)[i] == outcome_of(g, s, i));
    }
}

/// Law: a guess wins (all five outcomes `POSITIONED`) exactly when it
/// equals the secret.
pub proof fn lemma_all_positioned_iff_exact(g: Seq<char>, s: Seq<char>)
    requires
        g.len() == 5,
        s.len() == 5,
    ensures
        all_positioned(outcomes_of(g, s)) <==> g == s,
{
    if all_positioned(outcomes_of(g, s)) {
        assert forall|i: int| 0 <= i < 5 implies g[i] == s[i] by {
            assert(outcomes_of(g, s)[i] == outcome_of(g, s, i));
            assert(outcomes_of(g, s)[i] == CharState::POSITIONED);
        }
        assert(g =~= s);
    }
    if g == s {
        lemma_exact_guess_all_positioned(g, s);
    }
}

} // verus!
