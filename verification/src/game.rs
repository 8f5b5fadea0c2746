//! The turn-based game state: the secret word, an ordered log of up to five
//! guesses with their cached outcomes, and the win/termination queries.

use crate::evaluator::all_positioned;
use crate::evaluator::evaluate;
use crate::evaluator::outcomes_of;
use crate::evaluator::CharState;
use crate::utils::five_of;
use crate::utils::str_to_five_char;
use vstd::prelude::*;

verus! {

/// The failures a game-state operation can report.
#[derive(Clone, Copy, Debug, PartialEq, Eq, Structural)]
pub enum WordleError {
    /// A guess was submitted after the game had already ended.
    GameOver,
    /// The win query was asked before any guess had been submitted.
    NoGuessesYet,
}

/// One board entry as `snapshot` hands it to a renderer: a recorded guess
/// with its outcomes, or nothing for an unfilled turn slot.
pub type SnapshotEntry = (Option<Vec<char>>, Option<Vec<CharState>>);

/// The snapshot entry of a filled turn slot: the recorded guess and its
/// cached outcome row.
pub open spec fn filled_entry(entry: SnapshotEntry, g: Seq<char>, r: Seq<CharState>) -> bool {
    &&& entry.0 matches Some(gv) && gv@ == g
    &&& entry.1 matches Some(rv) && rv@ == r
}

/// The snapshot entry of an unfilled turn slot: nothing recorded yet.
pub open spec fn empty_entry(entry: SnapshotEntry) -> bool {
    entry.0 is None && entry.1 is None
}

/// One game session: a fixed secret, the guesses recorded so far in order,
/// and the cached outcome row of each recorded guess.
pub struct WordleState {
    word: Vec<char>,
    guesses: Vec<Vec<char>>,
    guess_states: Vec<Vec<CharState>>,
}

impl WordleState {
    /// The secret word, as exactly five characters.
    pub closed spec fn secret(&self) -> Seq<char> {
        self.word@
    }

    /// The guesses recorded so far, oldest first, each exactly five
    /// characters.
    pub closed spec fn turns(&self) -> Seq<Seq<char>> {
        self.guesses@.map_values(|g: Vec<char>| g@)
    }

    /// The cached outcome rows, one per recorded guess.
    pub closed spec fn rows(&self) -> Seq<Seq<CharState>> {
        self.guess_states@.map_values(|r: Vec<CharState>| r@)
    }

    /// Well-formedness: five secret letters, at most five turns, and one
    /// cached row per guess that is exactly the evaluator's classification.
    pub open spec fn wf(&self) -> bool {
        &&& self.secret().len() == 5
        &&& self.turns().len() <= 5
        &&& self.rows().len() == self.turns().len()
        &&& forall|k: int| 0 <= k < self.turns().len() ==> (#[trigger] self.turns()[k]).len() == 5
        &&& forall|k: int|
            0 <= k < self.turns().len() ==> #[trigger] self.rows()[k] == outcomes_of(
                self.turns()[k],
                self.secret(),
            )
    }

    /// The most recently recorded guess won the game.
    pub open spec fn won_spec(&self) -> bool {
        self.turns().len() > 0 && all_positioned(self.rows().last())
    }

    /// The game has ended: the board is full or the last guess won.
    pub open spec fn over_spec(&self) -> bool {
        self.turns().len() >= 5 || self.won_spec()
    }

    /// Starts a game with the given secret, truncated or padded to five
    /// characters, and an empty board.
    pub fn new(word: &str) -> (state: Self)
        ensures
            state.wf(),
            state.secret() == five_of(word@),
            state.turns().len() == 0,
            state.rows().len() == 0,
    {
        let state = WordleState {
            word: str_to_five_char(word),
            guesses: Vec::new(),
            guess_states: Vec::new(),
        };
        state
    }

    /// The index of the next unfilled turn, or `None` when the board is
    /// full.
    pub fn get_turn(&self) -> (turn: Option<usize>)
        requires
            self.wf(),
        ensures
            self.turns().len() < 5 ==> turn == Some(self.turns().len() as usize),
            self.turns().len() >= 5 ==> turn is None,
    {
        if self.guesses.len() < 5 {
            Some(self.guesses.len())
        } else {
            None
        }
    }

    /// Whether the most recently recorded guess won; asking before any
    /// guess was recorded is a contract violation and is reported as such.
    pub fn won(&self) -> (res: Result<bool, WordleError>)
        requires
            self.wf(),
        ensures
            self.turns().len() == 0 ==> res == Err::<bool, WordleError>(WordleError::NoGuessesYet),
            self.turns().len() > 0 ==> res == Ok::<bool, WordleError>(self.won_spec()),
    {
        if self.guess_states.len() == 0 {
            return Err(WordleError::NoGuessesYet);
        }
        let last: usize = self.guess_states.len() - 1;
        let row: &Vec<CharState> = &self.guess_states[last];
        proof {
            assert(self.rows()[last as int] == row@);
            assert(self.rows().last() == row@);
        }
        let mut i: usize = 0;
        while i < row.len()
            invariant
                self.wf(),
                self.turns().len() > 0,
                i <= row@.len(),
                row@ == self.rows().last(),
                forall|q: int| 0 <= q < i ==> row@[q] == CharState::POSITIONED,
            decreases row@.len() - i,
        {
            match row[i] {
                CharState::POSITIONED => {},
                _ => {
                    proof {
                        assert(row@[i as int] != CharState::POSITIONED);
                        assert(!all_positioned(row@));
                    }
                    return Ok(false);
                },
            }
            i += 1;
        }
        Ok(true)
    }

    /// Whether the game has ended: the board is full or the last recorded
    /// guess won. An empty board is never over.
    pub fn game_over(&self) -> (over: bool)
        requires
            self.wf(),
        ensures
            over == self.over_spec(),
    {
        if self.guesses.len() >= 5 {
            return true;
        }
        if self.guesses.len() == 0 {
            return false;
        }
        match self.won() {
            Ok(w) => w,
            Err(_) => false,
        }
    }

    /// Records a guess at the next unfilled turn, truncated or padded to
    /// five characters, and caches its outcomes; once the game is over,
    /// fails with `GameOver` and leaves the state untouched.
    pub fn set_guess(&mut self, guess: &str) -> (res: Result<(), WordleError>)
        requires
            old(self).wf(),
        ensures
            final(self).wf(),
            old(self).over_spec() ==> res == Err::<(), WordleError>(WordleError::GameOver)
                && *final(self) == *old(self),
            !old(self).over_spec() ==> res == Ok::<(), WordleError>(())
                && final(self).secret() == old(self).secret() && final(self).turns() == old(
                self,
            ).turns().push(five_of(guess@)) && final(self).rows() == old(self).rows().push(
                outcomes_of(five_of(guess@), old(self).secret()),
            ),
    {
        if self.game_over() {
            return Err(WordleError::GameOver);
        }
        let word: Vec<char> = str_to_five_char(guess);
        let row: Vec<CharState> = evaluate(&word, &self.word);
        proof {
            assert(self.turns().len() < 5);
        }
        let ghost turns_before: Seq<Seq<char>> = self.turns();
        let ghost rows_before: Seq<Seq<CharState>> = self.rows();
        self.guesses.push(word);
        self.guess_states.push(row);
        proof {
            assert(self.turns() =~= turns_before.push(five_of(guess@)));
            assert(self.rows() =~= rows_before.push(
                outcomes_of(five_of(guess@), self.secret()),
            ));
        }
        Ok(())
    }

    /// Recomputes the cached outcome row of every recorded guess from the
    /// evaluator. Every recorded guess already carries its cached row, so
    /// when `skip_existing` asks to keep existing rows there is nothing to
    /// do; either way the state is unchanged.
    pub fn calculate_guess_states(&mut self, skip_existing: bool)
        requires
            old(self).wf(),
        ensures
            final(self).wf(),
            final(self).secret() == old(self).secret(),
            final(self).turns() == old(self).turns(),
            final(self).rows() == old(self).rows(),
    {
        if skip_existing {
            return;
        }
        let mut rows: Vec<Vec<CharState>> = Vec::new();
        let mut i: usize = 0;
        while i < self.guesses.len()
            invariant
                self.wf(),
                i <= self.turns().len(),
                rows@.len() == i,
                forall|k: int| 0 <= k < i ==> (#[trigger] rows@[k])@ == self.rows()[k],
            decreases self.turns().len() - i,
        {
            proof {
                assert(self.turns()[i as int] == self.guesses@[i as int]@);
            }
            let row: Vec<CharState> = evaluate(&self.guesses[i], &self.word);
            rows.push(row);
            i += 1;
        }
        let ghost rows_before: Seq<Seq<CharState>> = self.rows();
        self.guess_states = rows;
        proof {
            assert(self.rows() =~~= rows_before);
        }
    }

    /// A render-ready view of the board: exactly one entry per turn slot,
    /// filled slots carrying the guess and its outcomes, unfilled slots
    /// carrying nothing.
    pub fn snapshot(&self) -> (snap: Vec<SnapshotEntry>)
        requires
            self.wf(),
        ensures
            snap@.len() == 5,
            forall|k: int|
                0 <= k < self.turns().len() ==> filled_entry(
                    #[trigger] snap@[k],
                    self.turns()[k],
                    self.rows()[k],
                ),
            forall|k: int| self.turns().len() <= k < 5 ==> empty_entry(#[trigger] snap@[k]),
    {
        let mut snap: Vec<SnapshotEntry> = Vec::new();
        let filled: usize = self.guesses.len();
        let mut k: usize = 0;
        while k < filled
            invariant
                self.wf(),
                k <= filled,
                filled == self.turns().len(),
                snap@.len() == k,
                forall|q: int|
                    0 <= q < k ==> filled_entry(#[trigger] snap@[q], self.turns()[q], self.rows()[q]),
            decreases filled - k,
        {
            let guess_copy: Vec<char> = copy_chars(&self.guesses[k]);
            let row_copy: Vec<CharState> = copy_marks(&self.guess_states[k]);
            proof {
                assert(guess_copy@ == self.turns()[k as int]);
                assert(row_copy@ == self.rows()[k as int]);
            }
            snap.push((Some(guess_copy), Some(row_copy)));
            k += 1;
        }
        while k < 5
            invariant
                k <= 5,
                filled <= 5,
                filled == self.turns().len(),
                snap@.len() == k,
                filled <= k,
                forall|q: int|
                    0 <= q < filled ==> filled_entry(
                        #[trigger] snap@[q],
                        self.turns()[q],
                        self.rows()[q],
                    ),
                forall|q: int| filled <= q < k ==> empty_entry(#[trigger] snap@[q]),
            decreases 5 - k,
        {
            snap.push((None, None));
            k += 1;
        }
        snap
    }
}

/// Copies a vector of characters element by element.
fn copy_chars(v: &Vec<char>) -> (out: Vec<char>)
    ensures
        out@ == v@,
{
    let mut out: Vec<char> = Vec::new();
    let mut i: usize = 0;
    while i < v.len()
        invariant
            i <= v@.len(),
            out@ == v@.subrange(0, i as int),
        decreases v@.len() - i,
    {
        out.push(v[i]);
        proof {
            assert(out@ =~= v@.subrange(0, i as int + 1));
        }
        i += 1;
    }
    proof {
        assert(out@ =~= v@);
    }
    out
}

/// Copies a vector of outcomes element by element.
fn copy_marks(v: &Vec<CharState>) -> (out: Vec<CharState>)
    ensures
        out@ == v@,
{
    let mut out: Vec<CharState> = Vec::new();
    let mut i: usize = 0;
    while i < v.len()
        invariant
            i <= v@.len(),
            out@ == v@.subrange(0, i as int),
        decreases v@.len() - i,
    {
        out.push(v[i]);
        proof {
            assert(out@ =~= v@.subrange(0, i as int + 1));
        }
        i += 1;
    }
    proof {
        assert(out@ =~= v@);
    }
    out
}

/// Law: a recorded turn whose guess equals the secret wins the game and
/// ends it.
pub proof fn lemma_winning_turn(state: WordleState)
    requires
        state.wf(),
        state.turns().len() > 0,
        state.turns().last() == state.secret(),
    ensures
        state.won_spec(),
        state.over_spec(),
{
    let last: int = state.turns().len() - 1;
    assert(state.rows()[last] == outcomes_of(state.turns()[last], state.secret()));
    crate::evaluator::lemma_all_positioned_iff_exact(state.turns().last(), state.secret());
}

/// Law: a full board has ended the game, and it is won exactly when the
/// final guess equals the secret.
pub proof fn lemma_full_board_decided(state: WordleState)
    requires
        state.wf(),
        state.turns().len() == 5,
    ensures
        state.over_spec(),
        state.won_spec() <==> state.turns().last() == state.secret(),
{
    let last: int = state.turns().len() - 1;
    assert(state.rows()[last] == outcomes_of(state.turns()[last], state.secret()));
    crate::evaluator::lemma_all_positioned_iff_exact(state.turns().last(), state.secret());
}

} // verus!
