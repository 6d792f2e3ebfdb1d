//! The guess evaluator and game state machine.
//!
//! A game owns the secret word, the dictionary, the board of completed
//! guess records, the in-progress partial guess, and the outcome.  The
//! player enters and removes letters one at a time; `submit` validates
//! the full partial guess, scores it against the secret, appends the
//! record, and decides whether the game is won, lost, or continues.
//! Rejections (`TooShort`, `NotInWordList`) leave the state untouched,
//! and a finished game never changes again.

use vstd::prelude::*;

use crate::dict::Dictionary;
use crate::feedback::{evaluate, feedback_of, Feedback};
use crate::letters::{is_accepted_letter, is_letter, is_lower_letter, lemma_lower_accepted, lower,
    to_lower_letter, words_equal};

verus! {

/// Length of every secret word and accepted guess.
pub const WORD_LENGTH: usize = 5;

/// Number of attempts the player has.
pub const MAX_ATTEMPTS: usize = 6;

/// A full-length, normalized word: lowercase letters only.
pub open spec fn is_word(w: Seq<char>) -> bool {
    &&& w.len() == WORD_LENGTH as int
    &&& forall|i: int| 0 <= i < w.len() ==> is_lower_letter(w[i])
}

/// Where the game stands.
#[derive(Clone, Copy, PartialEq, Eq, Structural, Debug)]
pub enum Outcome {
    /// The player may still enter and submit guesses.
    InProgress,
    /// The secret was guessed, on the attempt carried here (counting
    /// from one).
    Won(usize),
    /// Every attempt was used without guessing the secret.
    Lost,
}

/// A recoverable rejection of `submit`; the state is left untouched.
#[derive(Clone, Copy, PartialEq, Eq, Structural, Debug)]
pub enum SubmitError {
    /// The partial guess is shorter than a full word.
    TooShort,
    /// The guess is not in the word list.
    NotInWordList,
}

/// One completed attempt: the guessed letters and their feedback.
pub struct GuessRecord {
    /// The guessed word, normalized.
    pub letters: Vec<char>,
    /// Per-letter feedback against the secret.
    pub feedback: Vec<Feedback>,
}

/// A record is sound for a secret when it holds a full normalized word
/// scored exactly by the feedback algorithm.
pub open spec fn record_sound(r: GuessRecord, s: Seq<char>) -> bool {
    &&& is_word(r.letters@)
    &&& r.feedback@ == feedback_of(r.letters@, s)
}

/// One game: secret, dictionary, board, partial guess, and outcome.
pub struct Game {
    secret: Vec<char>,
    dict: Dictionary,
    board: Vec<GuessRecord>,
    partial: Vec<char>,
    attempts: usize,
    outcome: Outcome,
}

impl Game {
    /// The secret word.
    pub closed spec fn secret_view(self) -> Seq<char> {
        self.secret@
    }

    /// The dictionary the game validates guesses against.
    pub closed spec fn dict_view(self) -> Dictionary {
        self.dict
    }

    /// Whether the dictionary accepts `w`.
    pub open spec fn dict_contains(self, w: Seq<char>) -> bool {
        self.dict_view().spec_contains(w)
    }

    /// The completed guess records, oldest first.
    pub closed spec fn board_view(self) -> Seq<GuessRecord> {
        self.board@
    }

    /// The in-progress partial guess.
    pub closed spec fn partial_view(self) -> Seq<char> {
        self.partial@
    }

    /// How many attempts have been submitted and accepted.
    pub closed spec fn attempts_view(self) -> int {
        self.attempts as int
    }

    /// The game's outcome.
    pub closed spec fn outcome_view(self) -> Outcome {
        self.outcome
    }

    /// The game's invariant: the secret is a full normalized word, the
    /// board never exceeds the allowed attempts and counts them, every
    /// record is sound, the partial guess is a normalized prefix of a
    /// word, a win is recorded exactly when its guess equals the secret,
    /// a loss only with every attempt used in vain, and a finished game
    /// holds no partial guess.
    pub open spec fn wf(self) -> bool {
        &&& is_word(self.secret_view())
        &&& self.board_view().len() == self.attempts_view()
        &&& self.board_view().len() <= MAX_ATTEMPTS as int
        &&& self.partial_view().len() <= WORD_LENGTH as int
        &&& forall|i: int|
            0 <= i < self.partial_view().len() ==> is_lower_letter(self.partial_view()[i])
        &&& forall|i: int|
            0 <= i < self.board_view().len() ==> record_sound(
                #[trigger] self.board_view()[i],
                self.secret_view(),
            )
        &&& match self.outcome_view() {
            Outcome::InProgress => {
                &&& self.board_view().len() < MAX_ATTEMPTS as int
                &&& forall|i: int|
                    0 <= i < self.board_view().len() ==> (#[trigger] self.board_view()[i]).letters@
                        != self.secret_view()
            },
            Outcome::Won(k) => {
                &&& k as int == self.board_view().len()
                &&& 1 <= k as int <= MAX_ATTEMPTS as int
                &&& self.board_view().last().letters@ == self.secret_view()
                &&& forall|i: int|
                    0 <= i < self.board_view().len() - 1 ==> (
                    #[trigger] self.board_view()[i]).letters@ != self.secret_view()
                &&& self.partial_view().len() == 0
            },
            Outcome::Lost => {
                &&& self.board_view().len() == MAX_ATTEMPTS as int
                &&& forall|i: int|
                    0 <= i < self.board_view().len() ==> (#[trigger] self.board_view()[i]).letters@
                        != self.secret_view()
                &&& self.partial_view().len() == 0
            },
        }
    }

    /// The secret and the dictionary of `self` are those of `o`.
    pub open spec fn same_setup(self, o: Game) -> bool {
        &&& self.secret_view() == o.secret_view()
        &&& self.dict_view() == o.dict_view()
    }

    /// Nothing observable about `self` differs from `o`.
    pub open spec fn same_state(self, o: Game) -> bool {
        &&& self.same_setup(o)
        &&& self.board_view() == o.board_view()
        &&& self.partial_view() == o.partial_view()
        &&& self.attempts_view() == o.attempts_view()
        &&& self.outcome_view() == o.outcome_view()
    }

    /// A fresh game around an already-chosen secret: empty board, empty
    /// partial guess, no attempts used, in progress.
    pub fn new(secret: Vec<char>, dict: Dictionary) -> (g: Game)
        requires
            is_word(secret@),
        ensures
            g.wf(),
            g.secret_view() == secret@,
            g.dict_view() == dict,
            g.board_view().len() == 0,
            g.partial_view().len() == 0,
            g.attempts_view() == 0,
            g.outcome_view() == Outcome::InProgress,
    {
        Game {
            secret,
            dict,
            board: Vec::new(),
            partial: Vec::new(),
            attempts: 0,
            outcome: Outcome::InProgress,
        }
    }

    /// Appends the normalized letter to the partial guess; ignored (no
    /// error) while the game is finished, the partial guess is full, or
    /// the character is not one of the accepted letters.
    pub fn enter_letter(&mut self, c: char)
        requires
            old(self).wf(),
        ensures
            final(self).wf(),
            final(self).same_setup(*old(self)),
            final(self).board_view() == old(self).board_view(),
            final(self).attempts_view() == old(self).attempts_view(),
            final(self).outcome_view() == old(self).outcome_view(),
            (if old(self).outcome_view() is InProgress && old(self).partial_view().len()
                < WORD_LENGTH as int && is_accepted_letter(c) {
                final(self).partial_view() == old(self).partial_view().push(lower(c))
            } else {
                final(self).partial_view() == old(self).partial_view()
            }),
    {
        match self.outcome {
            Outcome::InProgress => {},
            _ => {
                return;
            },
        }
        if self.partial.len() < WORD_LENGTH && is_letter(c) {
            proof {
                lemma_lower_accepted(c);
            }
            let lc = to_lower_letter(c);
            self.partial.push(lc);
        }
    }

    /// Removes the last letter of the partial guess; ignored while the
    /// game is finished or the partial guess is empty.
    pub fn backspace(&mut self)
        requires
            old(self).wf(),
        ensures
            final(self).wf(),
            final(self).same_setup(*old(self)),
            final(self).board_view() == old(self).board_view(),
            final(self).attempts_view() == old(self).attempts_view(),
            final(self).outcome_view() == old(self).outcome_view(),
            (if old(self).outcome_view() is InProgress && old(self).partial_view().len() >= 1 {
                final(self).partial_view() == old(self).partial_view().drop_last()
            } else {
                final(self).partial_view() == old(self).partial_view()
            }),
    {
        match self.outcome {
            Outcome::InProgress => {},
            _ => {
                return;
            },
        }
        if self.partial.len() >= 1 {
            self.partial.pop();
            proof {
                assert(self.partial@ =~= old(self).partial_view().drop_last());
            }
        }
    }

    /// Submits the partial guess.  A short guess is rejected `TooShort`
    /// and an unrecognized word `NotInWordList`, both leaving the state
    /// untouched; an accepted guess is scored, appended to the board,
    /// and decides the outcome: won on the secret, lost on the last
    /// attempt, in progress otherwise.  A finished game is never
    /// changed; its empty partial guess reads as `TooShort`.
    ///
    /// The candidate is the partial guess as it stands: `enter_letter`
    /// keeps it normalized, so normalizing it again would change
    /// nothing (`lemma_cleanse_identity_on_clean`).
    pub fn submit(&mut self) -> (r: Result<(), SubmitError>)
        requires
            old(self).wf(),
        ensures
            final(self).wf(),
            final(self).same_setup(*old(self)),
            final(self).attempts_view() >= old(self).attempts_view(),
            !(old(self).outcome_view() is InProgress) ==> final(self).same_state(*old(self)) && r
                == Err::<(), SubmitError>(SubmitError::TooShort),
            old(self).outcome_view() is InProgress && old(self).partial_view().len()
                < WORD_LENGTH as int ==> final(self).same_state(*old(self)) && r == Err::<(),
                SubmitError,
            >(SubmitError::TooShort),
            old(self).outcome_view() is InProgress && old(self).partial_view().len()
                == WORD_LENGTH as int && !old(self).dict_contains(old(self).partial_view())
                ==> final(self).same_state(*old(self)) && r == Err::<(), SubmitError>(
                SubmitError::NotInWordList,
            ),
            old(self).outcome_view() is InProgress && old(self).partial_view().len()
                == WORD_LENGTH as int && old(self).dict_contains(old(self).partial_view()) ==> {
                &&& r == Ok::<(), SubmitError>(())
                &&& final(self).attempts_view() == old(self).attempts_view() + 1
                &&& final(self).partial_view().len() == 0
                &&& final(self).board_view().len() == old(self).board_view().len() + 1
                &&& final(self).board_view().drop_last() == old(self).board_view()
                &&& final(self).board_view().last().letters@ == old(self).partial_view()
                &&& final(self).board_view().last().feedback@ == feedback_of(
                    old(self).partial_view(),
                    old(self).secret_view(),
                )
                &&& final(self).outcome_view() == (if old(self).partial_view()
                    == old(self).secret_view() {
                    Outcome::Won((old(self).attempts_view() + 1) as usize)
                } else if old(self).attempts_view() + 1 == MAX_ATTEMPTS as int {
                    Outcome::Lost
                } else {
                    Outcome::InProgress
                })
            },
    {
        match self.outcome {
            Outcome::InProgress => {},
            _ => {
                return Err(SubmitError::TooShort);
            },
        }
        if self.partial.len() < WORD_LENGTH {
            return Err(SubmitError::TooShort);
        }
        if !self.dict.is_valid(&self.partial) {
            return Err(SubmitError::NotInWordList);
        }
        let fb = evaluate(&self.partial, &self.secret);
        let won = words_equal(&self.partial, &self.secret);
        let mut letters: Vec<char> = Vec::new();
        core::mem::swap(&mut letters, &mut self.partial);
        let ghost cand = letters@;
        self.board.push(GuessRecord { letters, feedback: fb });
        self.attempts = self.attempts + 1;
        if won {
            self.outcome = Outcome::Won(self.attempts);
        } else if self.attempts == MAX_ATTEMPTS {
            self.outcome = Outcome::Lost;
        }
        proof {
            assert(self.board_view().drop_last() =~= old(self).board_view());
            assert(self.board_view().last().letters@ == cand);
        }
        Ok(())
    }

    /// Law: a game is won only by guessing the secret itself, so the
    /// winning record, the board's last, shows `Correct` at every
    /// position.
    pub proof fn lemma_winning_record_all_correct(self)
        requires
            self.wf(),
            self.outcome_view() is Won,
        ensures
            self.board_view().len() >= 1,
            forall|i: int|
                0 <= i < WORD_LENGTH as int ==> self.board_view().last().feedback@[i]
                    == Feedback::Correct,
    {
        let rec = self.board_view().last();
        assert(self.board_view()[self.board_view().len() - 1] == rec);
        assert(record_sound(rec, self.secret_view()));
        crate::feedback::lemma_equal_guess_all_correct(rec.letters@, self.secret_view());
    }

    /// The secret word, read-only.
    pub fn secret(&self) -> (r: &Vec<char>)
        ensures
            r@ == self.secret_view(),
    {
        &self.secret
    }

    /// The completed guess records, read-only, oldest first.
    pub fn board(&self) -> (r: &Vec<GuessRecord>)
        ensures
            r@ == self.board_view(),
    {
        &self.board
    }

    /// The in-progress partial guess, read-only.
    pub fn partial_guess(&self) -> (r: &Vec<char>)
        ensures
            r@ == self.partial_view(),
    {
        &self.partial
    }

    /// How many attempts have been submitted and accepted.
    pub fn attempt_index(&self) -> (r: usize)
        ensures
            r as int == self.attempts_view(),
    {
        self.attempts
    }

    /// The game's outcome.
    pub fn outcome(&self) -> (r: Outcome)
        ensures
            r == self.outcome_view(),
    {
        self.outcome
    }
}

} // verus!
