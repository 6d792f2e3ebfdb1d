//! The dictionary validator.
//!
//! A guess is accepted exactly when it appears in the union of the
//! guess-word list and the answer-word list.  The lists are handed in
//! once, at construction, and never change afterwards; absence is a
//! valid (false) answer of `is_valid`, not a failure.

use vstd::prelude::*;

use crate::letters::words_equal;

verus! {

/// The immutable union of the guess-word and answer-word lists.
pub struct Dictionary {
    words: Vec<Vec<char>>,
}

impl Dictionary {
    /// The words the dictionary accepts.
    pub closed spec fn words_view(self) -> Seq<Seq<char>> {
        self.words@.map_values(|w: Vec<char>| w@)
    }

    /// Whether `w` is one of the accepted words.
    pub open spec fn spec_contains(self, w: Seq<char>) -> bool {
        exists|i: int| 0 <= i < self.words_view().len() && self.words_view()[i] == w
    }

    /// Builds the dictionary as the union (here: concatenation) of the
    /// guess-word list and the answer-word list.
    pub fn new(guess_words: Vec<Vec<char>>, answer_words: Vec<Vec<char>>) -> (d: Dictionary)
        ensures
            d.words_view() == guess_words@.map_values(|w: Vec<char>| w@) + answer_words@.map_values(
                |w: Vec<char>| w@,
            ),
    {
        let mut words = guess_words;
        let mut rest = answer_words;
        words.append(&mut rest);
        let d = Dictionary { words };
        proof {
            assert(d.words_view() =~= guess_words@.map_values(|w: Vec<char>| w@)
                + answer_words@.map_values(|w: Vec<char>| w@));
        }
        d
    }

    /// Membership in the accepted words: true exactly when `word` is in
    /// the union of the two lists.  The result is a function of the
    /// dictionary's contents and the word alone, so two calls on the
    /// same input always agree.
    pub fn is_valid(&self, word: &Vec<char>) -> (r: bool)
        ensures
            r == self.spec_contains(word@),
    {
        let n = self.words.len();
        let mut i: usize = 0;
        while i < n
            invariant
                self.words@.len() == n,
                i <= n,
                forall|k: int| 0 <= k < i ==> self.words_view()[k] != word@,
            decreases n - i,
        {
            if words_equal(&self.words[i], word) {
                proof {
                    assert(self.words_view()[i as int] == word@);
                }
                return true;
            }
            i += 1;
        }
        false
    }
}

} // verus!
