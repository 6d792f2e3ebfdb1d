//! Letters and normalization.
//!
//! The game accepts the 26 ASCII letters, in either case, and stores
//! them lowercased.  Raw input may additionally carry bracket characters
//! and surrounding whitespace from the input layer; `cleanse_guess`
//! strips both and lowercases the rest.

use vstd::prelude::*;

verus! {

/// An uppercase ASCII letter.
pub open spec fn is_upper_letter(c: char) -> bool {
    'A' <= c && c <= 'Z'
}

/// A lowercase ASCII letter.
pub open spec fn is_lower_letter(c: char) -> bool {
    'a' <= c && c <= 'z'
}

/// One of the 26 accepted letters, in either case.
pub open spec fn is_accepted_letter(c: char) -> bool {
    is_lower_letter(c) || is_upper_letter(c)
}

/// ASCII lowercasing of one character; anything that is not an
/// uppercase ASCII letter is left unchanged.
pub open spec fn lower(c: char) -> char {
    if is_upper_letter(c) {
        ((c as u8 + 32) as u8) as char
    } else {
        c
    }
}

/// Executable ASCII lowercasing.
pub fn to_lower_letter(c: char) -> (r: char)
    ensures
        r == lower(c),
{
    if c >= 'A' && c <= 'Z' {
        ((c as u8) + 32) as char
    } else {
        c
    }
}

/// Executable test for an accepted letter.
pub fn is_letter(c: char) -> (r: bool)
    ensures
        r == is_accepted_letter(c),
{
    (c >= 'a' && c <= 'z') || (c >= 'A' && c <= 'Z')
}

/// Whether two words spell the same, letter for letter.
pub fn words_equal(a: &Vec<char>, b: &Vec<char>) -> (r: bool)
    ensures
        r == (a@ == b@),
{
    if a.len() != b.len() {
        proof {
            assert(a@ != b@);
        }
        return false;
    }
    let n = a.len();
    let mut i: usize = 0;
    while i < n
        invariant
            a@.len() == n,
            b@.len() == n,
            i <= n,
            forall|k: int| 0 <= k < i ==> a@[k] == b@[k],
        decreases n - i,
    {
        if a[i] != b[i] {
            return false;
        }
        i += 1;
    }
    proof {
        assert(a@ =~= b@);
    }
    true
}

/// Lowercasing an accepted letter yields a lowercase letter.
pub proof fn lemma_lower_accepted(c: char)
    requires
        is_accepted_letter(c),
    ensures
        is_lower_letter(lower(c)),
{
}

/// ASCII whitespace, as trimmed from the ends of raw input.
pub open spec fn is_space(c: char) -> bool {
    c == ' ' || c == '\t' || c == '\n' || c == '\r'
}

/// Every letter lowercased.
pub open spec fn lower_all(s: Seq<char>) -> Seq<char> {
    s.map_values(|c: char| lower(c))
}

/// The sequence with every bracket character removed.
pub open spec fn strip_brackets(s: Seq<char>) -> Seq<char>
    decreases s.len(),
{
    if s.len() == 0 {
        s
    } else {
        let rest = strip_brackets(s.drop_last());
        if s.last() == '[' || s.last() == ']' {
            rest
        } else {
            rest.push(s.last())
        }
    }
}

/// The sequence without its leading whitespace.
pub open spec fn trim_front(s: Seq<char>) -> Seq<char>
    decreases s.len(),
{
    if s.len() > 0 && is_space(s[0]) {
        trim_front(s.drop_first())
    } else {
        s
    }
}

/// The sequence without its trailing whitespace.
pub open spec fn trim_back(s: Seq<char>) -> Seq<char>
    decreases s.len(),
{
    if s.len() > 0 && is_space(s.last()) {
        trim_back(s.drop_last())
    } else {
        s
    }
}

/// Normalization of a raw guess: lowercase it, strip the bracket
/// characters the input layer decorates cells with, and trim the
/// surrounding whitespace.
pub open spec fn spec_cleanse(s: Seq<char>) -> Seq<char> {
    trim_back(trim_front(strip_brackets(lower_all(s))))
}

proof fn lemma_strip_brackets_identity(s: Seq<char>)
    requires
        forall|i: int| 0 <= i < s.len() ==> s[i] != '[' && s[i] != ']',
    ensures
        strip_brackets(s) == s,
    decreases s.len(),
{
    if s.len() > 0 {
        lemma_strip_brackets_identity(s.drop_last());
        assert(s.drop_last().push(s.last()) =~= s);
    }
}

/// Normalization is the identity on a word that is already clean:
/// lowercase letters carry no uppercase, brackets, or whitespace to
/// remove.  The state machine keeps its partial guess in this shape, so
/// it submits the partial guess as it stands.
pub proof fn lemma_cleanse_identity_on_clean(s: Seq<char>)
    requires
        forall|i: int| 0 <= i < s.len() ==> is_lower_letter(s[i]),
    ensures
        spec_cleanse(s) == s,
{
    assert(lower_all(s) =~= s);
    lemma_strip_brackets_identity(s);
    assert(trim_front(s) == s);
    assert(trim_back(s) == s);
}

/// Executable normalization of a raw guess.
pub fn cleanse_guess(guess: &Vec<char>) -> (r: Vec<char>)
    ensures
        r@ == spec_cleanse(guess@),
{
    let ghost g = guess@;
    let n = guess.len();
    let mut base: Vec<char> = Vec::new();
    let mut i: usize = 0;
    while i < n
        invariant
            guess@ == g,
            g.len() == n,
            i <= n,
            base@ == strip_brackets(lower_all(g.take(i as int))),
        decreases n - i,
    {
        let lc = to_lower_letter(guess[i]);
        proof {
            assert(lower_all(g.take(i as int + 1)).drop_last() =~= lower_all(g.take(i as int)));
            assert(lower_all(g.take(i as int + 1)).last() == lower(g[i as int]));
        }
        if lc != '[' && lc != ']' {
            base.push(lc);
        }
        i += 1;
    }
    proof {
        assert(g.take(n as int) =~= g);
    }
    let mut r = base;
    while r.len() > 0 && (r[0] == ' ' || r[0] == '\t' || r[0] == '\n' || r[0] == '\r')
        invariant
            trim_front(r@) == trim_front(strip_brackets(lower_all(g))),
        decreases r@.len(),
    {
        let ghost before = r@;
        r.remove(0);
        proof {
            assert(r@ =~= before.drop_first());
        }
    }
    let ghost fronted = r@;
    proof {
        assert(trim_front(fronted) == fronted);
    }
    while r.len() > 0 && (r[r.len() - 1] == ' ' || r[r.len() - 1] == '\t' || r[r.len() - 1]
        == '\n' || r[r.len() - 1] == '\r')
        invariant
            trim_back(r@) == trim_back(fronted),
        decreases r@.len(),
    {
        let ghost before = r@;
        r.pop();
        proof {
            assert(r@ =~= before.drop_last());
        }
    }
    r
}

} // verus!
