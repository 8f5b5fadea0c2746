//! Word helpers: padding a word to its fixed five-letter form and checking
//! that a word has no repeated characters.

use vstd::prelude::*;

verus! {

/// The five-letter form of a word: its first five characters, padded on the
/// right with blanks when the word is shorter.
pub open spec fn five_of(s: Seq<char>) -> Seq<char> {
    Seq::new(5, |i: int| if i < s.len() { s[i] } else { ' ' })
}

/// True when no character of `s` occurs twice.
pub open spec fn all_distinct(s: Seq<char>) -> bool {
    forall|i: int, j: int| 0 <= i < j < s.len() ==> s[i] != s[j]
}

/// Reports whether every character of the word differs from all the others.
pub fn str_unique_by_characters(s: &str) -> (unique: bool)
    ensures
        unique == all_distinct(s@),
{
    let n: usize = s.unicode_len();
    let mut i: usize = 0;
    while i < n
        invariant
            i <= n,
            n == s@.len(),
            forall|p: int, q: int| 0 <= p < q < n && p < i ==> s@[p] != s@[q],
        decreases n - i,
    {
        let ci: char = s.get_char(i);
        let mut j: usize = i + 1;
        while j < n
            invariant
                i < j <= n,
                i < n,
                n == s@.len(),
                ci == s@[i as int],
                forall|q: int| i < q < j ==> s@[i as int] != s@[q],
            decreases n - j,
        {
            if ci == s.get_char(j) {
                proof {
                    assert((i as int) < (j as int) && (j as int) < s@.len());
                    assert(s@[i as int] == s@[j as int]);
                    assert(!all_distinct(s@));
                }
                return false;
            }
            j += 1;
        }
        i += 1;
    }
    true
}

/// Truncates or pads a word to exactly five characters, padding with blanks.
pub fn str_to_five_char(s: &str) -> (word: Vec<char>)
    ensures
        word@ == five_of(s@),
{
    let n: usize = s.unicode_len();
    let mut word: Vec<char> = Vec::new();
    let mut i: usize = 0;
    while i < 5
        invariant
            i <= 5,
            n == s@.len(),
            word@.len() == i,
            forall|k: int| 0 <= k < i ==> word@[k] == five_of(s@)[k],
        decreases 5 - i,
    {
        if i < n {
            word.push(s.get_char(i));
        } else {
            word.push(' ');
        }
        i += 1;
    }
    proof {
        assert(word@ =~= five_of(s@));
    }
    word
}

} // verus!
