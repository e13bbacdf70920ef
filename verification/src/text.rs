//! Text as a sequence of characters: prefixes, suffixes, and the folding of
//! ASCII letters to lower case.

use vstd::prelude::*;
use vstd::string::*;

verus! {

/// The characters of `s`, in order.
pub fn to_chars(s: &str) -> (chars: Vec<char>)
    ensures
        chars@ == s@,
{
    let mut chars: Vec<char> = Vec::new();
    for c in it: s.chars()
        invariant
            it.seq() == s@,
            chars@ == it.seq().take(it.index() as int),
    {
        chars.push(c);
    }
    chars
}

/// Whether `s` holds `pattern` from position `at` on.
pub open spec fn has_at(s: Seq<char>, at: int, pattern: Seq<char>) -> bool {
    &&& 0 <= at
    &&& at + pattern.len() <= s.len()
    &&& s.subrange(at, at + pattern.len()) == pattern
}

/// Whether `s` begins with `prefix`.
pub open spec fn starts_with(s: Seq<char>, prefix: Seq<char>) -> bool {
    has_at(s, 0, prefix)
}

/// Whether `s` ends with `suffix`.
pub open spec fn ends_with(s: Seq<char>, suffix: Seq<char>) -> bool {
    has_at(s, s.len() - suffix.len(), suffix)
}

/// Whether `s` holds `pattern` from position `at` on.
pub fn holds_at(s: &Vec<char>, at: usize, pattern: &Vec<char>) -> (found: bool)
    ensures
        found == has_at(s@, at as int, pattern@),
{
    if at > s.len() || pattern.len() > s.len() - at {
        return false;
    }
    let mut i: usize = 0;
    while i < pattern.len()
        invariant
            i <= pattern.len(),
            at + pattern.len() <= s.len(),
            forall|k: int| 0 <= k < i ==> s@[at + k] == pattern@[k],
        decreases pattern.len() - i,
    {
        if s[at + i] != pattern[i] {
            assert(s@.subrange(at as int, at + pattern.len())[i as int] != pattern@[i as int]);
            return false;
        }
        i += 1;
    }
    assert(s@.subrange(at as int, at + pattern.len()) =~= pattern@);
    true
}

/// Whether `s` begins with `prefix`.
pub fn begins_with(s: &Vec<char>, prefix: &Vec<char>) -> (found: bool)
    ensures
        found == starts_with(s@, prefix@),
{
    holds_at(s, 0, prefix)
}

/// Whether `s` ends with `suffix`.
pub fn finishes_with(s: &Vec<char>, suffix: &Vec<char>) -> (found: bool)
    ensures
        found == ends_with(s@, suffix@),
{
    if suffix.len() > s.len() {
        return false;
    }
    holds_at(s, s.len() - suffix.len(), suffix)
}

/// A character with an ASCII capital letter folded to its small letter.
pub open spec fn lower(c: char) -> char {
    if 'A' <= c && c <= 'Z' {
        ((c as u8) + 32) as char
    } else {
        c
    }
}

/// Folds an ASCII capital letter to its small letter.
pub fn to_lower(c: char) -> (folded: char)
    ensures
        folded == lower(c),
{
    if 'A' <= c && c <= 'Z' {
        ((c as u8) + 32) as char
    } else {
        c
    }
}

/// Whether a character separates words: a space, a tab, a line feed, a
/// carriage return, a vertical tab or a form feed.
pub open spec fn is_space(c: char) -> bool {
    c == ' ' || c == '\t' || c == '\n' || c == '\r' || c == '\x0b' || c == '\x0c'
}

/// Whether a character separates words.
pub fn separates(c: char) -> (space: bool)
    ensures
        space == is_space(c),
{
    c == ' ' || c == '\t' || c == '\n' || c == '\r' || c == '\x0b' || c == '\x0c'
}

} // verus!
