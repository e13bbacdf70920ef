//! Search queries: the terms of a query, and how often a term occurs as a
//! word of a text.
//!
//! A word is a maximal run of characters that are not spaces. A term occurs
//! in a text where a word of the text equals it, capital ASCII letters
//! counting as small ones; part of a word is no occurrence.

use vstd::prelude::*;
use crate::text::{is_space, lower, separates, to_lower};

verus! {

/// The word that ends just before position `to`, as a sequence of at most
/// one word: none where the run that began at `start` is empty.
pub open spec fn word_between(s: Seq<char>, start: int, to: int) -> Seq<Seq<char>> {
    if start < to {
        seq![s.subrange(start, to)]
    } else {
        Seq::empty()
    }
}

/// The words of `s` from position `from` on, where a run of characters
/// that are not spaces has been read since position `start`.
pub open spec fn words_from(s: Seq<char>, from: int, start: int) -> Seq<Seq<char>>
    decreases s.len() - from,
{
    if from >= s.len() {
        word_between(s, start, s.len() as int)
    } else if is_space(s[from]) {
        word_between(s, start, from) + words_from(s, from + 1, from + 1)
    } else {
        words_from(s, from + 1, start)
    }
}

/// The words of `s`: its maximal runs of characters that are not spaces,
/// in order.
pub open spec fn words(s: Seq<char>) -> Seq<Seq<char>> {
    words_from(s, 0, 0)
}

/// Whether `s[from..to]` is a word of `s`: not empty, free of spaces, and
/// bounded on each side by a space or by an end of `s`.
pub open spec fn is_word_at(s: Seq<char>, from: int, to: int) -> bool {
    &&& 0 <= from < to <= s.len()
    &&& from == 0 || is_space(s[from - 1])
    &&& to == s.len() || is_space(s[to])
    &&& forall|k: int| from <= k < to ==> !is_space(#[trigger] s[k])
}

/// Whether `a` and `b` are the same text but for the case of ASCII letters.
pub open spec fn same_folded(a: Seq<char>, b: Seq<char>) -> bool {
    &&& a.len() == b.len()
    &&& forall|k: int| 0 <= k < a.len() ==> lower(#[trigger] a[k]) == lower(b[k])
}

/// Whether a word of `text` that equals `term`, case folded, begins at
/// position `at`.
pub open spec fn occurs_at(text: Seq<char>, term: Seq<char>, at: int) -> bool {
    &&& is_word_at(text, at, at + term.len())
    &&& same_folded(text.subrange(at, at + term.len()), term)
}

/// The number of positions below `n` at which `term` occurs in `text`.
pub open spec fn occurrences_below(text: Seq<char>, term: Seq<char>, n: int) -> nat
    decreases n,
{
    if n <= 0 {
        0
    } else {
        occurrences_below(text, term, n - 1) + if occurs_at(text, term, n - 1) {
            1nat
        } else {
            0nat
        }
    }
}

/// How often `term` occurs as a word of `text`.
pub open spec fn occurrences(text: Seq<char>, term: Seq<char>) -> nat {
    occurrences_below(text, term, text.len() as int)
}

/// The views of a sequence of terms.
pub open spec fn term_views(terms: Seq<Vec<char>>) -> Seq<Seq<char>> {
    terms.map_values(|t: Vec<char>| t@)
}

/// A term occurs in a text exactly if it occurs at some position.
pub proof fn lemma_occurrences_positive(text: Seq<char>, term: Seq<char>, n: int)
    ensures
        occurrences_below(text, term, n) > 0 <==> exists|at: int|
            0 <= at < n && occurs_at(text, term, at),
    decreases n,
{
    if n > 0 {
        lemma_occurrences_positive(text, term, n - 1);
        if occurrences_below(text, term, n) > 0 {
            if occurs_at(text, term, n - 1) {
            } else {
                let at = choose|at: int| 0 <= at < n - 1 && occurs_at(text, term, at);
                assert(0 <= at < n && occurs_at(text, term, at));
            }
        }
        if exists|at: int| 0 <= at < n && occurs_at(text, term, at) {
            let at = choose|at: int| 0 <= at < n && occurs_at(text, term, at);
            if at < n - 1 {
                assert(0 <= at < n - 1 && occurs_at(text, term, at));
            }
        }
    }
}

/// Splits a query into its terms.
pub fn split_terms(query: &Vec<char>) -> (terms: Vec<Vec<char>>)
    ensures
        term_views(terms@) == words(query@),
{
    let mut terms: Vec<Vec<char>> = Vec::new();
    let mut word: Vec<char> = Vec::new();
    let mut i: usize = 0;
    let ghost mut start: int = 0;
    proof {
        assert(term_views(terms@) =~= Seq::empty());
        assert(word@ =~= query@.subrange(0, 0));
    }
    while i < query.len()
        invariant
            i <= query.len(),
            0 <= start <= i,
            word@ == query@.subrange(start, i as int),
            words(query@) == term_views(terms@) + words_from(query@, i as int, start),
        decreases query.len() - i,
    {
        let c = query[i];
        if separates(c) {
            if word.len() > 0 {
                let ghost before = term_views(terms@);
                let ghost finished = word@;
                terms.push(word);
                word = Vec::new();
                proof {
                    assert(term_views(terms@) =~= before.push(finished));
                    assert(before + (seq![finished] + words_from(query@, i + 1, i + 1))
                        =~= before.push(finished) + words_from(query@, i + 1, i + 1));
                }
            } else {
                proof {
                    assert(term_views(terms@) + (Seq::<Seq<char>>::empty() + words_from(
                        query@,
                        i + 1,
                        i + 1,
                    )) =~= term_views(terms@) + words_from(query@, i + 1, i + 1));
                }
            }
            proof {
                start = i + 1;
                assert(word@ =~= query@.subrange(start, i + 1));
            }
        } else {
            word.push(c);
            proof {
                assert(word@ =~= query@.subrange(start, i + 1));
            }
        }
        i += 1;
    }
    if word.len() > 0 {
        let ghost before = term_views(terms@);
        let ghost finished = word@;
        terms.push(word);
        proof {
            assert(term_views(terms@) =~= before.push(finished));
            assert(before + seq![finished] =~= before.push(finished));
        }
    } else {
        proof {
            assert(term_views(terms@) + Seq::<Seq<char>>::empty() =~= term_views(terms@));
        }
    }
    terms
}

/// Whether a word of `text` that equals `term`, case folded, begins at
/// position `at`.
pub fn term_occurs_at(text: &Vec<char>, term: &Vec<char>, at: usize) -> (found: bool)
    requires
        at < text.len(),
    ensures
        found == occurs_at(text@, term@, at as int),
{
    let n = term.len();
    if n == 0 || n > text.len() - at {
        return false;
    }
    if at > 0 && !separates(text[at - 1]) {
        return false;
    }
    if at + n < text.len() && !separates(text[at + n]) {
        return false;
    }
    let ghost part = text@.subrange(at as int, at + n);
    let mut k: usize = 0;
    while k < n
        invariant
            k <= n,
            n == term.len(),
            at + n <= text.len(),
            part == text@.subrange(at as int, at + n),
            forall|j: int| at <= j < at + k ==> !is_space(#[trigger] text@[j]),
            forall|j: int| 0 <= j < k ==> lower(#[trigger] part[j]) == lower(term@[j]),
        decreases n - k,
    {
        let c = text[at + k];
        if separates(c) {
            return false;
        }
        if to_lower(c) != to_lower(term[k]) {
            assert(lower(part[k as int]) != lower(term@[k as int]));
            return false;
        }
        k += 1;
    }
    true
}

/// How often `term` occurs as a word of `text`.
pub fn count_occurrences(text: &Vec<char>, term: &Vec<char>) -> (count: usize)
    ensures
        count == occurrences(text@, term@),
{
    let mut count: usize = 0;
    let mut at: usize = 0;
    while at < text.len()
        invariant
            at <= text.len(),
            count == occurrences_below(text@, term@, at as int),
            count <= at,
        decreases text.len() - at,
    {
        if term_occurs_at(text, term, at) {
            count += 1;
        }
        at += 1;
    }
    count
}

} // verus!
