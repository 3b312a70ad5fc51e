//! Flexible phrase matching over character sequences.
//!
//! A pattern is written as lower-case words separated by single spaces; a
//! space in the pattern stands for a run of one or more white-space
//! characters in the text, every other pattern character must match exactly.
//! Matching is anchored at a position; searching returns the leftmost match.

use vstd::prelude::*;

use crate::text::{is_space, is_space_char, skip_spaces, space_run_end};

verus! {

/// Position just after a match of `pat[j..]` against `s` starting at `i`,
/// or `None` when the tail of the pattern does not match there.
pub open spec fn flex_end(s: Seq<char>, i: int, pat: Seq<char>, j: int) -> Option<int>
    decreases pat.len() - j,
    when 0 <= j <= pat.len() && 0 <= i <= s.len()
{
    if j >= pat.len() {
        Some(i)
    } else if pat[j] == ' ' {
        if i < s.len() && is_space(s[i]) {
            flex_end(s, space_run_end(s, i), pat, j + 1)
        } else {
            None
        }
    } else {
        if i < s.len() && s[i] == pat[j] {
            flex_end(s, i + 1, pat, j + 1)
        } else {
            None
        }
    }
}

/// A full match of the pattern anchored at position `i`.
pub open spec fn flex_at(s: Seq<char>, i: int, pat: Seq<char>) -> Option<int> {
    flex_end(s, i, pat, 0)
}

pub proof fn lemma_flex_end_bounds(s: Seq<char>, i: int, pat: Seq<char>, j: int)
    requires
        0 <= j <= pat.len(),
        0 <= i <= s.len(),
        flex_end(s, i, pat, j) is Some,
    ensures
        i <= flex_end(s, i, pat, j)->0 <= s.len(),
    decreases pat.len() - j,
{
    if j >= pat.len() {
    } else if pat[j] == ' ' {
        crate::text::lemma_space_run_end_bounds(s, i);
        lemma_flex_end_bounds(s, space_run_end(s, i), pat, j + 1);
    } else {
        lemma_flex_end_bounds(s, i + 1, pat, j + 1);
    }
}

/// Anchored matcher for a flexible phrase.
pub fn flex_match(s: &[char], start: usize, pat: &[char]) -> (r: Option<usize>)
    requires
        start <= s@.len(),
    ensures
        match r {
            Some(e) => flex_at(s@, start as int, pat@) == Some(e as int) && start <= e <= s@.len(),
            None => flex_at(s@, start as int, pat@) is None,
        },
{
    let mut i = start;
    let mut j: usize = 0;
    while j < pat.len()
        invariant
            start <= i <= s@.len(),
            j <= pat@.len(),
            flex_end(s@, start as int, pat@, 0) == flex_end(s@, i as int, pat@, j as int),
        decreases pat@.len() - j,
    {
        if pat[j] == ' ' {
            if i < s.len() && is_space_char(s[i]) {
                i = skip_spaces(s, i);
                j = j + 1;
            } else {
                return None;
            }
        } else {
            if i < s.len() && s[i] == pat[j] {
                i = i + 1;
                j = j + 1;
            } else {
                return None;
            }
        }
    }
    Some(i)
}

/// The leftmost match of the pattern at or after position `i`: start and end.
pub open spec fn find_flex_from(s: Seq<char>, i: int, pat: Seq<char>) -> Option<(int, int)>
    decreases s.len() - i,
    when 0 <= i <= s.len()
{
    if i >= s.len() {
        None
    } else if flex_at(s, i, pat) is Some {
        Some((i, flex_at(s, i, pat)->0))
    } else {
        find_flex_from(s, i + 1, pat)
    }
}

/// The leftmost match of the pattern anywhere in the text.
pub open spec fn spec_find_flex(s: Seq<char>, pat: Seq<char>) -> Option<(int, int)> {
    find_flex_from(s, 0, pat)
}

pub proof fn lemma_find_flex_from_bounds(s: Seq<char>, i: int, pat: Seq<char>)
    requires
        0 <= i <= s.len(),
        find_flex_from(s, i, pat) is Some,
    ensures
        i <= (find_flex_from(s, i, pat)->0).0 <= (find_flex_from(s, i, pat)->0).1 <= s.len(),
    decreases s.len() - i,
{
    if i >= s.len() {
    } else if flex_at(s, i, pat) is Some {
        lemma_flex_end_bounds(s, i, pat, 0);
    } else {
        lemma_find_flex_from_bounds(s, i + 1, pat);
    }
}

/// Leftmost search for a flexible phrase.
pub fn find_flex(s: &[char], pat: &[char]) -> (r: Option<(usize, usize)>)
    ensures
        match r {
            Some(se) => spec_find_flex(s@, pat@) == Some((se.0 as int, se.1 as int)) && se.0 <= se.1
                <= s@.len(),
            None => spec_find_flex(s@, pat@) is None,
        },
{
    let mut i: usize = 0;
    while i < s.len()
        invariant
            i <= s@.len(),
            find_flex_from(s@, 0, pat@) == find_flex_from(s@, i as int, pat@),
        decreases s@.len() - i,
    {
        match flex_match(s, i, pat) {
            Some(e) => {
                return Some((i, e));
            },
            None => {
                i = i + 1;
            },
        }
    }
    None
}

/// Whether the phrase occurs anywhere in the text.
pub open spec fn has_flex(s: Seq<char>, pat: Seq<char>) -> bool {
    spec_find_flex(s, pat) is Some
}

/// The literal word `w` stands at position `i` of `s`.
pub open spec fn lit_at(s: Seq<char>, i: int, w: Seq<char>) -> bool {
    0 <= i && i + w.len() <= s.len() && s.subrange(i, i + w.len()) == w
}

/// The position of the first occurrence of the literal `w` at or after `i`.
pub open spec fn find_lit_from(s: Seq<char>, i: int, w: Seq<char>) -> Option<int>
    decreases s.len() - i,
    when 0 <= i <= s.len()
{
    if lit_at(s, i, w) {
        Some(i)
    } else if i >= s.len() {
        None
    } else {
        find_lit_from(s, i + 1, w)
    }
}

pub proof fn lemma_find_lit_from_bounds(s: Seq<char>, i: int, w: Seq<char>)
    requires
        0 <= i <= s.len(),
        find_lit_from(s, i, w) is Some,
    ensures
        i <= find_lit_from(s, i, w)->0,
        find_lit_from(s, i, w)->0 + w.len() <= s.len(),
    decreases s.len() - i,
{
    if lit_at(s, i, w) {
    } else if i >= s.len() {
    } else {
        lemma_find_lit_from_bounds(s, i + 1, w);
    }
}

/// Anchored comparison against a literal word.
pub fn lit_match(s: &[char], i: usize, w: &[char]) -> (r: bool)
    requires
        i <= s@.len(),
    ensures
        r == lit_at(s@, i as int, w@),
{
    let n = s.len();
    if w.len() > n - i {
        return false;
    }
    let mut k: usize = 0;
    while k < w.len()
        invariant
            n == s@.len(),
            i + w@.len() <= s@.len(),
            k <= w@.len(),
            forall|m: int| 0 <= m < k ==> s@[i + m] == w@[m],
        decreases w@.len() - k,
    {
        if s[i + k] != w[k] {
            proof {
                assert(s@.subrange(i as int, i + w@.len())[k as int] != w@[k as int]);
            }
            return false;
        }
        k = k + 1;
    }
    proof {
        assert(s@.subrange(i as int, i + w@.len()) =~= w@);
    }
    true
}

/// Search for a literal word at or after a position.
pub fn search_lit(s: &[char], from: usize, w: &[char]) -> (r: Option<usize>)
    requires
        from <= s@.len(),
    ensures
        match r {
            Some(p) => find_lit_from(s@, from as int, w@) == Some(p as int) && from <= p && p
                + w@.len() <= s@.len(),
            None => find_lit_from(s@, from as int, w@) is None,
        },
{
    let mut i: usize = from;
    loop
        invariant
            from <= i <= s@.len(),
            find_lit_from(s@, from as int, w@) == find_lit_from(s@, i as int, w@),
        decreases s@.len() - i,
    {
        if lit_match(s, i, w) {
            return Some(i);
        }
        if i >= s.len() {
            return None;
        }
        i = i + 1;
    }
}

/// Leftmost search for a literal word.
pub fn find_lit(s: &[char], w: &[char]) -> (r: Option<usize>)
    ensures
        match r {
            Some(p) => find_lit_from(s@, 0, w@) == Some(p as int) && p + w@.len() <= s@.len(),
            None => find_lit_from(s@, 0, w@) is None,
        },
{
    let mut i: usize = 0;
    loop
        invariant
            i <= s@.len(),
            find_lit_from(s@, 0, w@) == find_lit_from(s@, i as int, w@),
        decreases s@.len() - i,
    {
        if lit_match(s, i, w) {
            return Some(i);
        }
        if i >= s.len() {
            return None;
        }
        i = i + 1;
    }
}

pub fn contains_flex(s: &[char], pat: &[char]) -> (r: bool)
    ensures
        r == has_flex(s@, pat@),
{
    find_flex(s, pat).is_some()
}

} // verus!
