//! Content extraction: isolating the delimited content region of a fetched
//! document and stripping markup down to plain prose.
//!
//! The pipeline drops everything between `<` and `>` inclusive (an
//! unterminated tag consumes to the end of the input), replaces the
//! non-breaking-space entity and literal escaped line-break sequences with a
//! single space, collapses white-space runs to one space, and trims.

use vstd::prelude::*;

use crate::scan::{find_lit, find_lit_from, lit_at, lit_match};
use crate::text::{
    chars_of, is_space, is_space_char, spec_trim, string_of, trim_chars,
};

verus! {

/// How reducing a document to clean prose can fail: the content markers are
/// absent (or reversed), or the region is empty once stripped.
#[derive(Clone, Copy, Debug, PartialEq, Eq, Structural)]
pub enum ContentError {
    MarkersNotFound,
    ContentEmpty,
}

/// The region strictly between the first occurrence of `open` (searched from
/// the front) and the first occurrence of `close` (also searched from the
/// front), trimmed; `None` when either marker is absent or the close marker
/// does not lie strictly after the end of the open marker.
pub open spec fn spec_extract_between(s: Seq<char>, open_m: Seq<char>, close_m: Seq<char>) -> Option<
    Seq<char>,
> {
    match find_lit_from(s, 0, open_m) {
        None => None,
        Some(ia) => {
            let start = ia + open_m.len();
            match find_lit_from(s, 0, close_m) {
                None => None,
                Some(ib) => if ib > start {
                    Some(spec_trim(s.subrange(start, ib)))
                } else {
                    None
                },
            }
        },
    }
}

/// The substring strictly between the two markers, trimmed.
pub fn extract_between_comments(html: &str, start_marker: &str, end_marker: &str) -> (r: Option<
    String,
>)
    ensures
        match r {
            Some(t) => spec_extract_between(html@, start_marker@, end_marker@) == Some(t@),
            None => spec_extract_between(html@, start_marker@, end_marker@) is None,
        },
{
    let cs = chars_of(html);
    let open_m = chars_of(start_marker);
    let close_m = chars_of(end_marker);
    let ia = match find_lit(cs.as_slice(), open_m.as_slice()) {
        Some(p) => p,
        None => {
            return None;
        },
    };
    let n_cs = cs.len();
    proof {
        assert(ia + open_m@.len() <= cs@.len() == n_cs);
    }
    let start = ia + open_m.len();
    let ib = match find_lit(cs.as_slice(), close_m.as_slice()) {
        Some(p) => p,
        None => {
            return None;
        },
    };
    if ib > start {
        let region = trim_chars(&cs.as_slice()[start..ib]);
        Some(string_of(region.as_slice()))
    } else {
        None
    }
}

/// Markup removal: characters between `<` and `>` inclusive are dropped; an
/// unterminated tag consumes the rest of the input.
pub open spec fn strip_tags_from(s: Seq<char>, i: int, inside: bool) -> Seq<char>
    decreases s.len() - i,
    when 0 <= i <= s.len()
{
    if i >= s.len() {
        Seq::empty()
    } else if s[i] == '<' {
        strip_tags_from(s, i + 1, true)
    } else if s[i] == '>' {
        strip_tags_from(s, i + 1, false)
    } else if !inside {
        seq![s[i]] + strip_tags_from(s, i + 1, inside)
    } else {
        strip_tags_from(s, i + 1, inside)
    }
}

fn strip_tags(s: &[char]) -> (r: Vec<char>)
    ensures
        r@ == strip_tags_from(s@, 0, false),
{
    let mut acc: Vec<char> = Vec::new();
    let mut inside = false;
    let mut i: usize = 0;
    while i < s.len()
        invariant
            i <= s@.len(),
            strip_tags_from(s@, 0, false) == acc@ + strip_tags_from(s@, i as int, inside),
        decreases s@.len() - i,
    {
        let c = s[i];
        if c == '<' {
            inside = true;
        } else if c == '>' {
            inside = false;
        } else if !inside {
            proof {
                assert(acc@ + (seq![s@[i as int]] + strip_tags_from(s@, i + 1, inside)) =~= acc@.push(
                    s@[i as int],
                ) + strip_tags_from(s@, i + 1, inside));
            }
            acc.push(c);
        }
        i = i + 1;
    }
    proof {
        assert(acc@ + strip_tags_from(s@, i as int, inside) =~= acc@);
    }
    acc
}

/// The non-breaking-space entity.
pub open spec fn pat_nbsp() -> Seq<char> {
    seq!['&', 'n', 'b', 's', 'p', ';']
}

/// The literal escaped carriage-return line-feed sequence.
pub open spec fn pat_crlf() -> Seq<char> {
    seq!['\\', 'r', '\\', 'n']
}

/// The literal escaped line feed.
pub open spec fn pat_lf() -> Seq<char> {
    seq!['\\', 'n']
}

/// The literal escaped carriage return.
pub open spec fn pat_cr() -> Seq<char> {
    seq!['\\', 'r']
}

/// The literal escaped tab.
pub open spec fn pat_tab() -> Seq<char> {
    seq!['\\', 't']
}

/// One left-to-right pass replacing each occurrence of the non-breaking-space
/// entity or a literal escaped line-break sequence with a single space,
/// longest pattern first.
pub open spec fn replace_escapes_from(s: Seq<char>, i: int) -> Seq<char>
    decreases s.len() - i,
    when 0 <= i <= s.len()
{
    if i >= s.len() {
        Seq::empty()
    } else if lit_at(s, i, pat_nbsp()) {
        seq![' '] + replace_escapes_from(s, i + pat_nbsp().len())
    } else if lit_at(s, i, pat_crlf()) {
        seq![' '] + replace_escapes_from(s, i + pat_crlf().len())
    } else if lit_at(s, i, pat_lf()) {
        seq![' '] + replace_escapes_from(s, i + pat_lf().len())
    } else if lit_at(s, i, pat_cr()) {
        seq![' '] + replace_escapes_from(s, i + pat_cr().len())
    } else if lit_at(s, i, pat_tab()) {
        seq![' '] + replace_escapes_from(s, i + pat_tab().len())
    } else {
        seq![s[i]] + replace_escapes_from(s, i + 1)
    }
}

fn replace_escapes(s: &[char]) -> (r: Vec<char>)
    ensures
        r@ == replace_escapes_from(s@, 0),
{
    let nbsp: Vec<char> = vec!['&', 'n', 'b', 's', 'p', ';'];
    let crlf: Vec<char> = vec!['\\', 'r', '\\', 'n'];
    let lf: Vec<char> = vec!['\\', 'n'];
    let cr: Vec<char> = vec!['\\', 'r'];
    let tab: Vec<char> = vec!['\\', 't'];
    proof {
        assert(nbsp@ =~= pat_nbsp());
        assert(crlf@ =~= pat_crlf());
        assert(lf@ =~= pat_lf());
        assert(cr@ =~= pat_cr());
        assert(tab@ =~= pat_tab());
    }
    let mut acc: Vec<char> = Vec::new();
    let mut i: usize = 0;
    while i < s.len()
        invariant
            i <= s@.len(),
            nbsp@ == pat_nbsp(),
            crlf@ == pat_crlf(),
            lf@ == pat_lf(),
            cr@ == pat_cr(),
            tab@ == pat_tab(),
            replace_escapes_from(s@, 0) == acc@ + replace_escapes_from(s@, i as int),
        decreases s@.len() - i,
    {
        let ghost prev = i as int;
        let step: usize = if lit_match(s, i, nbsp.as_slice()) {
            6
        } else if lit_match(s, i, crlf.as_slice()) {
            4
        } else if lit_match(s, i, lf.as_slice()) {
            2
        } else if lit_match(s, i, cr.as_slice()) {
            2
        } else if lit_match(s, i, tab.as_slice()) {
            2
        } else {
            0
        };
        if step > 0 {
            proof {
                assert(acc@ + (seq![' '] + replace_escapes_from(s@, prev + step)) =~= acc@.push(' ')
                    + replace_escapes_from(s@, prev + step));
            }
            acc.push(' ');
            i = i + step;
        } else {
            proof {
                assert(acc@ + (seq![s@[prev]] + replace_escapes_from(s@, prev + 1)) =~= acc@.push(
                    s@[prev],
                ) + replace_escapes_from(s@, prev + 1));
            }
            acc.push(s[i]);
            i = i + 1;
        }
    }
    proof {
        assert(acc@ + replace_escapes_from(s@, i as int) =~= acc@);
    }
    acc
}

/// Runs of white space collapse to a single ASCII space.
pub open spec fn collapse_from(s: Seq<char>, i: int, last_was_space: bool) -> Seq<char>
    decreases s.len() - i,
    when 0 <= i <= s.len()
{
    if i >= s.len() {
        Seq::empty()
    } else if is_space(s[i]) {
        if last_was_space {
            collapse_from(s, i + 1, true)
        } else {
            seq![' '] + collapse_from(s, i + 1, true)
        }
    } else {
        seq![s[i]] + collapse_from(s, i + 1, false)
    }
}

fn collapse_spaces(s: &[char]) -> (r: Vec<char>)
    ensures
        r@ == collapse_from(s@, 0, false),
{
    let mut acc: Vec<char> = Vec::new();
    let mut last = false;
    let mut i: usize = 0;
    while i < s.len()
        invariant
            i <= s@.len(),
            collapse_from(s@, 0, false) == acc@ + collapse_from(s@, i as int, last),
        decreases s@.len() - i,
    {
        let c = s[i];
        if is_space_char(c) {
            if !last {
                proof {
                    assert(acc@ + (seq![' '] + collapse_from(s@, i + 1, true)) =~= acc@.push(' ')
                        + collapse_from(s@, i + 1, true));
                }
                acc.push(' ');
                last = true;
            }
        } else {
            proof {
                assert(acc@ + (seq![s@[i as int]] + collapse_from(s@, i + 1, false)) =~= acc@.push(
                    s@[i as int],
                ) + collapse_from(s@, i + 1, false));
            }
            acc.push(c);
            last = false;
        }
        i = i + 1;
    }
    proof {
        assert(acc@ + collapse_from(s@, i as int, last) =~= acc@);
    }
    acc
}

/// The whole markup-stripping pipeline: drop tags, replace escape sequences,
/// collapse white space, trim.
pub open spec fn spec_strip_html(s: Seq<char>) -> Seq<char> {
    spec_trim(collapse_from(replace_escapes_from(strip_tags_from(s, 0, false), 0), 0, false))
}

/// Markup reduced to plain prose.
pub fn strip_html_tags(html: &str) -> (r: String)
    ensures
        r@ == spec_strip_html(html@),
{
    let cs = chars_of(html);
    let no_tags = strip_tags(cs.as_slice());
    let no_escapes = replace_escapes(no_tags.as_slice());
    let collapsed = collapse_spaces(no_escapes.as_slice());
    let trimmed = trim_chars(collapsed.as_slice());
    string_of(trimmed.as_slice())
}

/// Opening marker of the content region of a fetched document.
pub fn content_open_marker() -> (r: &'static str)
    ensures
        r@ == "<!-- INNHOLD -->"@,
{
    "<!-- INNHOLD -->"
}

/// Closing marker of the content region of a fetched document.
pub fn content_close_marker() -> (r: &'static str)
    ensures
        r@ == "<!-- /INNHOLD -->"@,
{
    "<!-- /INNHOLD -->"
}

/// The clean prose of a document: the marked region, stripped.  Fails with
/// `MarkersNotFound` when a marker is absent or the markers are reversed, and
/// with `ContentEmpty` when the region strips down to nothing — two distinct
/// outcomes beside success.
pub open spec fn spec_clean_document(s: Seq<char>) -> Result<Seq<char>, ContentError> {
    match spec_extract_between(s, "<!-- INNHOLD -->"@, "<!-- /INNHOLD -->"@) {
        None => Err(ContentError::MarkersNotFound),
        Some(region) => {
            let t = spec_strip_html(region);
            if t.len() == 0 {
                Err(ContentError::ContentEmpty)
            } else {
                Ok(t)
            }
        },
    }
}

/// Reduce fetched document markup to clean prose, distinguishing "markers
/// not found" from "content empty".
pub fn clean_document(html: &str) -> (r: Result<String, ContentError>)
    ensures
        match r {
            Ok(t) => spec_clean_document(html@) == Ok::<Seq<char>, ContentError>(t@),
            Err(e) => spec_clean_document(html@) == Err::<Seq<char>, ContentError>(e),
        },
{
    let region = match extract_between_comments(html, content_open_marker(), content_close_marker(
    )) {
        Some(t) => t,
        None => {
            return Err(ContentError::MarkersNotFound);
        },
    };
    let clean = strip_html_tags(region.as_str());
    if clean.as_str().unicode_len() == 0 {
        Err(ContentError::ContentEmpty)
    } else {
        Ok(clean)
    }
}

} // verus!
