//! Enforcement-date classification: a fixed priority order of pattern rules
//! over a document's prose, each match carrying a bounded snippet of the
//! surrounding text.
//!
//! The rules, probed in order until the first hit: immediate enforcement
//! (`trer i kraft straks`), deferral to decree (`kongen bestemmer`,
//! optionally preceded by `fra den tid`), a fixed calendar-valid date after
//! `trer i kraft`, and a multiple-dates signal (`trer i kraft` beside a
//! section mark or a several-dates phrase).  Absence of a match is itself a
//! valid classification, not a failure.

use vstd::prelude::*;

use crate::citation::{spec_day_val_at, spec_year_val_at};
use crate::date::{is_valid_date, month_number, spec_month_number, spec_two_digits, two_digits, spec_valid_date};
use crate::scan::{contains_flex, find_flex, flex_at, flex_match, has_flex, spec_find_flex};
use crate::text::{
    chars_of, contains_char, digit_run_end, digit_val_char, extend_from_range, find_char,
    is_digit, is_space, is_space_char, is_word_char, lemma_digit_run_end_bounds,
    lemma_digit_run_end_chars, lemma_space_run_end_bounds, lemma_word_run_end_bounds,
    lemma_word_run_end_chars, lower_chars, lower_seq, space_run_end, spec_trim, spec_trim_end,
    string_of, trim_chars, trim_end_chars, word_run_end,
};

verus! {

/// Text cut to at most `max` characters: a longer text is cut, stripped of
/// trailing white space, and given a three-dot ellipsis.
pub open spec fn spec_truncate(s: Seq<char>, max: int) -> Seq<char> {
    if s.len() <= max {
        s
    } else {
        spec_trim_end(s.subrange(0, max)) + seq!['.', '.', '.']
    }
}

fn truncate_vec(cs: &[char], max_chars: usize) -> (r: Vec<char>)
    ensures
        r@ == spec_truncate(cs@, max_chars as int),
{
    if cs.len() <= max_chars {
        let mut r: Vec<char> = Vec::new();
        extend_from_range(&mut r, cs, 0, cs.len());
        proof {
            assert(r@ =~= cs@);
        }
        r
    } else {
        let mut t = trim_end_chars(&cs[0..max_chars]);
        t.push('.');
        t.push('.');
        t.push('.');
        proof {
            assert(t@ =~= spec_truncate(cs@, max_chars as int));
        }
        t
    }
}

/// Text cut to at most `max_chars` characters on whole-character
/// boundaries, with an ellipsis when anything was cut.
pub fn truncate_chars(value: &str, max_chars: usize) -> (r: String)
    ensures
        r@ == spec_truncate(value@, max_chars as int),
{
    let cs = chars_of(value);
    let t = truncate_vec(cs.as_slice(), max_chars);
    string_of(t.as_slice())
}

/// An index clamped into the text, measured in whole characters; an index
/// past the end comes back as the length.
pub fn clamp_to_char_boundary_start(value: &str, index: usize) -> (r: usize)
    ensures
        r as int == if index <= value@.len() {
            index as int
        } else {
            value@.len() as int
        },
{
    let n = value.unicode_len();
    if index < n {
        index
    } else {
        n
    }
}

/// Same clamping for the end of a range; on a character sequence both ends
/// clamp alike.
pub fn clamp_to_char_boundary_end(value: &str, index: usize) -> (r: usize)
    ensures
        r as int == if index <= value@.len() {
            index as int
        } else {
            value@.len() as int
        },
{
    let n = value.unicode_len();
    if index < n {
        index
    } else {
        n
    }
}

/// The bounded context around a matched span: up to eighty characters on
/// each side, trimmed, cut to two hundred characters with an ellipsis; an
/// all-space context becomes the sentinel `none`.
pub open spec fn spec_snippet(s: Seq<char>, start: int, end: int) -> Seq<char>
    recommends
        0 <= start <= end <= s.len(),
{
    let a = if start - 80 >= 0 {
        start - 80
    } else {
        0
    };
    let b = if end + 80 <= s.len() {
        end + 80
    } else {
        s.len() as int
    };
    let t = spec_trim(s.subrange(a, b));
    if t.len() == 0 {
        "none"@
    } else {
        spec_truncate(t, 200)
    }
}

fn snippet_vec(s: &[char], start: usize, end: usize) -> (r: Vec<char>)
    requires
        start <= end <= s@.len(),
    ensures
        r@ == spec_snippet(s@, start as int, end as int),
{
    let a = if start >= 80 {
        start - 80
    } else {
        0
    };
    let b = if s.len() - end >= 80 {
        end + 80
    } else {
        s.len()
    };
    let t = trim_chars(&s[a..b]);
    if t.len() == 0 {
        chars_of("none")
    } else {
        truncate_vec(t.as_slice(), 200)
    }
}

/// The bounded snippet around a matched span of the text.
pub fn snippet_around_match(text: &str, start: usize, end: usize) -> (r: String)
    requires
        start <= end <= text@.len(),
    ensures
        r@ == spec_snippet(text@, start as int, end as int),
{
    let cs = chars_of(text);
    let v = snippet_vec(cs.as_slice(), start, end);
    string_of(v.as_slice())
}

/// Phrase of the immediate-enforcement rule.
pub open spec fn pat_straks() -> Seq<char> {
    "trer i kraft straks"@
}

/// Phrase of the deferral rule with its optional lead-in.
pub open spec fn pat_kongen_full() -> Seq<char> {
    "fra den tid kongen bestemmer"@
}

/// Bare phrase of the deferral rule.
pub open spec fn pat_kongen() -> Seq<char> {
    "kongen bestemmer"@
}

/// The enforcement lead-in phrase.
pub open spec fn pat_tik() -> Seq<char> {
    "trer i kraft"@
}

/// First several-dates phrase.
pub open spec fn pat_ulike() -> Seq<char> {
    "ulike tider"@
}

/// Second several-dates phrase.
pub open spec fn pat_forskjellige() -> Seq<char> {
    "forskjellige tidspunkt"@
}

/// Third several-dates phrase.
pub open spec fn pat_til_ulike() -> Seq<char> {
    "til ulike tider"@
}

/// A deferral-rule match at `i`: the phrase with its lead-in when the
/// lead-in stands there, else the bare phrase.
pub open spec fn kongen_at(s: Seq<char>, i: int) -> Option<int> {
    if flex_at(s, i, pat_kongen_full()) is Some {
        flex_at(s, i, pat_kongen_full())
    } else {
        flex_at(s, i, pat_kongen())
    }
}

/// Leftmost deferral-rule match.
pub open spec fn find_kongen_from(s: Seq<char>, i: int) -> Option<(int, int)>
    decreases s.len() - i,
    when 0 <= i <= s.len()
{
    if i >= s.len() {
        None
    } else if kongen_at(s, i) is Some {
        Some((i, kongen_at(s, i)->0))
    } else {
        find_kongen_from(s, i + 1)
    }
}

fn find_kongen(s: &[char], full: &[char], body: &[char]) -> (r: Option<(usize, usize)>)
    requires
        full@ == pat_kongen_full(),
        body@ == pat_kongen(),
    ensures
        match r {
            Some(p) => find_kongen_from(s@, 0) == Some((p.0 as int, p.1 as int)) && p.0 <= p.1
                <= s@.len(),
            None => find_kongen_from(s@, 0) is None,
        },
{
    let mut i: usize = 0;
    while i < s.len()
        invariant
            i <= s@.len(),
            full@ == pat_kongen_full(),
            body@ == pat_kongen(),
            find_kongen_from(s@, 0) == find_kongen_from(s@, i as int),
        decreases s@.len() - i,
    {
        match flex_match(s, i, full) {
            Some(e) => {
                proof {
                    assert(kongen_at(s@, i as int) == Some(e as int));
                    assert(find_kongen_from(s@, i as int) == Some((i as int, e as int)));
                }
                return Some((i, e));
            },
            None => {
                match flex_match(s, i, body) {
                    Some(e) => {
                        proof {
                            assert(kongen_at(s@, i as int) == Some(e as int));
                            assert(find_kongen_from(s@, i as int) == Some((i as int, e as int)));
                        }
                        return Some((i, e));
                    },
                    None => {
                        proof {
                            assert(kongen_at(s@, i as int) is None);
                        }
                        i = i + 1;
                    },
                }
            },
        }
    }
    None
}

/// The capture positions of one fixed-date clause: the whole span and the
/// day, month-name and year captures.
pub struct DateSpans {
    pub start: int,
    pub day_start: int,
    pub day_end: int,
    pub month_start: int,
    pub month_end: int,
    pub year_start: int,
    pub end: int,
}

/// A fixed-date clause anchored at `i`: the enforcement lead-in, one or more
/// spaces, one or two day digits followed directly by a period, optional
/// spaces, a non-empty month-name run, one or more spaces, and four year
/// digits.  The clause ends after the fourth year digit.
pub open spec fn date_clause_at(s: Seq<char>, i: int) -> Option<DateSpans> {
    if !(0 <= i <= s.len()) {
        None
    } else {
        match flex_at(s, i, pat_tik()) {
            None => None,
            Some(p) => {
                if !(i <= p && p < s.len() && is_space(s[p])) {
                    None
                } else {
                    let d0 = space_run_end(s, p);
                    let d_end = digit_run_end(s, d0);
                    if !((d_end - d0 == 1 || d_end - d0 == 2) && d_end < s.len() && s[d_end]
                        == '.') {
                        None
                    } else {
                        let m0 = space_run_end(s, d_end + 1);
                        let m_end = word_run_end(s, m0);
                        if !(m_end > m0 && m_end < s.len() && is_space(s[m_end])) {
                            None
                        } else {
                            let y0 = space_run_end(s, m_end);
                            if !(digit_run_end(s, y0) >= y0 + 4) {
                                None
                            } else {
                                Some(
                                    DateSpans {
                                        start: i,
                                        day_start: d0,
                                        day_end: d_end,
                                        month_start: m0,
                                        month_end: m_end,
                                        year_start: y0,
                                        end: y0 + 4,
                                    },
                                )
                            }
                        }
                    }
                }
            },
        }
    }
}

/// Span order, bounds and captured character classes of a fixed-date clause.
pub proof fn lemma_date_clause_at_wf(s: Seq<char>, i: int)
    requires
        date_clause_at(s, i) is Some,
    ensures
        ({
            let m = date_clause_at(s, i)->0;
            &&& m.start == i
            &&& i < m.end <= s.len()
            &&& i <= m.day_start < m.day_end <= m.day_start + 2
            &&& m.day_end + 1 <= m.month_start < m.month_end < s.len()
            &&& m.month_end <= m.year_start
            &&& m.year_start + 4 == m.end
            &&& (forall|k: int| m.day_start <= k < m.day_end ==> is_digit(s[k]))
            &&& (forall|k: int|
                m.year_start <= k < m.year_start + 4 ==> is_digit(s[k]))
            &&& (forall|k: int| m.month_start <= k < m.month_end ==> is_word_char(s[k]))
        }),
{
    let m = date_clause_at(s, i)->0;
    let p = flex_at(s, i, pat_tik())->0;
    lemma_space_run_end_bounds(s, p);
    let d0 = space_run_end(s, p);
    lemma_digit_run_end_bounds(s, d0);
    lemma_digit_run_end_chars(s, d0);
    let d_end = digit_run_end(s, d0);
    lemma_space_run_end_bounds(s, d_end + 1);
    let m0 = space_run_end(s, d_end + 1);
    lemma_word_run_end_bounds(s, m0);
    lemma_word_run_end_chars(s, m0);
    let m_end = word_run_end(s, m0);
    lemma_space_run_end_bounds(s, m_end);
    let y0 = space_run_end(s, m_end);
    lemma_digit_run_end_bounds(s, y0);
    lemma_digit_run_end_chars(s, y0);
}

/// A clause passes when its month name is in the table and the (year,
/// month, day) triple is a real calendar date.
pub open spec fn date_clause_valid(s: Seq<char>, m: DateSpans) -> bool {
    &&& spec_month_number(s.subrange(m.month_start, m.month_end)) is Some
    &&& spec_valid_date(
        spec_year_val_at(s, m.year_start) as u32,
        spec_month_number(s.subrange(m.month_start, m.month_end))->0,
        spec_day_val_at(s, m.day_start, m.day_end) as u32,
    )
}

/// The first calendar-valid fixed-date clause, scanning clauses in document
/// order and resuming after each rejected one.
pub open spec fn first_valid_date_from(s: Seq<char>, i: int) -> Option<DateSpans>
    decreases s.len() - i,
    when 0 <= i <= s.len()
{
    if i >= s.len() {
        None
    } else {
        match date_clause_at(s, i) {
            Some(m) => {
                if date_clause_valid(s, m) {
                    Some(m)
                } else {
                    proof {
                        lemma_date_clause_at_wf(s, i);
                    }
                    first_valid_date_from(s, m.end)
                }
            },
            None => first_valid_date_from(s, i + 1),
        }
    }
}

/// One fixed-date clause of the scanner, as positions into the text.
#[derive(Clone, Copy)]
pub struct DateHit {
    pub start: usize,
    pub day_start: usize,
    pub day_end: usize,
    pub month_start: usize,
    pub month_end: usize,
    pub year_start: usize,
    pub end: usize,
}

impl View for DateHit {
    type V = DateSpans;

    open spec fn view(&self) -> DateSpans {
        DateSpans {
            start: self.start as int,
            day_start: self.day_start as int,
            day_end: self.day_end as int,
            month_start: self.month_start as int,
            month_end: self.month_end as int,
            year_start: self.year_start as int,
            end: self.end as int,
        }
    }
}

fn date_clause_match(s: &[char], i: usize, tik: &[char]) -> (r: Option<DateHit>)
    requires
        i <= s@.len(),
        tik@ == pat_tik(),
    ensures
        match r {
            Some(h) => date_clause_at(s@, i as int) == Some(h@) && i < h.end && h.end <= s@.len(),
            None => date_clause_at(s@, i as int) is None,
        },
{
    let n = s.len();
    let p = match flex_match(s, i, tik) {
        Some(p) => p,
        None => {
            return None;
        },
    };
    if !(p < n && is_space_char(s[p])) {
        return None;
    }
    let d0 = crate::text::skip_spaces(s, p);
    let d_end = crate::text::skip_digits(s, d0);
    if !((d_end - d0 == 1 || d_end - d0 == 2) && d_end < n && s[d_end] == '.') {
        return None;
    }
    let m0 = crate::text::skip_spaces(s, d_end + 1);
    let m_end = crate::text::skip_word_chars(s, m0);
    if !(m_end > m0 && m_end < n && is_space_char(s[m_end])) {
        return None;
    }
    let y0 = crate::text::skip_spaces(s, m_end);
    let yr_end = crate::text::skip_digits(s, y0);
    if !(yr_end - y0 >= 4) {
        return None;
    }
    let h = DateHit {
        start: i,
        day_start: d0,
        day_end: d_end,
        month_start: m0,
        month_end: m_end,
        year_start: y0,
        end: y0 + 4,
    };
    proof {
        assert(date_clause_at(s@, i as int) == Some(h@));
        lemma_date_clause_at_wf(s@, i as int);
    }
    Some(h)
}

fn first_valid_date(s: &[char], tik: &[char]) -> (r: Option<DateHit>)
    requires
        tik@ == pat_tik(),
    ensures
        match r {
            Some(h) => first_valid_date_from(s@, 0) == Some(h@) && h.start <= h.end <= s@.len()
                && date_clause_at(s@, h.start as int) == Some(h@) && date_clause_valid(s@, h@),
            None => first_valid_date_from(s@, 0) is None,
        },
{
    let mut i: usize = 0;
    while i < s.len()
        invariant
            i <= s@.len(),
            tik@ == pat_tik(),
            first_valid_date_from(s@, 0) == first_valid_date_from(s@, i as int),
        decreases s@.len() - i,
    {
        match date_clause_match(s, i, tik) {
            Some(h) => {
                proof {
                    lemma_date_clause_at_wf(s@, i as int);
                }
                let month_opt = month_number(&s[h.month_start..h.month_end]);
                let day: u32 = if h.day_end - h.day_start == 1 {
                    digit_val_char(s[h.day_start])
                } else {
                    10 * digit_val_char(s[h.day_start]) + digit_val_char(s[h.day_start + 1])
                };
                let year: u32 = 1000 * digit_val_char(s[h.year_start]) + 100 * digit_val_char(
                    s[h.year_start + 1],
                ) + 10 * digit_val_char(s[h.year_start + 2]) + digit_val_char(
                    s[h.year_start + 3],
                );
                let valid = match month_opt {
                    Some(m) => is_valid_date(year, m, day),
                    None => false,
                };
                proof {
                    assert(s@.subrange(h.month_start as int, h.month_end as int)
                        == s@.subrange(h@.month_start, h@.month_end));
                    assert(valid == date_clause_valid(s@, h@));
                }
                if valid {
                    return Some(h);
                }
                i = h.end;
            },
            None => {
                i = i + 1;
            },
        }
    }
    None
}

/// The normalized date of a valid clause: the year digits verbatim, then
/// the zero-padded month and day.
pub open spec fn spec_iso_date(s: Seq<char>, m: DateSpans) -> Seq<char> {
    s.subrange(m.year_start, m.year_start + 4) + seq!['-'] + spec_two_digits(
        spec_month_number(s.subrange(m.month_start, m.month_end))->0,
    ) + seq!['-'] + spec_two_digits(spec_day_val_at(s, m.day_start, m.day_end) as u32)
}

fn format_iso_date(s: &[char], h: &DateHit, month: u32, day: u32) -> (r: Vec<char>)
    requires
        h.year_start + 4 <= s@.len(),
        month == spec_month_number(s@.subrange(h@.month_start, h@.month_end))->0,
        month < 100,
        day == spec_day_val_at(s@, h@.day_start, h@.day_end) as u32,
        day < 100,
    ensures
        r@ == spec_iso_date(s@, h@),
{
    let n = s.len();
    proof {
        assert(h.year_start + 4 <= n);
    }
    let mut v: Vec<char> = Vec::new();
    extend_from_range(&mut v, s, h.year_start, h.year_start + 4);
    v.push('-');
    let md = two_digits(month);
    extend_from_range(&mut v, md.as_slice(), 0, md.len());
    proof {
        assert(md@.subrange(0, md@.len() as int) =~= md@);
    }
    v.push('-');
    let dd = two_digits(day);
    extend_from_range(&mut v, dd.as_slice(), 0, dd.len());
    proof {
        assert(dd@.subrange(0, dd@.len() as int) =~= dd@);
        assert(v@ =~= spec_iso_date(s@, h@));
    }
    v
}

/// The several-dates signal: a section mark anywhere, or one of the
/// several-dates phrases.
pub open spec fn multi_signal(low: Seq<char>) -> bool {
    contains_char(low, '\u{a7}') || has_flex(low, pat_ulike()) || has_flex(
        low,
        pat_forskjellige(),
    ) || has_flex(low, pat_til_ulike())
}

/// One enforcement classification: the classification value, the bounded
/// snippet around the deciding match (or the sentinel `none`), and the name
/// of the rule that decided.
pub struct EnforcementParseResult {
    pub value: String,
    pub matched_snippet: String,
    pub source: String,
}

/// The same classification at the specification level.
pub struct EnforcementSpec {
    pub value: Seq<char>,
    pub snippet: Seq<char>,
    pub source: Seq<char>,
}

/// The full priority cascade over a text: immediate, deferred to decree,
/// first valid fixed date, multiple dates, nothing found — first rule to
/// match decides.
pub open spec fn spec_classify(s: Seq<char>) -> EnforcementSpec {
    let low = lower_seq(s);
    if spec_find_flex(low, pat_straks()) is Some {
        let ab = spec_find_flex(low, pat_straks())->0;
        EnforcementSpec {
            value: "STRAKS"@,
            snippet: spec_snippet(s, ab.0, ab.1),
            source: "straks"@,
        }
    } else if find_kongen_from(low, 0) is Some {
        let ab = find_kongen_from(low, 0)->0;
        EnforcementSpec {
            value: "KONGEN_BESTEMMER"@,
            snippet: spec_snippet(s, ab.0, ab.1),
            source: "kongen"@,
        }
    } else if first_valid_date_from(low, 0) is Some {
        let m = first_valid_date_from(low, 0)->0;
        EnforcementSpec {
            value: spec_iso_date(low, m),
            snippet: spec_snippet(s, m.start, m.end),
            source: "fixed_date"@,
        }
    } else if spec_find_flex(low, pat_tik()) is Some && multi_signal(low) {
        let ab = spec_find_flex(low, pat_tik())->0;
        EnforcementSpec {
            value: "FLERE_DATOER"@,
            snippet: spec_snippet(s, ab.0, ab.1),
            source: "multi"@,
        }
    } else {
        EnforcementSpec { value: "PARSER_IKKE_FUNNET"@, snippet: "none"@, source: "none"@ }
    }
}

/// The classification a caller assigns when document retrieval exhausted
/// its retries and classification never ran.
pub fn parser_fail_result() -> (r: EnforcementParseResult)
    ensures
        r.value@ == "PARSER_FEIL"@,
        r.matched_snippet@ == "none"@,
        r.source@ == "parser_fail"@,
{
    EnforcementParseResult {
        value: "PARSER_FEIL".to_owned(),
        matched_snippet: "none".to_owned(),
        source: "parser_fail".to_owned(),
    }
}

/// The classification of a text in which no rule matched.
pub fn parser_no_match_result() -> (r: EnforcementParseResult)
    ensures
        r.value@ == "PARSER_IKKE_FUNNET"@,
        r.matched_snippet@ == "none"@,
        r.source@ == "none"@,
{
    EnforcementParseResult {
        value: "PARSER_IKKE_FUNNET".to_owned(),
        matched_snippet: "none".to_owned(),
        source: "none".to_owned(),
    }
}

/// A rule's result: its value and source, with the snippet around the match.
fn result_with_match(value: &str, source: &str, text: &[char], start: usize, end: usize) -> (r:
    EnforcementParseResult)
    requires
        start <= end <= text@.len(),
    ensures
        r.value@ == value@,
        r.matched_snippet@ == spec_snippet(text@, start as int, end as int),
        r.source@ == source@,
{
    let sn = snippet_vec(text, start, end);
    EnforcementParseResult {
        value: value.to_owned(),
        matched_snippet: string_of(sn.as_slice()),
        source: source.to_owned(),
    }
}

/// Classify a document's enforcement timing by the fixed priority order of
/// rules; the result's value, snippet and source are exactly those of the
/// cascade, and absence of any match yields the not-found classification.
pub fn extract_enforcement_date(text: &str) -> (r: EnforcementParseResult)
    ensures
        r.value@ == spec_classify(text@).value,
        r.matched_snippet@ == spec_classify(text@).snippet,
        r.source@ == spec_classify(text@).source,
{
    let cs = chars_of(text);
    let low = lower_chars(cs.as_slice());
    let p_straks = chars_of("trer i kraft straks");
    if let Some((a, b)) = find_flex(low.as_slice(), p_straks.as_slice()) {
        return result_with_match("STRAKS", "straks", cs.as_slice(), a, b);
    }
    let p_kongen_full = chars_of("fra den tid kongen bestemmer");
    let p_kongen = chars_of("kongen bestemmer");
    if let Some((a, b)) = find_kongen(
        low.as_slice(),
        p_kongen_full.as_slice(),
        p_kongen.as_slice(),
    ) {
        return result_with_match("KONGEN_BESTEMMER", "kongen", cs.as_slice(), a, b);
    }
    let p_tik = chars_of("trer i kraft");
    if let Some(h) = first_valid_date(low.as_slice(), p_tik.as_slice()) {
        proof {
            lemma_date_clause_at_wf(low@, h.start as int);
        }
        let month_opt = month_number(&low.as_slice()[h.month_start..h.month_end]);
        let month = month_opt.unwrap();
        let day: u32 = if h.day_end - h.day_start == 1 {
            digit_val_char(low[h.day_start])
        } else {
            10 * digit_val_char(low[h.day_start]) + digit_val_char(low[h.day_start + 1])
        };
        let iso = format_iso_date(low.as_slice(), &h, month, day);
        let sn = snippet_vec(cs.as_slice(), h.start, h.end);
        return EnforcementParseResult {
            value: string_of(iso.as_slice()),
            matched_snippet: string_of(sn.as_slice()),
            source: "fixed_date".to_owned(),
        };
    }
    if let Some((a, b)) = find_flex(low.as_slice(), p_tik.as_slice()) {
        let p_ulike = chars_of("ulike tider");
        let p_forskjellige = chars_of("forskjellige tidspunkt");
        let p_til_ulike = chars_of("til ulike tider");
        let multi = find_char(low.as_slice(), '\u{a7}') || contains_flex(
            low.as_slice(),
            p_ulike.as_slice(),
        ) || contains_flex(low.as_slice(), p_forskjellige.as_slice()) || contains_flex(
            low.as_slice(),
            p_til_ulike.as_slice(),
        );
        if multi {
            return result_with_match("FLERE_DATOER", "multi", cs.as_slice(), a, b);
        }
    }
    parser_no_match_result()
}

} // verus!
