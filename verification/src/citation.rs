//! Law citation extraction: scanning cleaned prose, case-insensitively, for
//! the word `lov` followed by a day, a period, a Norwegian month name, a
//! four-digit year, the abbreviation `nr` (with optional period) and a law
//! number, all separated by flexible white space.  Each match is validated
//! against the Gregorian calendar and normalized to the canonical form
//! `LOV-YYYY-MM-DD-NN`; the results are deduplicated, keeping first
//! occurrences.

use vstd::prelude::*;

use crate::date::{
    is_valid_date, month_number, spec_month_number, spec_two_digits, spec_valid_date, two_digits,
};
use crate::text::{
    digit_run_end, digit_val, digit_val_char, is_digit, is_space, is_space_char,
    is_word_char, lemma_digit_run_end_bounds, lemma_digit_run_end_chars,
    lemma_space_run_end_bounds, lemma_word_run_end_bounds, lower_chars, lower_seq, chars_of,
    extend_from_range, skip_digits, skip_spaces, skip_word_chars, space_run_end, string_of,
    word_run_end,
};

verus! {

/// The capture positions of one citation match, over the lower-cased text:
/// day digits, month-name letters, year digits, law-number digits, and the
/// end of the whole match.
pub struct CitationSpans {
    pub day_start: int,
    pub day_end: int,
    pub month_start: int,
    pub month_end: int,
    pub year_start: int,
    pub num_start: int,
    pub num_end: int,
    pub end: int,
}

/// A citation match anchored at position `i` of the lower-cased text `s`:
/// `lov`, one or more spaces, one or two day digits followed directly by a
/// period, optional spaces, a non-empty run of month-name letters, one or
/// more spaces, exactly four year digits followed by a space, `nr` with an
/// optional period, one or more spaces, and a non-empty run of number
/// digits.  Digit runs are maximal: a three-digit day or a five-digit year
/// does not match.
pub open spec fn citation_at(s: Seq<char>, i: int) -> Option<CitationSpans> {
    if !(0 <= i && i + 3 <= s.len() && s[i] == 'l' && s[i + 1] == 'o' && s[i + 2] == 'v') {
        None
    } else if !(i + 3 < s.len() && is_space(s[i + 3])) {
        None
    } else {
        let d0 = space_run_end(s, i + 3);
        let d_end = digit_run_end(s, d0);
        if !((d_end - d0 == 1 || d_end - d0 == 2) && d_end < s.len() && s[d_end] == '.') {
            None
        } else {
            let m0 = space_run_end(s, d_end + 1);
            let m_end = word_run_end(s, m0);
            if !(m_end > m0 && m_end < s.len() && is_space(s[m_end])) {
                None
            } else {
                let y0 = space_run_end(s, m_end);
                if !(digit_run_end(s, y0) >= y0 + 4 && y0 + 4 < s.len() && is_space(s[y0 + 4])) {
                    None
                } else {
                    let z0 = space_run_end(s, y0 + 4);
                    if !(z0 + 2 <= s.len() && s[z0] == 'n' && s[z0 + 1] == 'r') {
                        None
                    } else {
                        let q = if z0 + 2 < s.len() && s[z0 + 2] == '.' {
                            z0 + 3
                        } else {
                            z0 + 2
                        };
                        if !(q < s.len() && is_space(s[q])) {
                            None
                        } else {
                            let n0 = space_run_end(s, q);
                            let n_end = digit_run_end(s, n0);
                            if !(n_end > n0) {
                                None
                            } else {
                                Some(
                                    CitationSpans {
                                        day_start: d0,
                                        day_end: d_end,
                                        month_start: m0,
                                        month_end: m_end,
                                        year_start: y0,
                                        num_start: n0,
                                        num_end: n_end,
                                        end: n_end,
                                    },
                                )
                            }
                        }
                    }
                }
            }
        }
    }
}

/// Every span of a match lies in order inside the text, and the match ends
/// strictly after its start.
pub proof fn lemma_citation_at_bounds(s: Seq<char>, i: int)
    requires
        citation_at(s, i) is Some,
    ensures
        ({
            let m = citation_at(s, i)->0;
            &&& i < m.end <= s.len()
            &&& i + 3 <= m.day_start
            &&& m.day_start < m.day_end <= m.day_start + 2
            &&& m.day_end + 1 <= m.month_start < m.month_end < s.len()
            &&& m.month_end <= m.year_start
            &&& m.year_start + 4 < s.len()
            &&& m.year_start + 4 < m.num_start < m.num_end == m.end
        }),
{
    let m = citation_at(s, i)->0;
    lemma_space_run_end_bounds(s, i + 3);
    let d0 = space_run_end(s, i + 3);
    lemma_digit_run_end_bounds(s, d0);
    let d_end = digit_run_end(s, d0);
    lemma_space_run_end_bounds(s, d_end + 1);
    let m0 = space_run_end(s, d_end + 1);
    lemma_word_run_end_bounds(s, m0);
    let m_end = word_run_end(s, m0);
    lemma_space_run_end_bounds(s, m_end);
    let y0 = space_run_end(s, m_end);
    lemma_digit_run_end_bounds(s, y0);
    crate::text::lemma_space_run_end_chars(s, m_end);
    lemma_space_run_end_bounds(s, y0 + 4);
    let z0 = space_run_end(s, y0 + 4);
    crate::text::lemma_space_run_end_chars(s, y0 + 4);
    let q = if z0 + 2 < s.len() && s[z0 + 2] == '.' {
        z0 + 3
    } else {
        z0 + 2
    };
    lemma_space_run_end_bounds(s, q);
    let n0 = space_run_end(s, q);
    lemma_digit_run_end_bounds(s, n0);
    crate::text::lemma_space_run_end_chars(s, q);
}

/// The matched day digits are digits, the year is four digits, the number
/// digits are digits, and the month letters are word characters.
pub proof fn lemma_citation_at_chars(s: Seq<char>, i: int)
    requires
        citation_at(s, i) is Some,
    ensures
        ({
            let m = citation_at(s, i)->0;
            &&& forall|k: int| m.day_start <= k < m.day_end ==> is_digit(s[k])
            &&& forall|k: int| m.year_start <= k < m.year_start + 4 ==> is_digit(s[k])
            &&& forall|k: int| m.num_start <= k < m.num_end ==> is_digit(s[k])
            &&& forall|k: int| m.month_start <= k < m.month_end ==> is_word_char(s[k])
        }),
{
    let m = citation_at(s, i)->0;
    lemma_citation_at_bounds(s, i);
    lemma_digit_run_end_chars(s, m.day_start);
    lemma_digit_run_end_chars(s, m.year_start);
    lemma_digit_run_end_chars(s, m.num_start);
    crate::text::lemma_word_run_end_chars(s, m.month_start);
}

/// All citation matches of the text, leftmost first and non-overlapping:
/// scanning resumes right after each match.
pub open spec fn citations_from(s: Seq<char>, i: int) -> Seq<CitationSpans>
    decreases s.len() - i,
    when 0 <= i <= s.len()
{
    if i >= s.len() {
        Seq::empty()
    } else {
        match citation_at(s, i) {
            Some(m) => {
                proof {
                    lemma_citation_at_bounds(s, i);
                }
                seq![m] + citations_from(s, m.end)
            },
            None => citations_from(s, i + 1),
        }
    }
}

/// Numeric value of one or two day digits captured at `[a, b)`.
pub open spec fn spec_day_val_at(s: Seq<char>, a: int, b: int) -> int {
    if b - a == 1 {
        digit_val(s[a]) as int
    } else {
        10 * digit_val(s[a]) + digit_val(s[a + 1])
    }
}

/// Numeric value of four year digits captured at `a`.
pub open spec fn spec_year_val_at(s: Seq<char>, a: int) -> int {
    1000 * digit_val(s[a]) + 100 * digit_val(s[a + 1]) + 10 * digit_val(s[a + 2]) + digit_val(
        s[a + 3],
    )
}

/// Numeric value of the captured day.
pub open spec fn spec_day_val(s: Seq<char>, m: CitationSpans) -> int {
    spec_day_val_at(s, m.day_start, m.day_end)
}

/// Numeric value of the captured four-digit year.
pub open spec fn spec_year_val(s: Seq<char>, m: CitationSpans) -> int {
    spec_year_val_at(s, m.year_start)
}

/// The captured month name.
pub open spec fn span_month(s: Seq<char>, m: CitationSpans) -> Seq<char> {
    s.subrange(m.month_start, m.month_end)
}

/// A match survives filtering when its month name is in the table and the
/// resulting (year, month, day) triple is a real calendar date.
pub open spec fn is_valid_citation(s: Seq<char>, m: CitationSpans) -> bool {
    &&& spec_month_number(span_month(s, m)) is Some
    &&& spec_valid_date(
        spec_year_val(s, m) as u32,
        spec_month_number(span_month(s, m))->0,
        spec_day_val(s, m) as u32,
    )
}

/// The canonical identifier of a match: `LOV-` then the year digits
/// verbatim, the zero-padded month and day, and the law number verbatim.
pub open spec fn spec_canonical_id(s: Seq<char>, m: CitationSpans) -> Seq<char> {
    seq!['L', 'O', 'V', '-'] + s.subrange(m.year_start, m.year_start + 4) + seq!['-']
        + spec_two_digits(spec_month_number(span_month(s, m))->0) + seq!['-'] + spec_two_digits(
        spec_day_val(s, m) as u32,
    ) + seq!['-'] + s.subrange(m.num_start, m.num_end)
}

/// Canonical identifiers of the calendar-valid matches, in match order;
/// invalid matches are discarded silently.
pub open spec fn format_valid(s: Seq<char>, ms: Seq<CitationSpans>) -> Seq<Seq<char>>
    decreases ms.len(),
{
    if ms.len() == 0 {
        Seq::empty()
    } else {
        (if is_valid_citation(s, ms[0]) {
            seq![spec_canonical_id(s, ms[0])]
        } else {
            Seq::empty()
        }) + format_valid(s, ms.drop_first())
    }
}

/// First-occurrence deduplication.
pub open spec fn dedup_first(ids: Seq<Seq<char>>) -> Seq<Seq<char>>
    decreases ids.len(),
{
    if ids.len() == 0 {
        Seq::empty()
    } else {
        dedup_first(ids.drop_last()) + (if ids.drop_last().contains(ids.last()) {
            Seq::<Seq<char>>::empty()
        } else {
            seq![ids.last()]
        })
    }
}

/// The set of canonical law identifiers cited by a text: scan the
/// lower-cased text, validate and normalize each match, deduplicate.
pub open spec fn spec_extract_law_ids(text: Seq<char>) -> Seq<Seq<char>> {
    dedup_first(format_valid(lower_seq(text), citations_from(lower_seq(text), 0)))
}

/// One citation match of the scanner, as positions into the text.
#[derive(Clone, Copy)]
pub struct CitationHit {
    pub day_start: usize,
    pub day_end: usize,
    pub month_start: usize,
    pub month_end: usize,
    pub year_start: usize,
    pub num_start: usize,
    pub num_end: usize,
    pub end: usize,
}

impl View for CitationHit {
    type V = CitationSpans;

    open spec fn view(&self) -> CitationSpans {
        CitationSpans {
            day_start: self.day_start as int,
            day_end: self.day_end as int,
            month_start: self.month_start as int,
            month_end: self.month_end as int,
            year_start: self.year_start as int,
            num_start: self.num_start as int,
            num_end: self.num_end as int,
            end: self.end as int,
        }
    }
}

/// Anchored matcher for the citation pattern.
fn citation_match_at(s: &[char], i: usize) -> (r: Option<CitationHit>)
    requires
        i <= s@.len(),
    ensures
        match r {
            Some(h) => citation_at(s@, i as int) == Some(h@) && i < h.end && h.end <= s@.len(),
            None => citation_at(s@, i as int) is None,
        },
{
    let n = s.len();
    if !(n - i >= 3 && s[i] == 'l' && s[i + 1] == 'o' && s[i + 2] == 'v') {
        return None;
    }
    if !(n - i > 3 && is_space_char(s[i + 3])) {
        return None;
    }
    let d0 = skip_spaces(s, i + 3);
    let d_end = skip_digits(s, d0);
    if !((d_end - d0 == 1 || d_end - d0 == 2) && d_end < n && s[d_end] == '.') {
        return None;
    }
    let m0 = skip_spaces(s, d_end + 1);
    let m_end = skip_word_chars(s, m0);
    if !(m_end > m0 && m_end < n && is_space_char(s[m_end])) {
        return None;
    }
    let y0 = skip_spaces(s, m_end);
    let yr_end = skip_digits(s, y0);
    if !(yr_end - y0 >= 4 && n - y0 > 4 && is_space_char(s[y0 + 4])) {
        return None;
    }
    let z0 = skip_spaces(s, y0 + 4);
    if !(n - z0 >= 2 && s[z0] == 'n' && s[z0 + 1] == 'r') {
        return None;
    }
    let q = if n - z0 > 2 && s[z0 + 2] == '.' {
        z0 + 3
    } else {
        z0 + 2
    };
    if !(q < n && is_space_char(s[q])) {
        return None;
    }
    let n0 = skip_spaces(s, q);
    let n_end = skip_digits(s, n0);
    if !(n_end > n0) {
        return None;
    }
    let h = CitationHit {
        day_start: d0,
        day_end: d_end,
        month_start: m0,
        month_end: m_end,
        year_start: y0,
        num_start: n0,
        num_end: n_end,
        end: n_end,
    };
    proof {
        assert(citation_at(s@, i as int) == Some(h@));
    }
    Some(h)
}

/// All citation matches of the text, leftmost first.
fn scan_citations(s: &[char]) -> (r: Vec<CitationHit>)
    ensures
        r@.map_values(|h: CitationHit| h@) == citations_from(s@, 0),
{
    let mut r: Vec<CitationHit> = Vec::new();
    let mut i: usize = 0;
    while i < s.len()
        invariant
            i <= s@.len(),
            citations_from(s@, 0) == r@.map_values(|h: CitationHit| h@) + citations_from(
                s@,
                i as int,
            ),
        decreases s@.len() - i,
    {
        match citation_match_at(s, i) {
            Some(h) => {
                proof {
                    assert(r@.push(h).map_values(|x: CitationHit| x@) =~= r@.map_values(
                        |x: CitationHit| x@,
                    ).push(h@));
                    assert(r@.map_values(|x: CitationHit| x@) + (seq![h@] + citations_from(
                        s@,
                        h.end as int,
                    )) =~= r@.map_values(|x: CitationHit| x@).push(h@) + citations_from(
                        s@,
                        h.end as int,
                    ));
                }
                let next = h.end;
                r.push(h);
                i = next;
            },
            None => {
                i = i + 1;
            },
        }
    }
    proof {
        assert(r@.map_values(|h: CitationHit| h@) + citations_from(s@, i as int) =~= r@.map_values(
            |h: CitationHit| h@,
        ));
    }
    r
}

/// Whether an identifier already occurs among the collected ones.
fn contains_id(acc: &Vec<String>, id: &[char]) -> (r: bool)
    ensures
        r == acc.deep_view().contains(id@),
{
    let mut j: usize = 0;
    while j < acc.len()
        invariant
            j <= acc@.len(),
            forall|k: int| 0 <= k < j ==> acc.deep_view()[k] != id@,
        decreases acc@.len() - j,
    {
        if crate::text::chars_eq_str(id, acc[j].as_str()) {
            proof {
                assert(acc.deep_view()[j as int] == id@);
            }
            return true;
        }
        j = j + 1;
    }
    proof {
        assert(forall|k: int| 0 <= k < acc.deep_view().len() ==> acc.deep_view()[k] != id@);
    }
    false
}

/// The canonical identifier of one calendar-valid match.
fn format_citation(low: &[char], h: &CitationHit, month: u32, day: u32) -> (r: Vec<char>)
    requires
        h.year_start + 4 <= low@.len(),
        h.num_start <= h.num_end <= low@.len(),
        month == spec_month_number(span_month(low@, h@))->0,
        month < 100,
        day == spec_day_val(low@, h@) as u32,
        day < 100,
    ensures
        r@ == spec_canonical_id(low@, h@),
{
    let n = low.len();
    proof {
        assert(h.year_start + 4 <= n);
    }
    let mut id: Vec<char> = Vec::new();
    id.push('L');
    id.push('O');
    id.push('V');
    id.push('-');
    proof {
        assert(id@ =~= seq!['L', 'O', 'V', '-']);
    }
    extend_from_range(&mut id, low, h.year_start, h.year_start + 4);
    id.push('-');
    let md = two_digits(month);
    extend_from_range(&mut id, md.as_slice(), 0, md.len());
    proof {
        assert(md@.subrange(0, md@.len() as int) =~= md@);
    }
    id.push('-');
    let dd = two_digits(day);
    extend_from_range(&mut id, dd.as_slice(), 0, dd.len());
    proof {
        assert(dd@.subrange(0, dd@.len() as int) =~= dd@);
    }
    id.push('-');
    extend_from_range(&mut id, low, h.num_start, h.num_end);
    proof {
        assert(id@ =~= spec_canonical_id(low@, h@));
    }
    id
}

/// Well-formedness of one match's spans against its text: ordered, in
/// bounds, with digits and month letters where the pattern demands them.
pub open spec fn wf_citation(s: Seq<char>, m: CitationSpans) -> bool {
    &&& 0 <= m.day_start < m.day_end <= m.day_start + 2
    &&& m.day_end <= s.len()
    &&& 0 <= m.month_start < m.month_end <= s.len()
    &&& 0 <= m.year_start && m.year_start + 4 <= s.len()
    &&& 0 <= m.num_start < m.num_end <= s.len()
    &&& m.num_end == m.end
    &&& m.end <= s.len()
    &&& (forall|k: int| m.day_start <= k < m.day_end ==> is_digit(s[k]))
    &&& (forall|k: int| m.year_start <= k < m.year_start + 4 ==> is_digit(s[k]))
    &&& (forall|k: int| m.num_start <= k < m.num_end ==> is_digit(s[k]))
    &&& (forall|k: int| m.month_start <= k < m.month_end ==> is_word_char(s[k]))
}

pub proof fn lemma_citation_at_wf(s: Seq<char>, i: int)
    requires
        citation_at(s, i) is Some,
    ensures
        wf_citation(s, citation_at(s, i)->0),
{
    lemma_citation_at_bounds(s, i);
    lemma_citation_at_chars(s, i);
}

/// Every match the scanner yields is well formed.
pub proof fn lemma_citations_from_wf(s: Seq<char>, i: int)
    requires
        0 <= i <= s.len(),
    ensures
        forall|k: int|
            0 <= k < citations_from(s, i).len() ==> wf_citation(s, citations_from(s, i)[k]),
    decreases s.len() - i,
{
    if i >= s.len() {
    } else {
        match citation_at(s, i) {
            Some(m) => {
                lemma_citation_at_bounds(s, i);
                lemma_citation_at_wf(s, i);
                lemma_citations_from_wf(s, m.end);
                assert(citations_from(s, i) == seq![m] + citations_from(s, m.end));
                assert forall|k: int| 0 <= k < citations_from(s, i).len() implies wf_citation(
                    s,
                    citations_from(s, i)[k],
                ) by {
                    if k == 0 {
                        assert(citations_from(s, i)[0] == m);
                    } else {
                        assert(citations_from(s, i)[k] == citations_from(s, m.end)[k - 1]);
                    }
                }
            },
            None => {
                lemma_citations_from_wf(s, i + 1);
                assert(citations_from(s, i) == citations_from(s, i + 1));
            },
        }
    }
}

/// Appending a match to the scanned list appends its identifier (or
/// nothing) to the formatted list.
pub proof fn lemma_format_valid_push(s: Seq<char>, ms: Seq<CitationSpans>, m: CitationSpans)
    ensures
        format_valid(s, ms.push(m)) == format_valid(s, ms) + (if is_valid_citation(s, m) {
            seq![spec_canonical_id(s, m)]
        } else {
            Seq::<Seq<char>>::empty()
        }),
    decreases ms.len(),
{
    let tail_part = if is_valid_citation(s, m) {
        seq![spec_canonical_id(s, m)]
    } else {
        Seq::<Seq<char>>::empty()
    };
    if ms.len() == 0 {
        assert(ms.push(m).drop_first() =~= Seq::<CitationSpans>::empty());
        assert(ms.push(m)[0] == m);
        assert(format_valid(s, Seq::<CitationSpans>::empty()) =~= Seq::<Seq<char>>::empty());
        assert(format_valid(s, ms) =~= Seq::<Seq<char>>::empty());
        assert(format_valid(s, ms.push(m)) =~= tail_part + Seq::<Seq<char>>::empty());
        assert(tail_part + Seq::<Seq<char>>::empty() =~= Seq::<Seq<char>>::empty() + tail_part);
    } else {
        assert(ms.push(m).drop_first() =~= ms.drop_first().push(m));
        lemma_format_valid_push(s, ms.drop_first(), m);
        let head = if is_valid_citation(s, ms[0]) {
            seq![spec_canonical_id(s, ms[0])]
        } else {
            Seq::<Seq<char>>::empty()
        };
        assert(ms.push(m)[0] == ms[0]);
        assert(format_valid(s, ms.push(m)) == head + (format_valid(s, ms.drop_first())
            + tail_part));
        assert(head + (format_valid(s, ms.drop_first()) + tail_part) =~= (head + format_valid(
            s,
            ms.drop_first(),
        )) + tail_part);
    }
}

/// Deduplication keeps exactly the identifiers that occur in the input.
pub proof fn lemma_dedup_contains(ids: Seq<Seq<char>>, x: Seq<char>)
    ensures
        dedup_first(ids).contains(x) <==> ids.contains(x),
    decreases ids.len(),
{
    if ids.len() == 0 {
        assert(!dedup_first(ids).contains(x));
        assert(!ids.contains(x));
    } else {
        let front = ids.drop_last();
        let lastv = ids.last();
        lemma_dedup_contains(front, x);
        let tail_part = if front.contains(lastv) {
            Seq::<Seq<char>>::empty()
        } else {
            seq![lastv]
        };
        assert(dedup_first(ids) == dedup_first(front) + tail_part);
        if ids.contains(x) {
            let k = choose|k: int| 0 <= k < ids.len() && ids[k] == x;
            if k < ids.len() - 1 {
                assert(front[k] == x);
                assert(front.contains(x));
            } else {
                assert(x == lastv);
            }
            if front.contains(x) {
                let j = choose|j: int|
                    0 <= j < dedup_first(front).len() && dedup_first(front)[j] == x;
                assert(dedup_first(ids)[j] == x);
            } else {
                assert(x == lastv);
                assert(dedup_first(ids)[dedup_first(front).len() as int] == x);
            }
            assert(dedup_first(ids).contains(x));
        }
        if dedup_first(ids).contains(x) {
            let k = choose|k: int| 0 <= k < dedup_first(ids).len() && dedup_first(ids)[k] == x;
            if k < dedup_first(front).len() {
                assert(dedup_first(front)[k] == x);
                assert(dedup_first(front).contains(x));
                let j = choose|j: int| 0 <= j < front.len() && front[j] == x;
                assert(ids[j] == x);
            } else {
                assert(x == lastv);
                assert(ids[ids.len() - 1] == x);
            }
            assert(ids.contains(x));
        }
    }
}

/// Canonical identifiers of the enacted-law citations in a text: scanned
/// case-insensitively, validated against the calendar, normalized to
/// `LOV-YYYY-MM-DD-NN`, and deduplicated keeping first occurrences.  A text
/// with no citation yields an empty vector.
pub fn extract_law_ids(text: &str) -> (r: Vec<String>)
    ensures
        r.deep_view() == spec_extract_law_ids(text@),
{
    let cs = chars_of(text);
    let low = lower_chars(cs.as_slice());
    let hits = scan_citations(low.as_slice());
    let ghost low_s = low@;
    let ghost all = citations_from(low_s, 0);
    proof {
        lemma_citations_from_wf(low_s, 0);
    }
    let mut out: Vec<String> = Vec::new();
    let mut k: usize = 0;
    while k < hits.len()
        invariant
            k <= hits@.len(),
            low@ == low_s,
            hits@.map_values(|h: CitationHit| h@) == all,
            forall|j: int| 0 <= j < all.len() ==> wf_citation(low_s, all[j]),
            out.deep_view() == dedup_first(format_valid(low_s, all.subrange(0, k as int))),
        decreases hits@.len() - k,
    {
        let ghost prev_ids = format_valid(low_s, all.subrange(0, k as int));
        let h = hits[k].clone();
        proof {
            assert(all[k as int] == hits@[k as int]@);
            assert(wf_citation(low_s, h@));
            assert(all.subrange(0, (k + 1) as int) =~= all.subrange(0, k as int).push(
                all[k as int],
            ));
            lemma_format_valid_push(low_s, all.subrange(0, k as int), all[k as int]);
        }
        let month_opt = month_number(&low.as_slice()[h.month_start..h.month_end]);
        let day: u32 = if h.day_end - h.day_start == 1 {
            digit_val_char(low[h.day_start])
        } else {
            10 * digit_val_char(low[h.day_start]) + digit_val_char(low[h.day_start + 1])
        };
        let year: u32 = 1000 * digit_val_char(low[h.year_start]) + 100 * digit_val_char(
            low[h.year_start + 1],
        ) + 10 * digit_val_char(low[h.year_start + 2]) + digit_val_char(low[h.year_start + 3]);
        proof {
            assert(low@.subrange(h.month_start as int, h.month_end as int) == span_month(
                low_s,
                h@,
            ));
            assert(day == spec_day_val(low_s, h@) as u32);
            assert(year == spec_year_val(low_s, h@) as u32);
        }
        let valid = match month_opt {
            Some(m) => is_valid_date(year, m, day),
            None => false,
        };
        proof {
            assert(valid == is_valid_citation(low_s, h@));
        }
        if valid {
            let month = month_opt.unwrap();
            let id = format_citation(low.as_slice(), &h, month, day);
            if !contains_id(&out, id.as_slice()) {
                proof {
                    lemma_dedup_contains(prev_ids, id@);
                }
                let sid = string_of(id.as_slice());
                proof {
                    assert((out@.push(sid)).map_values(|t: String| t@) =~= out@.map_values(
                        |t: String| t@,
                    ).push(sid@));
                    assert(prev_ids.push(id@).drop_last() =~= prev_ids);
                    assert(dedup_first(prev_ids.push(id@)) =~= dedup_first(prev_ids).push(id@));
                    assert(prev_ids + seq![id@] =~= prev_ids.push(id@));
                }
                out.push(sid);
            } else {
                proof {
                    lemma_dedup_contains(prev_ids, id@);
                    assert(prev_ids.push(id@).drop_last() =~= prev_ids);
                    assert(prev_ids + seq![id@] =~= prev_ids.push(id@));
                    assert(dedup_first(prev_ids.push(id@)) =~= dedup_first(prev_ids));
                }
            }
        } else {
            proof {
                assert(prev_ids + Seq::<Seq<char>>::empty() =~= prev_ids);
            }
        }
        k = k + 1;
    }
    proof {
        assert(all.subrange(0, all.len() as int) =~= all);
    }
    out
}

} // verus!
