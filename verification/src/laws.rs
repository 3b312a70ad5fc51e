//! Crate-level laws: properties of the extractors and the classifier that
//! hold for every input, each stated and proved here over the same
//! specifications the public functions promise.

use vstd::prelude::*;

use crate::citation::{
    citation_at, citations_from, dedup_first, format_valid, is_valid_citation,
    lemma_dedup_contains, spec_canonical_id, spec_day_val_at, spec_extract_law_ids,
    spec_year_val_at, CitationSpans,
};
use crate::date::{spec_month_number, spec_two_digits, spec_valid_date};
use crate::enforcement::{
    date_clause_at, date_clause_valid, find_kongen_from, first_valid_date_from, kongen_at,
    lemma_date_clause_at_wf, pat_straks, pat_tik, spec_classify, spec_iso_date, spec_snippet,
    spec_truncate,
};
use crate::scan::{has_flex, lemma_find_flex_from_bounds, spec_find_flex};
use crate::text::{
    digit_val, is_digit, is_space, is_word_char, lemma_digit_run_over, lemma_space_run_over,
    lemma_space_run_start_bounds, lemma_word_run_over, lower_seq, spec_digit_char, spec_lower,
    spec_trim, spec_trim_end,
};

verus! {

/// Deduplicated output holds each identifier at most once.
proof fn lemma_dedup_first_distinct(ids: Seq<Seq<char>>)
    ensures
        forall|i: int, j: int|
            0 <= i < j < dedup_first(ids).len() ==> dedup_first(ids)[i] != dedup_first(ids)[j],
    decreases ids.len(),
{
    if ids.len() == 0 {
    } else {
        let front = ids.drop_last();
        let lastv = ids.last();
        lemma_dedup_first_distinct(front);
        lemma_dedup_contains(front, lastv);
        let d = dedup_first(front);
        if !front.contains(lastv) {
            assert forall|i: int| 0 <= i < d.len() implies d[i] != lastv by {
                if d[i] == lastv {
                    assert(d.contains(lastv));
                }
            }
            assert(dedup_first(ids) == d + seq![lastv]);
            assert forall|i: int, j: int|
                0 <= i < j < dedup_first(ids).len() implies dedup_first(ids)[i] != dedup_first(
                ids,
            )[j] by {
                if j < d.len() {
                } else {
                    assert(dedup_first(ids)[j] == lastv);
                    assert(dedup_first(ids)[i] == d[i]);
                }
            }
        } else {
            assert(dedup_first(ids) == d + Seq::<Seq<char>>::empty());
            assert(dedup_first(ids) =~= d);
        }
    }
}

/// Citation extraction collapses duplicates: the extracted identifiers of
/// any text are pairwise distinct, so repeating a citation phrase in one
/// text cannot add a second copy; and extraction is a function of the text,
/// so running it twice yields the same identifiers.
pub proof fn lemma_extraction_deduplicated(text: Seq<char>)
    ensures
        forall|i: int, j: int|
            0 <= i < j < spec_extract_law_ids(text).len() ==> spec_extract_law_ids(text)[i]
                != spec_extract_law_ids(text)[j],
{
    lemma_dedup_first_distinct(
        format_valid(
            lower_seq(text),
            crate::citation::citations_from(lower_seq(text), 0),
        ),
    );
}

/// An identifier names a calendar-valid citation of the text: it is the
/// canonical identifier of some match whose (year, month, day) triple is a
/// real calendar date.
pub open spec fn names_valid_citation(s: Seq<char>, id: Seq<char>) -> bool {
    exists|m: CitationSpans|
        is_valid_citation(s, m) && id == #[trigger] spec_canonical_id(s, m)
}

/// Every formatted identifier names a calendar-valid citation match.
proof fn lemma_format_valid_members(s: Seq<char>, ms: Seq<CitationSpans>)
    ensures
        forall|k: int|
            0 <= k < format_valid(s, ms).len() ==> names_valid_citation(
                s,
                #[trigger] format_valid(s, ms)[k],
            ),
    decreases ms.len(),
{
    if ms.len() == 0 {
        assert(format_valid(s, ms).len() == 0);
    } else {
        lemma_format_valid_members(s, ms.drop_first());
        let rest = format_valid(s, ms.drop_first());
        assert forall|k: int|
            0 <= k < format_valid(s, ms).len() implies names_valid_citation(
            s,
            #[trigger] format_valid(s, ms)[k],
        ) by {
            if is_valid_citation(s, ms[0]) {
                if k == 0 {
                    let m0 = ms[0];
                    assert(format_valid(s, ms)[0] == spec_canonical_id(s, m0));
                    assert(is_valid_citation(s, m0) && format_valid(s, ms)[k]
                        == spec_canonical_id(s, m0));
                } else {
                    assert(format_valid(s, ms)[k] == rest[k - 1]);
                    assert(names_valid_citation(s, rest[k - 1]));
                }
            } else {
                assert(format_valid(s, ms) =~= rest);
                assert(names_valid_citation(s, rest[k]));
            }
        }
    }
}

/// No identifier of an invalid calendar date ever appears in citation
/// output: every extracted identifier names a calendar-valid citation of
/// the text.
pub proof fn lemma_extracted_ids_are_calendar_valid(text: Seq<char>)
    ensures
        forall|k: int|
            0 <= k < spec_extract_law_ids(text).len() ==> names_valid_citation(
                lower_seq(text),
                #[trigger] spec_extract_law_ids(text)[k],
            ),
{
    let low = lower_seq(text);
    let ids = format_valid(low, crate::citation::citations_from(low, 0));
    lemma_format_valid_members(low, crate::citation::citations_from(low, 0));
    assert forall|k: int|
        0 <= k < spec_extract_law_ids(text).len() implies names_valid_citation(
        low,
        #[trigger] spec_extract_law_ids(text)[k],
    ) by {
        let x = spec_extract_law_ids(text)[k];
        assert(dedup_first(ids)[k] == x);
        assert(dedup_first(ids).contains(x));
        lemma_dedup_contains(ids, x);
        let j = choose|j: int| 0 <= j < ids.len() && ids[j] == x;
        assert(names_valid_citation(low, ids[j]));
    }
}

/// Whatever the fixed-date rule returns is a calendar-valid clause: an
/// invalid date such as the thirty-first of February never satisfies it.
pub proof fn lemma_fixed_date_is_calendar_valid(s: Seq<char>, i: int)
    requires
        0 <= i <= s.len(),
        first_valid_date_from(s, i) is Some,
    ensures
        date_clause_valid(s, first_valid_date_from(s, i)->0),
        ({
            let m = first_valid_date_from(s, i)->0;
            0 <= m.start <= m.end <= s.len()
        }),
    decreases s.len() - i,
{
    if i >= s.len() {
    } else {
        match date_clause_at(s, i) {
            Some(m) => {
                lemma_date_clause_at_wf(s, i);
                if date_clause_valid(s, m) {
                } else {
                    lemma_fixed_date_is_calendar_valid(s, m.end);
                }
            },
            None => {
                lemma_fixed_date_is_calendar_valid(s, i + 1);
            },
        }
    }
}

/// Priority: a text holding the immediate-enforcement phrase classifies as
/// immediate, never as deferred to decree, whatever else it holds.
pub proof fn lemma_immediate_beats_decree(s: Seq<char>)
    requires
        has_flex(lower_seq(s), pat_straks()),
    ensures
        spec_classify(s).value == "STRAKS"@,
        spec_classify(s).source == "straks"@,
{
}

/// Priority: with the two higher rules silent, a text holding a
/// calendar-valid fixed date classifies as fixed-date, never as multiple
/// dates, whether or not a several-dates marker is present.
pub proof fn lemma_fixed_date_beats_multi(s: Seq<char>)
    requires
        !has_flex(lower_seq(s), pat_straks()),
        find_kongen_from(lower_seq(s), 0) is None,
        first_valid_date_from(lower_seq(s), 0) is Some,
    ensures
        spec_classify(s).source == "fixed_date"@,
        spec_classify(s).value == spec_iso_date(
            lower_seq(s),
            first_valid_date_from(lower_seq(s), 0)->0,
        ),
{
}

proof fn lemma_trim_end_len(s: Seq<char>)
    ensures
        spec_trim_end(s).len() <= s.len(),
{
    lemma_space_run_start_bounds(s, s.len() as int);
}

proof fn lemma_truncate_len(s: Seq<char>, max: int)
    requires
        max >= 0,
    ensures
        spec_truncate(s, max).len() <= max + 3,
{
    if s.len() <= max {
    } else {
        lemma_trim_end_len(s.subrange(0, max));
    }
}

/// Snippet bounding: around any span of the text the snippet holds at most
/// two hundred characters plus the three-dot ellipsis.  (The snippet is a
/// sequence of whole characters by construction, so no character is ever
/// split.)
pub proof fn lemma_snippet_bounded(s: Seq<char>, start: int, end: int)
    requires
        0 <= start <= end <= s.len(),
    ensures
        spec_snippet(s, start, end).len() <= 203,
{
    reveal_strlit("none");
    let a = if start - 80 >= 0 {
        start - 80
    } else {
        0
    };
    let b = if end + 80 <= s.len() {
        end + 80
    } else {
        s.len() as int
    };
    let t = spec_trim(s.subrange(a, b));
    if t.len() == 0 {
        assert("none"@.len() == 4);
    } else {
        lemma_truncate_len(t, 200);
    }
}

/// Every classification's snippet is bounded: at most two hundred
/// characters plus the ellipsis, or the four-character sentinel.
pub proof fn lemma_enforcement_snippet_bounded(s: Seq<char>)
    ensures
        spec_classify(s).snippet.len() <= 203,
{
    reveal_strlit("none");
    let low = lower_seq(s);
    if spec_find_flex(low, pat_straks()) is Some {
        lemma_find_flex_from_bounds(low, 0, pat_straks());
        let ab = spec_find_flex(low, pat_straks())->0;
        lemma_snippet_bounded(s, ab.0, ab.1);
    } else if find_kongen_from(low, 0) is Some {
        lemma_find_kongen_from_bounds(low, 0);
        let ab = find_kongen_from(low, 0)->0;
        lemma_snippet_bounded(s, ab.0, ab.1);
    } else if first_valid_date_from(low, 0) is Some {
        lemma_fixed_date_is_calendar_valid(low, 0);
        let m = first_valid_date_from(low, 0)->0;
        lemma_snippet_bounded(s, m.start, m.end);
    } else if spec_find_flex(low, pat_tik()) is Some && crate::enforcement::multi_signal(low) {
        lemma_find_flex_from_bounds(low, 0, pat_tik());
        let ab = spec_find_flex(low, pat_tik())->0;
        lemma_snippet_bounded(s, ab.0, ab.1);
    } else {
        assert("none"@.len() == 4);
    }
}

proof fn lemma_find_kongen_from_bounds(s: Seq<char>, i: int)
    requires
        0 <= i <= s.len(),
        find_kongen_from(s, i) is Some,
    ensures
        ({
            let ab = find_kongen_from(s, i)->0;
            i <= ab.0 <= ab.1 <= s.len()
        }),
    decreases s.len() - i,
{
    if i >= s.len() {
    } else if kongen_at(s, i) is Some {
        if crate::scan::flex_at(s, i, crate::enforcement::pat_kongen_full()) is Some {
            crate::scan::lemma_flex_end_bounds(s, i, crate::enforcement::pat_kongen_full(), 0);
        } else {
            crate::scan::lemma_flex_end_bounds(s, i, crate::enforcement::pat_kongen(), 0);
        }
    } else {
        lemma_find_kongen_from_bounds(s, i + 1);
    }
}


/// The day written without padding: one digit below ten, else two.
pub open spec fn digits_of_day(day: u32) -> Seq<char> {
    if day < 10 {
        seq![spec_digit_char(day)]
    } else {
        seq![spec_digit_char(day / 10), spec_digit_char(day % 10)]
    }
}

/// The year written as exactly four digits.
pub open spec fn digits_of_year(year: u32) -> Seq<char> {
    seq![
        spec_digit_char(year / 1000),
        spec_digit_char(year % 1000 / 100),
        spec_digit_char(year % 1000 % 100 / 10),
        spec_digit_char(year % 1000 % 100 % 10),
    ]
}

/// The lower-case Norwegian name of a month.
pub open spec fn month_name_of(month: u32) -> Seq<char> {
    if month == 1 {
        seq!['j', 'a', 'n', 'u', 'a', 'r']
    } else if month == 2 {
        seq!['f', 'e', 'b', 'r', 'u', 'a', 'r']
    } else if month == 3 {
        seq!['m', 'a', 'r', 's']
    } else if month == 4 {
        seq!['a', 'p', 'r', 'i', 'l']
    } else if month == 5 {
        seq!['m', 'a', 'i']
    } else if month == 6 {
        seq!['j', 'u', 'n', 'i']
    } else if month == 7 {
        seq!['j', 'u', 'l', 'i']
    } else if month == 8 {
        seq!['a', 'u', 'g', 'u', 's', 't']
    } else if month == 9 {
        seq!['s', 'e', 'p', 't', 'e', 'm', 'b', 'e', 'r']
    } else if month == 10 {
        seq!['o', 'k', 't', 'o', 'b', 'e', 'r']
    } else if month == 11 {
        seq!['n', 'o', 'v', 'e', 'm', 'b', 'e', 'r']
    } else {
        seq!['d', 'e', 's', 'e', 'm', 'b', 'e', 'r']
    }
}

/// The citation phrase `lov {day}. {month} {year} nr. {number}`.
pub open spec fn citation_phrase(day: u32, month: u32, year: u32, num: Seq<char>) -> Seq<char> {
    seq!['l', 'o', 'v', ' '] + digits_of_day(day) + seq!['.', ' '] + month_name_of(month)
        + seq![' '] + digits_of_year(year) + seq![' ', 'n', 'r', '.', ' '] + num
}

/// The canonical identifier of that citation.
pub open spec fn canonical_of(day: u32, month: u32, year: u32, num: Seq<char>) -> Seq<char> {
    seq!['L', 'O', 'V', '-'] + digits_of_year(year) + seq!['-'] + spec_two_digits(month)
        + seq!['-'] + spec_two_digits(day) + seq!['-'] + num
}

proof fn lemma_digit_char_class(d: u32)
    requires
        d < 10,
    ensures
        is_digit(spec_digit_char(d)),
        digit_val(spec_digit_char(d)) == d,
        spec_lower(spec_digit_char(d)) == spec_digit_char(d),
        !is_space(spec_digit_char(d)),
        !is_word_char(spec_digit_char(d)),
{
}

proof fn lemma_month_name_props(month: u32)
    requires
        1 <= month <= 12,
    ensures
        1 <= month_name_of(month).len(),
        forall|k: int|
            0 <= k < month_name_of(month).len() ==> is_word_char(#[trigger] month_name_of(month)[k]),
        spec_month_number(month_name_of(month)) == Some(month),
{
    reveal_strlit("januar");
    reveal_strlit("februar");
    reveal_strlit("mars");
    reveal_strlit("april");
    reveal_strlit("mai");
    reveal_strlit("juni");
    reveal_strlit("juli");
    reveal_strlit("august");
    reveal_strlit("september");
    reveal_strlit("oktober");
    reveal_strlit("november");
    reveal_strlit("desember");
    if month == 1 {
        assert(month_name_of(month) =~= "januar"@);
    } else if month == 2 {
        assert(month_name_of(month) =~= "februar"@);
    } else if month == 3 {
        assert(month_name_of(month) =~= "mars"@);
    } else if month == 4 {
        assert(month_name_of(month) =~= "april"@);
    } else if month == 5 {
        assert(month_name_of(month) =~= "mai"@);
    } else if month == 6 {
        assert(month_name_of(month) =~= "juni"@);
    } else if month == 7 {
        assert(month_name_of(month) =~= "juli"@);
    } else if month == 8 {
        assert(month_name_of(month) =~= "august"@);
    } else if month == 9 {
        assert(month_name_of(month) =~= "september"@);
    } else if month == 10 {
        assert(month_name_of(month) =~= "oktober"@);
    } else if month == 11 {
        assert(month_name_of(month) =~= "november"@);
    } else {
        assert(month_name_of(month) =~= "desember"@);
    }
}

/// For any real calendar date written with its Norwegian month name and any
/// law number, citation extraction on the phrase
/// `lov {day}. {month} {year} nr. {number}` yields exactly the one
/// canonical identifier `LOV-{year}-{month}-{day}-{number}`.
pub proof fn lemma_citation_phrase_extracts_exactly(day: u32, month: u32, year: u32, num: Seq<char>)
    requires
        1 <= month <= 12,
        spec_valid_date(year, month, day),
        year <= 9999,
        num.len() > 0,
        forall|k: int| 0 <= k < num.len() ==> is_digit(#[trigger] num[k]),
    ensures
        spec_extract_law_ids(citation_phrase(day, month, year, num)) == seq![
            canonical_of(day, month, year, num),
        ],
{
    let p = citation_phrase(day, month, year, num);
    let dn = digits_of_day(day).len() as int;
    let mn = month_name_of(month).len() as int;
    let nn = num.len() as int;
    lemma_month_name_props(month);
    lemma_digit_char_class(day / 10);
    lemma_digit_char_class(day % 10);
    if day < 10 {
        lemma_digit_char_class(day);
    }
    lemma_digit_char_class(year / 1000);
    lemma_digit_char_class(year % 1000 / 100);
    lemma_digit_char_class(year % 1000 % 100 / 10);
    lemma_digit_char_class(year % 1000 % 100 % 10);
    assert(p.len() == 16 + dn + mn + nn);
    // the fixed characters of the phrase
    assert(p[0] == 'l' && p[1] == 'o' && p[2] == 'v' && p[3] == ' ');
    assert(forall|k: int| 4 <= k < 4 + dn ==> p[k] == digits_of_day(day)[k - 4]);
    assert(p[4 + dn] == '.' && p[5 + dn] == ' ');
    assert(forall|k: int|
        6 + dn <= k < 6 + dn + mn ==> p[k] == month_name_of(month)[k - 6 - dn]);
    assert(p[6 + dn + mn] == ' ');
    assert(forall|k: int|
        7 + dn + mn <= k < 11 + dn + mn ==> p[k] == digits_of_year(year)[k - 7 - dn - mn]);
    assert(p[11 + dn + mn] == ' ' && p[12 + dn + mn] == 'n' && p[13 + dn + mn] == 'r' && p[14 + dn
        + mn] == '.' && p[15 + dn + mn] == ' ');
    assert(forall|k: int| 16 + dn + mn <= k < p.len() ==> p[k] == num[k - 16 - dn - mn]);
    // character classes over the phrase
    assert(forall|k: int| 4 <= k < 4 + dn ==> is_digit(p[k]) && !is_space(p[k]));
    assert(forall|k: int|
        6 + dn <= k < 6 + dn + mn ==> is_word_char(p[k]) && !is_space(p[k]) && !is_digit(p[k]));
    assert(forall|k: int|
        7 + dn + mn <= k < 11 + dn + mn ==> is_digit(p[k]) && !is_space(p[k]));
    assert(forall|k: int| 16 + dn + mn <= k < p.len() ==> is_digit(p[k]) && !is_space(p[k]));
    // the phrase is already lower case
    assert(forall|k: int| 0 <= k < p.len() ==> spec_lower(#[trigger] p[k]) == p[k]);
    assert(lower_seq(p) =~= p);
    // the runs the matcher walks
    lemma_space_run_over(p, 3, 4);
    lemma_digit_run_over(p, 4, 4 + dn);
    lemma_space_run_over(p, 5 + dn, 6 + dn);
    lemma_word_run_over(p, 6 + dn, 6 + dn + mn);
    lemma_space_run_over(p, 6 + dn + mn, 7 + dn + mn);
    lemma_digit_run_over(p, 7 + dn + mn, 11 + dn + mn);
    lemma_space_run_over(p, 11 + dn + mn, 12 + dn + mn);
    lemma_space_run_over(p, 15 + dn + mn, 16 + dn + mn);
    lemma_digit_run_over(p, 16 + dn + mn, p.len() as int);
    let m = CitationSpans {
        day_start: 4,
        day_end: 4 + dn,
        month_start: 6 + dn,
        month_end: 6 + dn + mn,
        year_start: 7 + dn + mn,
        num_start: 16 + dn + mn,
        num_end: p.len() as int,
        end: p.len() as int,
    };
    assert(citation_at(p, 0) == Some(m));
    assert(citations_from(p, p.len() as int) =~= Seq::<CitationSpans>::empty());
    assert(citations_from(p, 0) =~= seq![m] + Seq::<CitationSpans>::empty());
    assert(citations_from(p, 0) =~= seq![m]);
    // the match is calendar valid and formats to the canonical identifier
    assert(p.subrange(m.month_start, m.month_end) =~= month_name_of(month));
    assert(spec_day_val_at(p, m.day_start, m.day_end) == day) by {
        if day < 10 {
        } else {
            assert(day == 10 * (day / 10) + day % 10);
        }
    }
    assert(spec_year_val_at(p, m.year_start) == year) by {
        assert(year == 1000 * (year / 1000) + year % 1000);
        assert(year % 1000 == 100 * (year % 1000 / 100) + year % 1000 % 100);
        assert(year % 1000 % 100 == 10 * (year % 1000 % 100 / 10) + year % 1000 % 100 % 10);
    }
    assert(is_valid_citation(p, m));
    assert(spec_canonical_id(p, m) =~= canonical_of(day, month, year, num));
    assert(format_valid(p, Seq::<CitationSpans>::empty()) =~= Seq::<Seq<char>>::empty());
    assert(seq![m].drop_first() =~= Seq::<CitationSpans>::empty());
    assert(seq![m][0] == m);
    assert(spec_canonical_id(p, m) == canonical_of(day, month, year, num));
    assert(format_valid(p, seq![m]) =~= seq![spec_canonical_id(p, m)]
        + Seq::<Seq<char>>::empty());
    assert(format_valid(p, seq![m]) =~= seq![canonical_of(day, month, year, num)]);
    // one identifier deduplicates to itself
    let ids = seq![canonical_of(day, month, year, num)];
    assert(ids.drop_last() =~= Seq::<Seq<char>>::empty());
    assert(dedup_first(Seq::<Seq<char>>::empty()) =~= Seq::<Seq<char>>::empty());
    assert(!ids.drop_last().contains(ids.last()));
    assert(dedup_first(ids) =~= ids);
    assert(spec_extract_law_ids(p) =~= ids);
}

} // verus!
