use lovsync::citation::extract_law_ids;
use lovsync::content::{extract_between_comments, strip_html_tags};
use lovsync::date::{is_valid_date, map_norwegian_month};
use lovsync::enforcement::{
    clamp_to_char_boundary_end, clamp_to_char_boundary_start, extract_enforcement_date,
    parser_fail_result, truncate_chars,
};
use lovsync::request_id::resolve_request_id_with_generator;
use lovsync::retry::retry_delays;

fn run_retry_simulation<T, E, F>(
    retry_delays_ms: &[u64],
    mut operation: F,
) -> std::result::Result<T, E>
where
    F: FnMut(usize) -> std::result::Result<T, E>,
{
    let mut last_error: Option<E> = None;

    for attempt_idx in 0..retry_delays_ms.len() {
        match operation(attempt_idx) {
            Ok(value) => return Ok(value),
            Err(error) => last_error = Some(error),
        }
    }

    match last_error {
        Some(error) => Err(error),
        None => panic!("Retry simulation requires at least one attempt"),
    }
}

#[test]
fn extract_law_ids_finds_and_deduplicates_ids() {
    let text = "lov 16. juni 2017 nr. 60 og LOV 16. juni 2017 nr 60";
    let mut ids = extract_law_ids(text);
    ids.sort();

    assert_eq!(ids, vec!["LOV-2017-06-16-60".to_string()]);
}

#[test]
fn extract_law_ids_ignores_unknown_month() {
    let text = "lov 12. foo 2024 nr. 1";
    let ids = extract_law_ids(text);
    assert!(ids.is_empty());
}

#[test]
fn is_valid_date_accepts_valid_dates() {
    assert!(is_valid_date(2024, 1, 31)); // January 31
    assert!(is_valid_date(2024, 4, 30)); // April 30
    assert!(is_valid_date(2024, 2, 29)); // Feb 29 in leap year
    assert!(is_valid_date(2000, 2, 29)); // Feb 29 in leap year (divisible by 400)
}

#[test]
fn is_valid_date_rejects_invalid_dates() {
    assert!(!is_valid_date(2024, 2, 30)); // Feb 30 doesn't exist
    assert!(!is_valid_date(2027, 2, 31)); // Feb 31 doesn't exist
    assert!(!is_valid_date(2023, 2, 29)); // Feb 29 in non-leap year
    assert!(!is_valid_date(1900, 2, 29)); // Feb 29 in non-leap year (divisible by 100 but not 400)
    assert!(!is_valid_date(2024, 4, 31)); // April 31 doesn't exist
    assert!(!is_valid_date(2024, 6, 31)); // June 31 doesn't exist
    assert!(!is_valid_date(2024, 9, 31)); // September 31 doesn't exist
    assert!(!is_valid_date(2024, 11, 31)); // November 31 doesn't exist
    assert!(!is_valid_date(2024, 0, 15)); // Month 0 doesn't exist
    assert!(!is_valid_date(2024, 13, 15)); // Month 13 doesn't exist
    assert!(!is_valid_date(2024, 1, 0)); // Day 0 doesn't exist
    assert!(!is_valid_date(2024, 1, 32)); // Day 32 doesn't exist
}

#[test]
fn extract_law_ids_ignores_invalid_dates() {
    let text = "lov 31. februar 2027 nr. 99";
    let ids = extract_law_ids(text);
    assert!(ids.is_empty(), "Should reject invalid date like Feb 31");
}

#[test]
fn extract_enforcement_date_rejects_invalid_dates() {
    let text = "Loven trer i kraft 31. februar 2027";
    let result = extract_enforcement_date(text);
    // Should fall through to no match since the invalid date is rejected
    assert_eq!(result.value, "PARSER_IKKE_FUNNET");
}

#[test]
fn map_norwegian_month_maps_known_and_unknown() {
    assert_eq!(map_norwegian_month("januar"), Some("01".to_string()));
    assert_eq!(map_norwegian_month("desember"), Some("12".to_string()));
    assert_eq!(map_norwegian_month("not-a-month"), None);
}

#[test]
fn extract_between_comments_returns_inner_content() {
    let html = "before <!-- INNHOLD -->hello<!-- /INNHOLD --> after";
    assert_eq!(
        extract_between_comments(html, "<!-- INNHOLD -->", "<!-- /INNHOLD -->").as_deref(),
        Some("hello")
    );
}

#[test]
fn strip_html_tags_normalizes_whitespace() {
    let html = "<div>Hei&nbsp;</div><p> verden</p>\\n\\t";
    let text = strip_html_tags(html);
    assert_eq!(text, "Hei verden");
}

#[test]
fn lib_resolve_request_id_preserves_non_empty_value() {
    let result = resolve_request_id_with_generator(Some("req-abc"), || "generated".to_string());
    assert_eq!(result, "req-abc");
}

#[test]
fn resolve_request_id_generates_when_missing_or_blank() {
    let missing = resolve_request_id_with_generator(None, || "gen-1".to_string());
    let blank = resolve_request_id_with_generator(Some("  "), || "gen-2".to_string());

    assert_eq!(missing, "gen-1");
    assert_eq!(blank, "gen-2");
}

#[test]
fn extract_enforcement_date_from_exact_date_fixture() {
    let text = "Vedtak til lov om endringer. Loven trer i kraft 1. januar 2027 etter vedtaket.";
    let result = extract_enforcement_date(text);

    assert_eq!(result.value, "2027-01-01");
    assert_eq!(result.source, "fixed_date");
    assert_ne!(result.matched_snippet, "none");
}

#[test]
fn extract_enforcement_date_from_straks_fixture() {
    let text = "Vedtak til lov om endringer. Loven trer i kraft straks.";
    let result = extract_enforcement_date(text);

    assert_eq!(result.value, "STRAKS");
    assert_eq!(result.source, "straks");
}

#[test]
fn extract_enforcement_date_from_kongen_fixture() {
    let text = "Vedtak til lov om endringer. Loven gjelder fra den tid Kongen bestemmer.";
    let result = extract_enforcement_date(text);

    assert_eq!(result.value, "KONGEN_BESTEMMER");
    assert_eq!(result.source, "kongen");
}

#[test]
fn extract_enforcement_date_from_multi_fixture() {
    let text = "Vedtak til lov om endringer. Loven trer i kraft til ulike tider.";
    let result = extract_enforcement_date(text);

    assert_eq!(result.value, "FLERE_DATOER");
    assert_eq!(result.source, "multi");
}

#[test]
fn extract_enforcement_date_from_no_match_fixture() {
    let text = "Vedtak til lov om endringer uten noen ikrafttredelsesklausul i det hele tatt.";
    let result = extract_enforcement_date(text);

    assert_eq!(result.value, "PARSER_IKKE_FUNNET");
    assert_eq!(result.source, "none");
    assert_eq!(result.matched_snippet, "none");
}

#[test]
fn enforcement_priority_straks_over_kongen() {
    let text = "Loven trer i kraft straks, fra den tid Kongen bestemmer.";
    let result = extract_enforcement_date(text);

    assert_eq!(result.value, "STRAKS");
}

#[test]
fn enforcement_priority_kongen_over_fixed_date() {
    let text = "Loven gjelder fra den tid Kongen bestemmer og trer i kraft 1. januar 2027.";
    let result = extract_enforcement_date(text);

    assert_eq!(result.value, "KONGEN_BESTEMMER");
}

#[test]
fn enforcement_priority_fixed_date_over_multi_signal() {
    let text = "Loven trer i kraft 1. januar 2027. § 2 trer i kraft til ulike tider.";
    let result = extract_enforcement_date(text);

    assert_eq!(result.value, "2027-01-01");
}

#[test]
fn snippet_around_match_is_bounded() {
    let long_prefix = "A".repeat(240);
    let text = format!("{} trer i kraft straks {}", long_prefix, "B".repeat(240));

    let result = extract_enforcement_date(&text);
    assert_eq!(result.value, "STRAKS");
    assert!(result.matched_snippet.chars().count() <= 203);
}

#[test]
fn retry_exhaustion_attempts_three_times_then_parser_fail() {
    let attempts = std::cell::Cell::new(0);

    let delays = retry_delays();
    let fetch_result: std::result::Result<String, &str> = run_retry_simulation(&delays, |_| {
        attempts.set(attempts.get() + 1);
        Err("simulated extraction failure")
    });

    assert!(fetch_result.is_err());
    assert_eq!(attempts.get(), 3);

    let parser_result = parser_fail_result();
    assert_eq!(parser_result.value, "PARSER_FEIL");
}

#[test]
fn no_match_successful_fetch_does_not_retry() {
    let attempts = std::cell::Cell::new(0);
    let delays = retry_delays();
    let clean_text_result: std::result::Result<String, &str> = run_retry_simulation(&delays, |_| {
        attempts.set(attempts.get() + 1);
        Ok(
            "Dette vedtaket beskriver organisering og prosess uten konkret ikrafttredelsesklausul."
                .to_string(),
        )
    });
    let clean_text = clean_text_result.expect("fetch should succeed on first attempt");

    let parsed = extract_enforcement_date(&clean_text);

    assert_eq!(attempts.get(), 1);
    assert_eq!(parsed.value, "PARSER_IKKE_FUNNET");
}

#[test]
fn extract_between_comments_handles_missing_start_marker() {
    let html = "no start marker hello<!-- /INNHOLD --> after";
    assert_eq!(
        extract_between_comments(html, "<!-- INNHOLD -->", "<!-- /INNHOLD -->"),
        None
    );
}

#[test]
fn extract_between_comments_handles_missing_end_marker() {
    let html = "before <!-- INNHOLD -->hello no end marker";
    assert_eq!(
        extract_between_comments(html, "<!-- INNHOLD -->", "<!-- /INNHOLD -->"),
        None
    );
}

#[test]
fn extract_between_comments_handles_reversed_markers() {
    let html = "before <!-- /INNHOLD -->hello<!-- INNHOLD --> after";
    // Should return None because end comes before start
    assert_eq!(
        extract_between_comments(html, "<!-- INNHOLD -->", "<!-- /INNHOLD -->"),
        None
    );
}

#[test]
fn strip_html_tags_handles_nested_tags() {
    let html = "<div><p><span>nested</span> text</p></div>";
    let text = strip_html_tags(html);
    assert_eq!(text, "nested text");
}

#[test]
fn strip_html_tags_preserves_text_with_no_tags() {
    let html = "plain text without tags";
    let text = strip_html_tags(html);
    assert_eq!(text, "plain text without tags");
}

#[test]
fn strip_html_tags_handles_multiple_nbsp() {
    let html = "one&nbsp;two&nbsp;&nbsp;three";
    let text = strip_html_tags(html);
    assert_eq!(text, "one two three");
}

#[test]
fn extract_law_ids_handles_multiple_different_laws() {
    let text = "lov 16. juni 2017 nr. 60 og lov 21. desember 2005 nr. 123";
    let mut ids = extract_law_ids(text);
    ids.sort();

    assert_eq!(ids.len(), 2);
    assert!(ids.contains(&"LOV-2017-06-16-60".to_string()));
    assert!(ids.contains(&"LOV-2005-12-21-123".to_string()));
}

#[test]
fn extract_law_ids_handles_case_insensitivity() {
    let text = "LOV 16. JUNI 2017 NR. 60";
    let ids = extract_law_ids(text);

    assert_eq!(ids.len(), 1);
    assert!(ids.contains(&"LOV-2017-06-16-60".to_string()));
}

#[test]
fn extract_law_ids_handles_varying_spacing() {
    let text = "lov  16.   juni    2017   nr.   60";
    let ids = extract_law_ids(text);

    assert_eq!(ids.len(), 1);
    assert!(ids.contains(&"LOV-2017-06-16-60".to_string()));
}

#[test]
fn extract_law_ids_handles_single_digit_days() {
    let text = "lov 5. mai 2020 nr. 42";
    let ids = extract_law_ids(text);

    assert_eq!(ids.len(), 1);
    assert!(ids.contains(&"LOV-2020-05-05-42".to_string()));
}

#[test]
fn extract_law_ids_handles_no_matches() {
    let text = "Dette er en tekst uten lovhenvisninger";
    let ids = extract_law_ids(text);
    assert_eq!(ids.len(), 0);
}

#[test]
fn extract_enforcement_date_handles_single_digit_day() {
    let text = "Loven trer i kraft 1. januar 2027";
    let result = extract_enforcement_date(text);

    assert_eq!(result.value, "2027-01-01");
    assert_eq!(result.source, "fixed_date");
}

#[test]
fn extract_enforcement_date_handles_case_insensitivity() {
    let text = "Loven TRER I KRAFT STRAKS";
    let result = extract_enforcement_date(text);

    assert_eq!(result.value, "STRAKS");
}

#[test]
fn extract_enforcement_date_multi_signal_with_section() {
    let text = "Loven trer i kraft. § 5 gjelder fra en annen dato.";
    let result = extract_enforcement_date(text);

    assert_eq!(result.value, "FLERE_DATOER");
    assert_eq!(result.source, "multi");
}

#[test]
fn extract_enforcement_date_multi_signal_with_ulike_tider() {
    let text = "Loven trer i kraft til ulike tider";
    let result = extract_enforcement_date(text);

    assert_eq!(result.value, "FLERE_DATOER");
    assert_eq!(result.source, "multi");
}

#[test]
fn extract_enforcement_date_handles_fra_den_tid_kongen() {
    let text = "Loven trer i kraft fra den tid Kongen bestemmer";
    let result = extract_enforcement_date(text);

    assert_eq!(result.value, "KONGEN_BESTEMMER");
    assert_eq!(result.source, "kongen");
}

#[test]
fn extract_enforcement_date_no_trer_i_kraft() {
    let text = "Dette er en lovtekst uten noen ikrafttredelsesklausul";
    let result = extract_enforcement_date(text);

    assert_eq!(result.value, "PARSER_IKKE_FUNNET");
    assert_eq!(result.source, "none");
}

#[test]
fn snippet_around_match_handles_start_of_text() {
    let text = "trer i kraft straks og videre tekst";
    let result = extract_enforcement_date(text);

    assert_eq!(result.value, "STRAKS");
    assert!(result.matched_snippet.contains("trer i kraft straks"));
}

#[test]
fn snippet_around_match_handles_end_of_text() {
    let text = "lang tekst før slutten trer i kraft straks";
    let result = extract_enforcement_date(text);

    assert_eq!(result.value, "STRAKS");
    assert!(result.matched_snippet.contains("trer i kraft straks"));
}

#[test]
fn retry_succeeds_on_first_attempt() {
    let attempts = std::cell::Cell::new(0);

    let delays = retry_delays();
    let result: std::result::Result<String, &str> = run_retry_simulation(&delays, |_| {
        attempts.set(attempts.get() + 1);
        Ok("success".to_string())
    });

    assert!(result.is_ok());
    assert_eq!(attempts.get(), 1);
}

#[test]
fn retry_succeeds_on_second_attempt() {
    let attempts = std::cell::Cell::new(0);

    let delays = retry_delays();
    let result: std::result::Result<String, &str> = run_retry_simulation(&delays, |attempt_idx| {
        attempts.set(attempts.get() + 1);
        if attempt_idx == 0 {
            Err("first attempt failed")
        } else {
            Ok("success on retry".to_string())
        }
    });

    assert!(result.is_ok());
    assert_eq!(attempts.get(), 2);
}

#[test]
fn retry_succeeds_on_third_attempt() {
    let attempts = std::cell::Cell::new(0);

    let delays = retry_delays();
    let result: std::result::Result<String, &str> = run_retry_simulation(&delays, |attempt_idx| {
        attempts.set(attempts.get() + 1);
        if attempt_idx < 2 {
            Err("early attempts failed")
        } else {
            Ok("success on final retry".to_string())
        }
    });

    assert!(result.is_ok());
    assert_eq!(attempts.get(), 3);
}

#[test]
fn truncate_chars_handles_short_text() {
    let text = "short";
    assert_eq!(truncate_chars(text, 100), "short");
}

#[test]
fn truncate_chars_truncates_long_text() {
    let text = "a".repeat(300);
    let truncated = truncate_chars(&text, 100);
    assert!(truncated.chars().count() <= 103); // 100 chars + "..."
    assert!(truncated.ends_with("..."));
}

#[test]
fn truncate_chars_handles_exact_length() {
    let text = "a".repeat(100);
    let truncated = truncate_chars(&text, 100);
    assert_eq!(truncated.chars().count(), 100);
    assert!(!truncated.ends_with("..."));
}

#[test]
fn clamp_to_char_boundary_start_handles_valid_index() {
    let text = "hello world";
    assert_eq!(clamp_to_char_boundary_start(text, 5), 5);
}

#[test]
fn clamp_to_char_boundary_start_handles_overflow() {
    let text = "hello";
    assert_eq!(clamp_to_char_boundary_start(text, 100), 5);
}

#[test]
fn clamp_to_char_boundary_end_handles_valid_index() {
    let text = "hello world";
    assert_eq!(clamp_to_char_boundary_end(text, 5), 5);
}

#[test]
fn clamp_to_char_boundary_end_handles_overflow() {
    let text = "hello";
    assert_eq!(clamp_to_char_boundary_end(text, 100), 5);
}
