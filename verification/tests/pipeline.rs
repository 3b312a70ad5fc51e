use lovsync::citation::extract_law_ids;
use lovsync::content::{clean_document, ContentError};
use lovsync::enforcement::{extract_enforcement_date, parser_no_match_result, snippet_around_match};
use lovsync::feed::{parse_rss_items, FeedItem};
use lovsync::retry::{attempt_allowed, delay_before_attempt, retry_delays};
use lovsync::sync::{
    checkpoint_after, fetch_status_ok, forward_status_ok, new_items, webhook_disposition,
    WebhookDisposition,
};

fn item(title: &str, link: Option<&str>) -> FeedItem {
    FeedItem {
        stortinget_id: title.to_string(),
        title: title.to_string(),
        stortinget_link: link.map(|l| l.to_string()),
        feed_description: None,
        decision_date: None,
    }
}

#[test]
fn checkpoint_splits_feed_at_checkpoint_link() {
    let feed = vec![
        item("A", Some("https://example.com/a")),
        item("B", Some("https://example.com/b")),
        item("C", Some("https://example.com/c")),
        item("D", Some("https://example.com/d")),
    ];
    let checkpoint = "https://example.com/c".to_string();

    let fresh = new_items(&feed, Some(&checkpoint));

    assert_eq!(fresh.len(), 2);
    assert_eq!(fresh[0].title, "A");
    assert_eq!(fresh[1].title, "B");
}

#[test]
fn checkpoint_absent_from_feed_takes_everything() {
    let feed = vec![
        item("A", Some("https://example.com/a")),
        item("B", Some("https://example.com/b")),
    ];
    let rotated_out = "https://example.com/old".to_string();

    let fresh = new_items(&feed, Some(&rotated_out));

    assert_eq!(fresh.len(), 2);
}

#[test]
fn missing_checkpoint_takes_everything() {
    let feed = vec![
        item("A", Some("https://example.com/a")),
        item("B", None),
    ];

    let fresh = new_items(&feed, None);

    assert_eq!(fresh.len(), 2);
    assert_eq!(fresh[1].stortinget_link, None);
}

#[test]
fn checkpoint_advances_to_newest_link_on_success() {
    let batch = vec![
        item("A", Some("https://example.com/a")),
        item("B", Some("https://example.com/b")),
    ];
    let old = "https://example.com/c".to_string();

    let after = checkpoint_after(&batch, true, Some(&old));

    assert_eq!(after.as_deref(), Some("https://example.com/a"));
}

#[test]
fn forwarder_failure_blocks_checkpoint_advancement() {
    let batch = vec![
        item("A", Some("https://example.com/a")),
        item("B", Some("https://example.com/b")),
    ];
    let old = "https://example.com/c".to_string();

    // A downstream 500 is a failure: the checkpoint must stay put.
    let ok = forward_status_ok(500);
    assert!(!ok);

    let after = checkpoint_after(&batch, ok, Some(&old));
    assert_eq!(after.as_deref(), Some("https://example.com/c"));
}

#[test]
fn forwarder_other_2xx_is_failure() {
    assert!(forward_status_ok(200));
    assert!(!forward_status_ok(201));
    assert!(!forward_status_ok(204));
    assert!(!forward_status_ok(302));
    assert!(!forward_status_ok(500));
}

#[test]
fn fetch_status_accepts_all_2xx() {
    assert!(fetch_status_ok(200));
    assert!(fetch_status_ok(204));
    assert!(!fetch_status_ok(199));
    assert!(!fetch_status_ok(302));
    assert!(!fetch_status_ok(404));
    assert!(!fetch_status_ok(500));
}

#[test]
fn empty_batch_keeps_checkpoint() {
    let batch: Vec<FeedItem> = Vec::new();
    let old = "https://example.com/c".to_string();

    let after = checkpoint_after(&batch, true, Some(&old));
    assert_eq!(after.as_deref(), Some("https://example.com/c"));
}

#[test]
fn content_extraction_distinguishes_three_outcomes() {
    let good = "x<!-- INNHOLD --><p>Lovtekst</p><!-- /INNHOLD -->y";
    assert_eq!(clean_document(good), Ok("Lovtekst".to_string()));

    let no_markers = "no markers at all";
    assert_eq!(clean_document(no_markers), Err(ContentError::MarkersNotFound));

    let empty_region = "x<!-- INNHOLD -->  <div> </div> <!-- /INNHOLD -->y";
    assert_eq!(clean_document(empty_region), Err(ContentError::ContentEmpty));
}

#[test]
fn reversed_markers_count_as_not_found() {
    let reversed = "x<!-- /INNHOLD -->middle<!-- INNHOLD -->y";
    assert_eq!(clean_document(reversed), Err(ContentError::MarkersNotFound));
}

#[test]
fn extraction_is_idempotent_across_runs() {
    let text = "lov 16. juni 2017 nr. 60 og lov 16.  juni 2017 nr 60 og lov 5. mai 2020 nr. 42";
    let first = extract_law_ids(text);
    let second = extract_law_ids(text);

    assert_eq!(first, second);
    assert_eq!(first.len(), 2);
}

#[test]
fn parse_error_on_unterminated_tag() {
    let xml = "<rss><item><title>Broken</titl";
    assert!(parse_rss_items(xml).is_err());
}

#[test]
fn parse_error_on_unknown_entity() {
    let xml = "<rss><item><title>bad &unknown; entity</title></item></rss>";
    assert!(parse_rss_items(xml).is_err());
}

#[test]
fn feed_without_items_yields_empty_sequence() {
    let xml = "<rss><channel><title>tom kanal</title></channel></rss>";
    let items = parse_rss_items(xml).expect("structurally fine feed should parse");
    assert!(items.is_empty());
}

#[test]
fn feed_entities_are_unescaped() {
    let xml = "<rss><item><title>Lov &amp; rett &lt;nr 3&gt;</title></item></rss>";
    let items = parse_rss_items(xml).expect("rss parse should succeed");
    assert_eq!(items[0].title, "Lov & rett <nr 3>");
}

#[test]
fn snippet_never_splits_multibyte_characters() {
    // Norwegian letters on both sides of the match are multi-byte in UTF-8;
    // the snippet must stay on whole characters and within the bound.
    let text = format!("{}trer i kraft straks{}", "æøå".repeat(60), "æøå".repeat(60));
    let result = extract_enforcement_date(&text);

    assert_eq!(result.value, "STRAKS");
    assert!(result.matched_snippet.chars().count() <= 203);
    assert!(String::from_utf8(result.matched_snippet.into_bytes()).is_ok());
}

#[test]
fn snippet_of_whole_short_text_is_kept() {
    let text = "kort tekst trer i kraft straks her";
    let snippet = snippet_around_match(text, 11, 30);
    assert_eq!(snippet, "kort tekst trer i kraft straks her");
}

#[test]
fn no_match_result_carries_sentinel_snippet() {
    let r = parser_no_match_result();
    assert_eq!(r.value, "PARSER_IKKE_FUNNET");
    assert_eq!(r.matched_snippet, "none");
    assert_eq!(r.source, "none");
}

#[test]
fn webhook_dispositions_follow_check_order() {
    assert_eq!(
        webhook_disposition(false, false, false),
        WebhookDisposition::Unauthorized
    );
    assert_eq!(
        webhook_disposition(true, false, true),
        WebhookDisposition::InvalidPayload
    );
    assert_eq!(
        webhook_disposition(true, true, false),
        WebhookDisposition::SkippedNoLink
    );
    assert_eq!(
        webhook_disposition(true, true, true),
        WebhookDisposition::Process
    );
}

#[test]
fn retry_schedule_is_fixed() {
    assert_eq!(retry_delays(), vec![0, 250, 750]);
    assert!(attempt_allowed(0));
    assert!(attempt_allowed(2));
    assert!(!attempt_allowed(3));
    assert_eq!(delay_before_attempt(0), 0);
    assert_eq!(delay_before_attempt(1), 250);
    assert_eq!(delay_before_attempt(2), 750);
}

#[test]
fn citation_number_is_kept_verbatim() {
    let ids = extract_law_ids("lov 1. januar 2000 nr. 007");
    assert_eq!(ids, vec!["LOV-2000-01-01-007".to_string()]);
}

#[test]
fn escaped_line_breaks_collapse_to_spaces() {
    // The literal escape sequences between the words collapse to single spaces.
    assert_eq!(
        lovsync::content::strip_html_tags("en\\r\\nto\\nlinjer\\ttre"),
        "en to linjer tre"
    );
}
