use lovsync::feed::{parse_date, parse_rss_items};
use lovsync::request_id::resolve_request_id_with_generator;

#[test]
fn parse_date_extracts_iso_date() {
    assert_eq!(
        parse_date("2026-02-12T09:15:00+01:00"),
        Some("2026-02-12".to_string())
    );
}

#[test]
fn parse_date_returns_none_for_invalid_input() {
    assert_eq!(parse_date("unknown"), None);
}

#[test]
fn parse_rss_items_extracts_expected_fields() {
    let xml = r#"
        <rss>
          <channel>
            <item>
              <title>Lovvedtak 42</title>
              <link>https://example.com/lov/42</link>
              <description>Beskrivelse av lovvedtak</description>
              <dc:date>2026-02-12T09:15:00+01:00</dc:date>
            </item>
          </channel>
        </rss>
    "#;

    let items = parse_rss_items(xml).expect("rss parse should succeed");
    assert_eq!(items.len(), 1);

    let item = &items[0];
    assert_eq!(item.title, "Lovvedtak 42");
    assert_eq!(item.stortinget_id, "Lovvedtak 42");
    assert_eq!(
        item.stortinget_link.as_deref(),
        Some("https://example.com/lov/42")
    );
    assert_eq!(
        item.feed_description.as_deref(),
        Some("Beskrivelse av lovvedtak")
    );
    assert_eq!(item.decision_date.as_deref(), Some("2026-02-12"));
}

#[test]
fn parse_rss_items_handles_incomplete_item_fields() {
    let xml = r#"
        <rss>
          <channel>
            <item>
              <title>Lovvedtak uten link</title>
            </item>
          </channel>
        </rss>
    "#;

    let items = parse_rss_items(xml).expect("rss parse should succeed");
    assert_eq!(items.len(), 1);
    assert_eq!(items[0].title, "Lovvedtak uten link");
    assert_eq!(items[0].stortinget_link, None);
    assert_eq!(items[0].feed_description, None);
    assert_eq!(items[0].decision_date, None);
}

#[test]
fn resolve_request_id_preserves_non_empty_value() {
    let result = resolve_request_id_with_generator(Some("req-123"), || "generated".to_string());
    assert_eq!(result, "req-123");
}

#[test]
fn resolve_request_id_generates_value_when_missing() {
    let result = resolve_request_id_with_generator(None, || "generated-id".to_string());
    assert_eq!(result, "generated-id");
}

#[test]
fn resolve_request_id_generates_value_when_blank() {
    let result = resolve_request_id_with_generator(Some("   "), || "generated-id".to_string());
    assert_eq!(result, "generated-id");
}
