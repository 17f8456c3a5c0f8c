use guardian_redact::adapter::{normalize_output, parse_entry};
use guardian_redact::errors::InferenceError;
use guardian_redact::text::clean_raw_output;

fn entry(text: &str, conf: &str, cat: &str, coords: &str) -> String {
    format!(
        "{{\"text\":\"{}\",\"confidence\":{},\"category\":\"{}\",\"coordinates\":{}}}",
        text, conf, cat, coords
    )
}

const COORDS: &str = "{\"page\":0,\"x\":1.0,\"y\":2.0,\"width\":3.0,\"height\":4.0}";

#[test]
fn empty_array_completes_with_no_suggestions() {
    let r = normalize_output("[]", 0, 0).unwrap();
    assert!(r.is_empty());
}

#[test]
fn two_good_entries_become_two_suggestions_with_sequential_ids() {
    let raw = format!("[{},{}]", entry("a", "0.5", "PII", COORDS), entry("b", "0.25", "FINANCIAL", COORDS));
    let r = normalize_output(&raw, 7, 41).unwrap();
    assert_eq!(r.len(), 2);
    assert_eq!(r[0].id, 41);
    assert_eq!(r[1].id, 42);
    assert_eq!(r[0].text, "a");
    assert_eq!(r[0].confidence, 500);
    assert_eq!(r[1].confidence, 250);
    assert_eq!(r[0].category, "PII");
    assert_eq!(r[1].category, "FINANCIAL");
    // the adapter stamps the unit being processed, not the entry's page
    assert_eq!(r[0].coordinates.page, 7);
    assert_eq!(r[1].coordinates.page, 7);
    assert_eq!(r[0].coordinates.x, 1000);
    assert_eq!(r[0].coordinates.height, 4000);
    assert!(!r[0].accepted && !r[1].accepted);
}

#[test]
fn malformed_entry_is_dropped_and_rest_kept() {
    let missing_category = "{\"text\":\"x\",\"confidence\":0.5,\"coordinates\":{}}";
    let raw = format!("[{},{}]", missing_category, entry("kept", "0.5", "PII", COORDS));
    let r = normalize_output(&raw, 0, 0).unwrap();
    assert_eq!(r.len(), 1);
    assert_eq!(r[0].text, "kept");
    assert_eq!(r[0].id, 0);
}

#[test]
fn nonempty_array_with_no_usable_entry_is_unparseable() {
    let raw = "[{\"nothing\":1},{\"useful\":2}]";
    let r = normalize_output(raw, 0, 0);
    assert!(matches!(r, Err(InferenceError::Unparseable)));
}

#[test]
fn non_array_output_is_unparseable() {
    assert!(matches!(
        normalize_output("backend crashed", 0, 0),
        Err(InferenceError::Unparseable)
    ));
    assert!(matches!(
        normalize_output("{\"text\":\"a\"}", 0, 0),
        Err(InferenceError::Unparseable)
    ));
}

#[test]
fn trailing_commas_before_brackets_are_tolerated() {
    let raw = format!("[\n{},\n]", entry("a", "0.5", "PII", COORDS));
    let r = normalize_output(&raw, 0, 0).unwrap();
    assert_eq!(r.len(), 1);
}

#[test]
fn clean_raw_output_removes_only_offending_commas() {
    assert_eq!(clean_raw_output("[1,2,\n]"), "[1,2\n]");
    assert_eq!(clean_raw_output("{\"a\":1,\n}"), "{\"a\":1\n}");
    assert_eq!(clean_raw_output("[1,2]"), "[1,2]");
    assert_eq!(clean_raw_output(",\n],\n}"), "\n]\n}");
    assert_eq!(clean_raw_output(""), "");
}

#[test]
fn negative_extent_entry_is_dropped() {
    let bad = entry("a", "0.5", "PII", "{\"x\":1.0,\"y\":2.0,\"width\":-3.0,\"height\":4.0}");
    let raw = format!("[{}]", bad);
    assert!(matches!(normalize_output(&raw, 0, 0), Err(InferenceError::Unparseable)));
}

#[test]
fn confidence_is_clamped_into_the_unit_interval() {
    let raw = format!(
        "[{},{}]",
        entry("hi", "1.5", "PII", COORDS),
        entry("lo", "-0.25", "PII", COORDS)
    );
    let r = normalize_output(&raw, 0, 0).unwrap();
    assert_eq!(r[0].confidence, 1000);
    assert_eq!(r[1].confidence, 0);
}

#[test]
fn exponent_number_forms_are_treated_as_malformed() {
    let raw = format!("[{}]", entry("a", "1e-7", "PII", COORDS));
    assert!(matches!(normalize_output(&raw, 0, 0), Err(InferenceError::Unparseable)));
}

#[test]
fn parse_entry_reads_optional_reason() {
    let with_reason = format!(
        "{{\"text\":\"t\",\"confidence\":0.5,\"category\":\"PII\",\"reason\":\"why\",\"coordinates\":{}}}",
        COORDS
    );
    let d = parse_entry(&with_reason).unwrap();
    assert_eq!(d.reason.as_deref(), Some("why"));
    let without = entry("t", "0.5", "PII", COORDS);
    let d2 = parse_entry(&without).unwrap();
    assert_eq!(d2.reason, None);
}

#[test]
fn integer_confidence_is_accepted() {
    let raw = format!("[{}]", entry("a", "1", "PII", COORDS));
    let r = normalize_output(&raw, 0, 0).unwrap();
    assert_eq!(r[0].confidence, 1000);
}
