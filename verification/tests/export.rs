use guardian_redact::errors::ExportError;
use guardian_redact::export::{
    accepted_only, conclude_write_back, encode_suggestions, export_payload, resolve_destination,
};
use guardian_redact::model::{RedactionCoordinates, RedactionSuggestion};

fn sug(id: u64, text: &str, accepted: bool) -> RedactionSuggestion {
    RedactionSuggestion {
        id,
        text: text.to_string(),
        confidence: 950,
        category: "PII".to_string(),
        reason: None,
        coordinates: RedactionCoordinates { page: 2, x: 10500, y: 20250, width: 100000, height: 12000 },
        accepted,
    }
}

#[test]
fn encode_one_suggestion_exactly() {
    let s = sug(7, "John", true);
    let out = encode_suggestions(&vec![s]);
    let head = "[{\"id\":7,\"text\":\"John\",\"confidence\":0.950,\"category\":\"PII\",";
    let tail = "\"coordinates\":{\"page\":2,\"x\":10.500,\"y\":20.250,\"width\":100.000,\"height\":12.000},\"accepted\":true}]";
    assert_eq!(out, format!("{}{}", head, tail));
}

#[test]
fn encode_includes_reason_when_present() {
    let mut s = sug(1, "a", false);
    s.reason = Some("looks sensitive".to_string());
    let out = encode_suggestions(&vec![s]);
    assert!(out.contains("\"reason\":\"looks sensitive\""));
    assert!(out.contains("\"accepted\":false"));
}

#[test]
fn payload_contains_only_accepted_suggestions() {
    let list = vec![sug(1, "keep", true), sug(2, "drop", false), sug(3, "also", true)];
    let out = export_payload(&list);
    let v: serde_json::Value = serde_json::from_str(&out).expect("payload must be valid JSON");
    let arr = v.as_array().unwrap();
    assert_eq!(arr.len(), 2);
    assert_eq!(arr[0]["id"], 1);
    assert_eq!(arr[1]["id"], 3);
    assert_eq!(arr[0]["text"], "keep");
    assert!(!out.contains("drop"));
}

#[test]
fn payload_round_trips_through_a_json_parser() {
    let mut s = sug(42, "Name \"quoted\" \\ and\nnewline", true);
    s.reason = Some("line1\nline2".to_string());
    let out = export_payload(&vec![s]);
    let v: serde_json::Value = serde_json::from_str(&out).unwrap();
    let e = &v.as_array().unwrap()[0];
    assert_eq!(e["id"], 42);
    assert_eq!(e["text"], "Name \"quoted\" \\ and\nnewline");
    assert_eq!(e["reason"], "line1\nline2");
    assert_eq!(e["confidence"], 0.95);
    assert_eq!(e["coordinates"]["page"], 2);
    assert_eq!(e["coordinates"]["x"], 10.5);
    assert_eq!(e["coordinates"]["y"], 20.25);
    assert_eq!(e["coordinates"]["width"], 100.0);
    assert_eq!(e["coordinates"]["height"], 12.0);
    assert_eq!(e["accepted"], true);
}

#[test]
fn accepted_only_preserves_order() {
    let list = vec![sug(5, "a", true), sug(6, "b", false), sug(7, "c", true), sug(8, "d", true)];
    let acc = accepted_only(&list);
    let ids: Vec<u64> = acc.iter().map(|x| x.id).collect();
    assert_eq!(ids, vec![5, 7, 8]);
}

#[test]
fn empty_and_all_unaccepted_sets_encode_as_empty_array() {
    assert_eq!(export_payload(&vec![]), "[]");
    assert_eq!(export_payload(&vec![sug(1, "x", false)]), "[]");
}

#[test]
fn destination_resolution_prefers_the_explicit_one() {
    let r = resolve_destination(Some("out.pdf".to_string()), Some("picked.pdf".to_string()));
    assert_eq!(r.unwrap(), "out.pdf");
    let r2 = resolve_destination(None, Some("picked.pdf".to_string()));
    assert_eq!(r2.unwrap(), "picked.pdf");
}

#[test]
fn declined_destination_cancels_export() {
    let r = resolve_destination(None, None);
    assert!(matches!(r, Err(ExportError::ExportCancelled)));
}

#[test]
fn write_back_report_is_translated() {
    let ok = conclude_write_back(true, String::new(), "out.pdf".to_string());
    assert_eq!(ok.unwrap(), "out.pdf");
    let err = conclude_write_back(false, "disk full".to_string(), "out.pdf".to_string());
    match err {
        Err(ExportError::WriteBackFailed(d)) => assert_eq!(d, "disk full"),
        _ => panic!("expected a write-back failure"),
    }
}

#[test]
fn negative_offsets_encode_with_sign() {
    let mut s = sug(1, "a", true);
    s.coordinates.x = -1500;
    let out = encode_suggestions(&vec![s]);
    assert!(out.contains("\"x\":-1.500"));
}
