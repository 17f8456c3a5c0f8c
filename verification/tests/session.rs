use guardian_redact::errors::{InferenceError, SessionError};
use guardian_redact::export::{conclude_write_back, export_payload};
use guardian_redact::session::{Session, UnitStatusKind};

fn raw_two_entries() -> String {
    let first = "{\"text\":\"John Doe\",\"confidence\":0.95,\"category\":\"PII\",\"reason\":\"name\",\"coordinates\":{\"page\":1,\"x\":10.5,\"y\":20.25,\"width\":100.0,\"height\":12.0}}";
    let second = "{\"text\":\"555-1234\",\"confidence\":0.8,\"category\":\"PII\",\"coordinates\":{\"page\":1,\"x\":30.0,\"y\":40.0,\"width\":80.0,\"height\":12.0}}";
    format!("[{},{}]", first, second)
}

fn advance_with(s: &mut Session, unit: usize, raw: Result<String, InferenceError>) {
    s.begin_advance(unit).expect("begin_advance should succeed");
    s.record_inference(unit, raw);
}

#[test]
fn fresh_session_all_pending_not_complete() {
    let s = Session::start("doc.pdf".to_string(), 4, "pii".to_string()).unwrap();
    let snap = s.snapshot();
    assert_eq!(snap.statuses.len(), 4);
    for k in snap.statuses {
        assert_eq!(k, UnitStatusKind::Pending);
    }
    assert!(!s.is_complete());
    assert!(snap.suggestions.is_empty());
    assert!(!snap.cancelled);
}

#[test]
fn zero_units_rejected() {
    let r = Session::start("doc.pdf".to_string(), 0, "pii".to_string());
    assert!(matches!(r, Err(SessionError::InvalidUnitCount)));
}

#[test]
fn second_advance_on_same_unit_rejected() {
    let mut s = Session::start("doc.pdf".to_string(), 2, "pii".to_string()).unwrap();
    s.begin_advance(0).unwrap();
    let r = s.begin_advance(0);
    assert!(matches!(r, Err(SessionError::AlreadyInFlight)));
    // the other unit is untouched
    assert!(s.begin_advance(1).is_ok());
}

#[test]
fn scenario_three_units_middle_has_two_suggestions() {
    let mut s = Session::start("doc.pdf".to_string(), 3, "pii".to_string()).unwrap();
    advance_with(&mut s, 0, Ok("[]".to_string()));
    advance_with(&mut s, 1, Ok(raw_two_entries()));
    advance_with(&mut s, 2, Ok("[]".to_string()));
    let snap = s.snapshot();
    assert_eq!(snap.suggestions.len(), 2);
    for sug in &snap.suggestions {
        assert_eq!(sug.coordinates.page, 1);
        assert!(!sug.accepted);
    }
    assert_eq!(snap.suggestions[0].text, "John Doe");
    assert_eq!(snap.suggestions[0].confidence, 950);
    assert_eq!(snap.suggestions[0].coordinates.x, 10500);
    assert_eq!(snap.suggestions[0].coordinates.y, 20250);
    assert_eq!(snap.suggestions[0].coordinates.width, 100000);
    assert_eq!(snap.suggestions[0].coordinates.height, 12000);
    assert_eq!(snap.suggestions[0].reason.as_deref(), Some("name"));
    assert_eq!(snap.suggestions[1].text, "555-1234");
    assert_eq!(snap.suggestions[1].confidence, 800);
    assert_eq!(snap.suggestions[1].reason, None);
    // ids are fresh and distinct
    assert_ne!(snap.suggestions[0].id, snap.suggestions[1].id);
    assert!(s.is_complete());
}

#[test]
fn failed_unit_does_not_block_the_rest() {
    let mut s = Session::start("doc.pdf".to_string(), 3, "pii".to_string()).unwrap();
    advance_with(&mut s, 0, Ok(raw_two_entries()));
    advance_with(&mut s, 1, Err(InferenceError::Unavailable));
    assert!(!s.is_complete());
    advance_with(&mut s, 2, Ok("[]".to_string()));
    assert!(s.is_complete());
    let snap = s.snapshot();
    assert_eq!(snap.statuses[0], UnitStatusKind::Completed);
    assert_eq!(snap.statuses[1], UnitStatusKind::Failed);
    assert_eq!(snap.statuses[2], UnitStatusKind::Completed);
    // only unit 0's suggestions are aggregated
    assert_eq!(snap.suggestions.len(), 2);
    assert!(snap.suggestions.iter().all(|x| x.coordinates.page == 0));
    // export over the partially failed session still succeeds
    let id = snap.suggestions[0].id;
    s.set_accepted(id, true).unwrap();
    let payload = export_payload(&s.snapshot().suggestions);
    let parsed: serde_json::Value = serde_json::from_str(&payload).unwrap();
    assert_eq!(parsed.as_array().unwrap().len(), 1);
    let written = conclude_write_back(true, String::new(), "out.pdf".to_string());
    assert_eq!(written.unwrap(), "out.pdf");
}

#[test]
fn cancel_mid_flight_lets_unit_finish_but_blocks_new_ones() {
    let mut s = Session::start("doc.pdf".to_string(), 3, "pii".to_string()).unwrap();
    advance_with(&mut s, 0, Ok("[]".to_string()));
    s.begin_advance(1).unwrap();
    s.cancel();
    // the in-flight unit resolves normally
    s.record_inference(1, Ok(raw_two_entries()));
    assert_eq!(s.unit_kind(1), UnitStatusKind::Completed);
    assert_eq!(s.unit_suggestions(1).len(), 2);
    // but no new unit may start
    let r = s.begin_advance(2);
    assert!(matches!(r, Err(SessionError::SessionCancelled)));
}

#[test]
fn set_accepted_toggles_exactly_one_suggestion() {
    let mut s = Session::start("doc.pdf".to_string(), 1, "pii".to_string()).unwrap();
    advance_with(&mut s, 0, Ok(raw_two_entries()));
    let snap = s.snapshot();
    let id0 = snap.suggestions[0].id;
    let id1 = snap.suggestions[1].id;
    s.set_accepted(id0, true).unwrap();
    let snap2 = s.snapshot();
    assert!(snap2.suggestions.iter().find(|x| x.id == id0).unwrap().accepted);
    assert!(!snap2.suggestions.iter().find(|x| x.id == id1).unwrap().accepted);
    // toggling back
    s.set_accepted(id0, false).unwrap();
    assert!(s.snapshot().suggestions.iter().all(|x| !x.accepted));
}

#[test]
fn set_accepted_unknown_id_rejected() {
    let mut s = Session::start("doc.pdf".to_string(), 1, "pii".to_string()).unwrap();
    advance_with(&mut s, 0, Ok(raw_two_entries()));
    let r = s.set_accepted(99999, true);
    assert!(matches!(r, Err(SessionError::UnknownSuggestion)));
}

#[test]
fn reprocessing_replaces_suggestions_and_drops_acceptance() {
    let mut s = Session::start("doc.pdf".to_string(), 1, "pii".to_string()).unwrap();
    advance_with(&mut s, 0, Ok(raw_two_entries()));
    let old = s.snapshot().suggestions;
    s.set_accepted(old[0].id, true).unwrap();
    // advance the completed unit again: allowed, and replaces the set
    advance_with(&mut s, 0, Ok(raw_two_entries()));
    let new = s.snapshot().suggestions;
    assert_eq!(new.len(), 2);
    for n in &new {
        assert!(!n.accepted, "acceptance must not carry over to the new set");
        assert!(old.iter().all(|o| o.id != n.id), "new ids never reuse old ones");
    }
    // the old id is gone
    assert!(matches!(
        s.set_accepted(old[0].id, true),
        Err(SessionError::UnknownSuggestion)
    ));
}

#[test]
fn failed_unit_can_be_retried() {
    let mut s = Session::start("doc.pdf".to_string(), 1, "pii".to_string()).unwrap();
    advance_with(&mut s, 0, Err(InferenceError::Unavailable));
    assert_eq!(s.unit_kind(0), UnitStatusKind::Failed);
    // a terminal unit may re-enter processing for a retry
    advance_with(&mut s, 0, Ok(raw_two_entries()));
    assert_eq!(s.unit_kind(0), UnitStatusKind::Completed);
    assert_eq!(s.unit_suggestions(0).len(), 2);
}

#[test]
fn unparseable_output_fails_the_unit() {
    let mut s = Session::start("doc.pdf".to_string(), 1, "pii".to_string()).unwrap();
    advance_with(&mut s, 0, Ok("this is not json".to_string()));
    assert_eq!(s.unit_kind(0), UnitStatusKind::Failed);
}

#[test]
fn rejected_backend_failure_is_recorded_as_is() {
    let mut s = Session::start("doc.pdf".to_string(), 1, "pii".to_string()).unwrap();
    advance_with(&mut s, 0, Err(InferenceError::Rejected("bad profile".to_string())));
    assert_eq!(s.unit_kind(0), UnitStatusKind::Failed);
}
