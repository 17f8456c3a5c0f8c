use guardian_redact::errors::InferenceError;
use guardian_redact::facade::{interpret_init_output, staged_file_name};
use guardian_redact::session::Session;
use guardian_redact::text::{chars_of, parse_milli};

fn advance_with(s: &mut Session, unit: usize, raw: Result<String, InferenceError>) {
    s.begin_advance(unit).expect("begin_advance should succeed");
    s.record_inference(unit, raw);
}

#[test]
fn next_unit_walks_pending_units_in_order() {
    let mut s = Session::start("doc.pdf".to_string(), 3, "pii".to_string()).unwrap();
    assert_eq!(s.next_unit(), Some(0));
    advance_with(&mut s, 0, Ok("[]".to_string()));
    assert_eq!(s.next_unit(), Some(1));
    advance_with(&mut s, 1, Err(InferenceError::Unavailable));
    assert_eq!(s.next_unit(), Some(2));
    advance_with(&mut s, 2, Ok("[]".to_string()));
    assert_eq!(s.next_unit(), None);
}

#[test]
fn next_unit_is_none_after_cancel() {
    let mut s = Session::start("doc.pdf".to_string(), 3, "pii".to_string()).unwrap();
    s.cancel();
    assert_eq!(s.next_unit(), None);
}

#[test]
fn progress_event_reports_unit_and_phase() {
    let mut s = Session::start("doc.pdf".to_string(), 2, "pii".to_string()).unwrap();
    advance_with(&mut s, 0, Ok("[]".to_string()));
    let ev = s.progress_event(0);
    assert_eq!(ev.status, "processing");
    assert_eq!(ev.current_page, Some(0));
    assert_eq!(ev.total_pages, Some(2));
    assert_eq!(ev.page_complete, Some(0));
    assert!(ev.redactions.unwrap().is_empty());
    advance_with(&mut s, 1, Ok("[]".to_string()));
    let ev2 = s.progress_event(1);
    assert_eq!(ev2.status, "complete");
}

#[test]
fn init_output_takes_the_last_line_as_status() {
    let out = "loading model...\ndownloading weights\n{\"status\":\"ready\",\"message\":\"ok\"}\n";
    let st = interpret_init_output(out);
    assert_eq!(st.status, "ready");
    assert_eq!(st.message, "ok");
}

#[test]
fn init_output_without_json_defaults_to_ready() {
    let st = interpret_init_output("all good, no structured status");
    assert_eq!(st.status, "ready");
    assert_eq!(st.message, "AI engine initialized successfully");
    let st2 = interpret_init_output("");
    assert_eq!(st2.status, "ready");
}

#[test]
fn init_output_with_partial_json_defaults_to_ready() {
    let st = interpret_init_output("{\"status\":\"error\"}");
    assert_eq!(st.status, "ready");
    let st2 = interpret_init_output("{\"status\":\"error\",\"message\":\"model missing\"}");
    assert_eq!(st2.status, "error");
    assert_eq!(st2.message, "model missing");
}

#[test]
fn init_output_tolerates_carriage_returns() {
    let st = interpret_init_output("noise\r\n{\"status\":\"ready\",\"message\":\"ok\"}\r\n");
    assert_eq!(st.status, "ready");
    assert_eq!(st.message, "ok");
}

#[test]
fn staged_names_join_timestamp_and_file_name() {
    assert_eq!(staged_file_name(1700000000, "scan.pdf"), "1700000000_scan.pdf");
    assert_eq!(staged_file_name(0, "a"), "0_a");
}

#[test]
fn decimal_parsing_is_exact() {
    let p = |s: &str| parse_milli(&chars_of(s));
    assert_eq!(p("0.95"), Some(950));
    assert_eq!(p("12.345"), Some(12345));
    assert_eq!(p("-0.5"), Some(-500));
    assert_eq!(p("3"), Some(3000));
    assert_eq!(p("1.2345"), Some(1234));
    assert_eq!(p("0.9"), Some(900));
    assert_eq!(p(""), None);
    assert_eq!(p("-"), None);
    assert_eq!(p("1."), None);
    assert_eq!(p(".5"), None);
    assert_eq!(p("1e5"), None);
    assert_eq!(p("12345678901234"), None);
    assert_eq!(p("9999999999999"), Some(9999999999999000));
}

#[test]
fn inference_errors_describe_themselves() {
    assert_eq!(InferenceError::Unavailable.describe(), "inference backend unavailable");
    assert_eq!(InferenceError::Unparseable.describe(), "inference output unparseable");
    assert_eq!(InferenceError::Rejected("bad page".to_string()).describe(), "bad page");
}
