use tracing_fastly::event::FieldValue;
use tracing_fastly::logging::{
    nearest_request_id, strip_quotes, BqTraceLayer, EventVisitor, SpanState,
};

fn span(fields: &[(&str, &str)]) -> SpanState {
    let mut state = SpanState::default();
    for (name, value) in fields {
        state.record_str(name, value);
    }
    state
}

#[test]
fn request_id_captured_from_span_creation() {
    let rid = nearest_request_id(&[span(&[("request_id", "abc-123")])]);
    assert_eq!(rid.as_deref(), Some("abc-123"));
}

#[test]
fn request_id_captured_when_recorded_after_span_creation() {
    let mut state = span(&[]);
    state.record_str("request_id", "late-id");
    let rid = nearest_request_id(&[state]);
    assert_eq!(rid.as_deref(), Some("late-id"));
}

#[test]
fn request_id_inherited_from_ancestor_span() {
    let outer = span(&[("request_id", "root-id")]);
    let inner = span(&[]);
    let rid = nearest_request_id(&[inner, outer]);
    assert_eq!(rid.as_deref(), Some("root-id"));
}

#[test]
fn request_id_absent_when_no_ancestor_has_it() {
    let rid = nearest_request_id(&[span(&[])]);
    assert_eq!(rid, None);
}

#[test]
fn request_id_ignores_other_fields() {
    let rid = nearest_request_id(&[span(&[("other", "nope"), ("request_id", "real")])]);
    assert_eq!(rid.as_deref(), Some("real"));
}

#[test]
fn nearest_span_request_id_wins() {
    let outer = span(&[("request_id", "root-id")]);
    let inner = span(&[("request_id", "inner-id")]);
    assert_eq!(nearest_request_id(&[inner, outer]).as_deref(), Some("inner-id"));
}

#[test]
fn debug_request_id_loses_its_quotes() {
    let mut state = SpanState::new();
    state.record_debug("request_id", "\"abc\"");
    assert_eq!(state.request_id.as_deref(), Some("abc"));
    state.record_debug("other", "\"x\"");
    assert_eq!(state.request_id.as_deref(), Some("abc"));
    assert_eq!(strip_quotes("\"\"a\"b\"\""), "a\"b");
    assert_eq!(strip_quotes("\"\"\""), "");
    assert_eq!(strip_quotes("plain"), "plain");
    assert_eq!(strip_quotes(""), "");
}

#[test]
fn event_visitor_routes_message_field_to_message() {
    let mut v = EventVisitor::new();
    v.insert("message", FieldValue::Str("hello".into()));

    assert_eq!(v.message, "hello");
    assert!(v.fields.is_empty());
}

#[test]
fn event_visitor_routes_non_message_fields_to_payload() {
    let mut v = EventVisitor::new();
    v.insert("status", FieldValue::I64(200));
    v.insert("backend", FieldValue::Str("foo".into()));

    assert_eq!(v.message, "");
    assert_eq!(v.fields.len(), 2);
    assert_eq!(v.fields.get("status"), Some(&FieldValue::I64(200)));
    assert_eq!(v.fields.get("backend"), Some(&FieldValue::Str("foo".into())));
}

#[test]
fn event_visitor_message_last_write_wins() {
    let mut v = EventVisitor::new();
    v.insert("message", FieldValue::Str("first".into()));
    v.insert("message", FieldValue::Str("second".into()));

    assert_eq!(v.message, "second");
}

#[test]
fn event_visitor_coerces_non_string_message_to_string() {
    let mut v = EventVisitor::new();
    v.insert("message", FieldValue::I64(42));

    assert_eq!(v.message, "42");
}

#[test]
fn event_visitor_separates_message_from_other_fields() {
    let mut v = EventVisitor::new();
    v.insert("message", FieldValue::Str("the message".into()));
    v.insert("k", FieldValue::Bool(true));

    assert_eq!(v.message, "the message");
    assert_eq!(v.fields.len(), 1);
    assert_eq!(v.fields.get("k"), Some(&FieldValue::Bool(true)));
    assert!(!v.fields.contains_key("message"));
}

#[test]
fn event_visitor_payload_is_absent_without_fields() {
    let mut v = EventVisitor::new();
    v.insert("message", FieldValue::Str("m".into()));
    let (message, payload) = v.into_parts();
    assert_eq!(message, "m");
    assert!(payload.is_none());

    let mut v = EventVisitor::new();
    v.insert("k", FieldValue::U64(1));
    let (message, payload) = v.into_parts();
    assert_eq!(message, "");
    assert_eq!(payload.unwrap().get("k"), Some(&FieldValue::U64(1)));
}

#[test]
fn trace_layer_names_its_service() {
    assert_eq!(BqTraceLayer::new("svc").service_name(), "svc");
}
