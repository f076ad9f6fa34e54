use std::time::UNIX_EPOCH;
use tracing_fastly::event::{FieldValue, Fields};
use tracing_fastly::layer::structured_event;
use tracing_fastly::level::Level;
use tracing_fastly::StructuredEventLayer;

fn fields(entries: &[(&str, FieldValue)]) -> Fields {
    let mut fields = Fields::new();
    for (name, value) in entries {
        fields.insert(name, value.clone());
    }
    fields
}

fn message(text: &str) -> Fields {
    fields(&[("message", FieldValue::Str(text.into()))])
}

#[test]
fn captures_all_typed_span_fields() {
    let span = fields(&[
        ("request_id", FieldValue::Str("abc-123".into())),
        ("attempt", FieldValue::U64(2)),
        ("sampled", FieldValue::Bool(true)),
    ]);
    let c = structured_event(UNIX_EPOCH, Level::INFO, message("hello"), &[span]);
    assert_eq!(c.fields.get("request_id"), Some(&FieldValue::Str("abc-123".into())));
    assert_eq!(c.fields.get("attempt"), Some(&FieldValue::U64(2)));
    assert_eq!(c.fields.get("sampled"), Some(&FieldValue::Bool(true)));
    assert_eq!(c.message, "hello");
}

#[test]
fn captures_fields_recorded_after_span_creation() {
    let mut span = Fields::new();
    span.insert("request_id", FieldValue::Str("late-id".into()));
    let c = structured_event(UNIX_EPOCH, Level::INFO, message("hello"), &[span]);
    assert_eq!(c.fields.get("request_id"), Some(&FieldValue::Str("late-id".into())));
}

#[test]
fn innermost_span_wins_for_duplicate_names() {
    let outer = fields(&[("request_id", FieldValue::Str("root-id".into()))]);
    let inner = fields(&[
        ("request_id", FieldValue::Str("inner-id".into())),
        ("operation", FieldValue::Str("lookup".into())),
    ]);
    let c = structured_event(UNIX_EPOCH, Level::INFO, message("hello"), &[inner, outer]);
    assert_eq!(c.fields.get("request_id"), Some(&FieldValue::Str("inner-id".into())));
    assert_eq!(c.fields.get("operation"), Some(&FieldValue::Str("lookup".into())));
}

#[test]
fn event_fields_override_span_fields() {
    let span = fields(&[("backend", FieldValue::Str("default".into()))]);
    let mut event = message("hello");
    event.insert("backend", FieldValue::Str("origin".into()));
    let c = structured_event(UNIX_EPOCH, Level::INFO, event, &[span]);

    assert_eq!(c.fields.get("backend"), Some(&FieldValue::Str("origin".into())));
}

#[test]
fn event_keeps_time_level_and_drops_its_message_field() {
    let c = structured_event(UNIX_EPOCH, Level::WARN, message("m"), &[]);
    assert_eq!(c.timestamp, UNIX_EPOCH);
    assert_eq!(c.level, Level::WARN);
    assert_eq!(c.message, "m");
    assert!(c.fields.is_empty());
}

#[test]
fn layer_keeps_its_sink() {
    let layer = StructuredEventLayer::new(5u32);
    assert_eq!(*layer.sink(), 5);
}
