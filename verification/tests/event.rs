use tracing_fastly::event::{take_message, FieldValue, Fields};

#[test]
fn routes_message_field_to_message() {
    let mut fields = Fields::new();
    fields.insert("message", FieldValue::Str("hello".into()));

    assert_eq!(take_message(&mut fields), "hello");
    assert!(fields.is_empty());
}

#[test]
fn routes_non_message_fields_to_payload() {
    let mut fields = Fields::new();
    fields.insert("status", FieldValue::I64(200));
    fields.insert("backend", FieldValue::Str("foo".into()));

    assert_eq!(fields.len(), 2);
    assert_eq!(fields.get("status"), Some(&FieldValue::I64(200)));
    assert_eq!(fields.get("backend"), Some(&FieldValue::Str("foo".into())));
}

#[test]
fn coerces_non_string_message_to_string() {
    let mut fields = Fields::new();
    fields.insert("message", FieldValue::I64(42));

    assert_eq!(take_message(&mut fields), "42");
}

#[test]
fn separates_message_from_other_fields() {
    let mut fields = Fields::new();
    fields.insert("message", FieldValue::Str("the message".into()));
    fields.insert("k", FieldValue::Bool(true));

    assert_eq!(take_message(&mut fields), "the message");
    assert_eq!(fields.len(), 1);

    assert!(!fields.contains_key("message"));
}

#[test]
fn missing_message_is_empty() {
    let mut fields = Fields::new();
    fields.insert("k", FieldValue::U64(1));
    assert_eq!(take_message(&mut fields), "");
    assert_eq!(fields.len(), 1);
}

#[test]
fn values_render_as_json_text() {
    assert_eq!(FieldValue::I64(-42).to_text(), "-42");
    assert_eq!(FieldValue::I64(0).to_text(), "0");
    assert_eq!(FieldValue::I64(i64::MIN).to_text(), "-9223372036854775808");
    assert_eq!(FieldValue::I64(i64::MAX).to_text(), "9223372036854775807");
    assert_eq!(FieldValue::U64(u64::MAX).to_text(), "18446744073709551615");
    assert_eq!(FieldValue::Bool(true).to_text(), "true");
    assert_eq!(FieldValue::Bool(false).to_text(), "false");
    assert_eq!(FieldValue::Float("1.5".into()).to_text(), "1.5");
    assert_eq!(FieldValue::Str("\"q\"".into()).to_text(), "\"q\"");
}

#[test]
fn insert_replaces_and_remove_takes_out() {
    let mut fields = Fields::new();
    fields.insert("a", FieldValue::U64(1));
    fields.insert("b", FieldValue::U64(2));
    fields.insert("a", FieldValue::U64(3));
    assert_eq!(fields.len(), 2);
    assert_eq!(fields.get("a"), Some(&FieldValue::U64(3)));
    assert_eq!(fields.remove("a"), Some(FieldValue::U64(3)));
    assert_eq!(fields.remove("a"), None);
    assert_eq!(fields.get("a"), None);
    assert_eq!(fields.len(), 1);
    assert_eq!(fields.entries().len(), 1);
}

#[test]
fn inherit_keeps_recorded_values() {
    let mut fields = Fields::new();
    fields.insert("backend", FieldValue::Str("origin".into()));
    let mut span = Fields::new();
    span.insert("backend", FieldValue::Str("default".into()));
    span.insert("route", FieldValue::Str("/docs".into()));

    fields.inherit(&span);
    assert_eq!(fields.len(), 2);
    assert_eq!(fields.get("backend"), Some(&FieldValue::Str("origin".into())));
    assert_eq!(fields.get("route"), Some(&FieldValue::Str("/docs".into())));
    assert_eq!(fields.clone(), fields);
}
