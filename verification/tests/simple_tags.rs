use tracing_fastly::providers::datadog::simple::{Tags, TraceSink};

#[test]
fn datadog_tags_are_encoded_as_a_comma_separated_string() {
    let mut tags = Tags::new().with("env", "production");
    tags.push("version", "1.2.3");
    tags.push_bare("canary");

    assert_eq!(tags.as_str(), "env:production,version:1.2.3,canary");
    assert_eq!(
        serde_json::to_value(tags.as_str()).unwrap(),
        serde_json::Value::String("env:production,version:1.2.3,canary".to_owned())
    );
}

#[test]
fn simple_tags_are_kept_verbatim() {
    let tags = Tags::new().with("env", "a,b").with_bare("");
    assert_eq!(tags.as_str(), "env:a,b,");
    let tags = Tags::new().with_bare("").with("k", "v");
    assert_eq!(tags.as_str(), "k:v");
}

#[test]
fn simple_tags_from_pairs_push_each_pair() {
    let tags = Tags::from_pairs(&[("env", "production"), ("version", "1.2.3")]);
    assert_eq!(tags.as_str(), "env:production,version:1.2.3");
    assert_eq!(Tags::from_pairs(&[]).as_str(), "");
}

#[test]
fn simple_trace_sink_defaults_and_overrides() {
    let sink = TraceSink::new(7u8, "svc");
    assert_eq!(*sink.endpoint(), 7);
    assert_eq!(sink.source(), "fastly");
    assert_eq!(sink.tags().as_str(), "");
    assert_eq!(sink.service(), "svc");

    let sink = sink
        .with_source("edge")
        .with_tags(Tags::new().with("env", "production"));
    assert_eq!(sink.source(), "edge");
    assert_eq!(sink.tags().as_str(), "env:production");
    assert_eq!(sink.service(), "svc");
}
