use tracing_fastly::bq_logging::access_summary;
use tracing_fastly::serialize::unix_milliseconds;
use tracing_fastly::bq_logging::{backend_label, non_empty, ACCESS_LOG_ENDPOINT, TRACE_LOG_ENDPOINT};
use tracing_fastly::providers::datadog::TraceSink;
use tracing_fastly::serialize::{check_record_write, RecordWriteError};
use tracing_fastly::setup::EndpointWriter;

#[test]
fn non_empty_drops_only_the_empty_string() {
    assert_eq!(non_empty(""), None);
    assert_eq!(non_empty("FRA"), Some("FRA"));
}

#[test]
fn backend_label_falls_back_to_a_dash() {
    assert_eq!(backend_label(None), "-");
    assert_eq!(backend_label(Some("origin")), "origin");
    assert_eq!(ACCESS_LOG_ENDPOINT, "bq_access_logs");
    assert_eq!(TRACE_LOG_ENDPOINT, "bq_trace_logs");
}

#[test]
fn a_record_is_emitted_only_by_a_complete_write() {
    assert_eq!(check_record_write::<&str>(5, Ok(5)), Ok(()));
    assert_eq!(
        check_record_write::<&str>(5, Ok(3)),
        Err(RecordWriteError::Incomplete {
            written: 3,
            expected: 5
        })
    );
    assert_eq!(
        check_record_write(5, Err("broken")),
        Err(RecordWriteError::Io("broken"))
    );
}

#[test]
fn endpoint_writer_names_its_endpoint() {
    let writer = EndpointWriter::new("test_ep");
    assert_eq!(writer.endpoint(), "test_ep");
}

#[test]
fn datadog_trace_sink_builders() {
    let sink = TraceSink::with_hostname(1u8, "service", "host");
    assert_eq!(*sink.writer(), 1);
    assert_eq!(sink.source(), "fastly");
    assert_eq!(sink.tags(), "");
    assert_eq!(sink.service(), "service");
    assert_eq!(sink.hostname(), "host");
    let sink = sink.with_source("edge").with_tags("env:production");
    assert_eq!(sink.source(), "edge");
    assert_eq!(sink.tags(), "env:production");
    assert_eq!(sink.hostname(), "host");
}

#[test]
fn access_summary_names_status_method_url_time_backend_and_request() {
    assert_eq!(
        access_summary(404, "GET", "https://example.com/", 12, None, "rid-1"),
        "access status=404 method=GET url=https://example.com/ response_time_ms=12 backend=- request_id=rid-1"
    );
    assert_eq!(
        access_summary(200, "POST", "/", 0, Some("origin"), ""),
        "access status=200 method=POST url=/ response_time_ms=0 backend=origin request_id="
    );
}

#[test]
fn pre_epoch_times_fall_back_to_zero_milliseconds() {
    assert_eq!(unix_milliseconds(Some(1500)), 1500);
    assert_eq!(unix_milliseconds(None), 0);
}
