use tracing_fastly::level::Level;
use tracing_fastly::serialize::datadog::level_name;

#[test]
fn tracing_levels_map_to_datadog_statuses() {
    assert_eq!(level_name(Level::ERROR), "error");
    assert_eq!(level_name(Level::WARN), "warn");
    assert_eq!(level_name(Level::INFO), "info");
    assert_eq!(level_name(Level::DEBUG), "debug");
    assert_eq!(level_name(Level::TRACE), "debug");
}
