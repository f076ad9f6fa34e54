//! Per-request BigQuery logging: row contents that do not depend on the
//! request machinery.
//!
//! Rows are written to the `bq_access_logs` and `bq_trace_logs` Fastly
//! endpoints; writes to an endpoint that the service does not define are
//! dropped at the edge.

use vstd::prelude::*;
use vstd::string::StringExecFns;
use crate::event::decimal_digits;

verus! {

/// The endpoint of the access log.
pub const ACCESS_LOG_ENDPOINT: &'static str = "bq_access_logs";

/// The endpoint of the trace log.
pub const TRACE_LOG_ENDPOINT: &'static str = "bq_trace_logs";

/// `s`, unless it is empty.
pub fn non_empty(s: &str) -> (r: Option<&str>)
    ensures
        r is None <==> s@.len() == 0,
        r matches Some(t) ==> t@ == s@,
{
    if s.is_empty() {
        None
    } else {
        Some(s)
    }
}

/// The backend named in the one-line access summary: its name, or `-` when
/// the request reached no backend.
pub fn backend_label(backend_name: Option<&str>) -> (label: &str)
    ensures
        label@ == (match backend_name {
            Some(name) => name@,
            None => "-"@,
        }),
{
    match backend_name {
        Some(name) => name,
        None => "-",
    }
}

/// Formats `n` with the standard library's `Display` for `u128`, which
/// writes an integer in decimal digits.
#[verifier::external_body]
fn decimal_text(n: u128) -> (text: String)
    ensures
        text@ == decimal_digits(n as nat),
{
    n.to_string()
}

/// The one-line summary of a request for humans reading stdout.
pub open spec fn access_summary_text(
    status: u16,
    method: Seq<char>,
    url: Seq<char>,
    response_time_ms: u128,
    backend: Seq<char>,
    request_id: Seq<char>,
) -> Seq<char> {
    "access status="@ + decimal_digits(status as nat) + " method="@ + method + " url="@ + url
        + " response_time_ms="@ + decimal_digits(response_time_ms as nat) + " backend="@ + backend
        + " request_id="@ + request_id
}

/// The summary line is, in order: `access status=` and the decimal digits of
/// the status, ` method=` and the method, ` url=` and the URL,
/// ` response_time_ms=` and the decimal digits of the whole response time in
/// milliseconds, ` backend=` and the backend, ` request_id=` and the request id.
pub proof fn lemma_access_summary_text(
    status: u16,
    method: Seq<char>,
    url: Seq<char>,
    response_time_ms: u128,
    backend: Seq<char>,
    request_id: Seq<char>,
)
    ensures
        access_summary_text(status, method, url, response_time_ms, backend, request_id) == "access status="@
            + decimal_digits(status as nat) + " method="@ + method + " url="@ + url
            + " response_time_ms="@ + decimal_digits(response_time_ms as nat) + " backend="@ + backend
            + " request_id="@ + request_id,
{
}

/// The one-line summary of a request: its status, method, URL, response time
/// in milliseconds, backend (`-` when none) and request id.
pub fn access_summary(
    status: u16,
    method: &str,
    url: &str,
    response_time_ms: u128,
    backend_name: Option<&str>,
    request_id: &str,
) -> (line: String)
    ensures
        line@ == access_summary_text(
            status,
            method@,
            url@,
            response_time_ms,
            (match backend_name {
                Some(name) => name@,
                None => "-"@,
            }),
            request_id@,
        ),
{
    let mut line = String::from_str("access status=");
    line.append(decimal_text(status as u128).as_str());
    line.append(" method=");
    line.append(method);
    line.append(" url=");
    line.append(url);
    line.append(" response_time_ms=");
    line.append(decimal_text(response_time_ms).as_str());
    line.append(" backend=");
    line.append(backend_label(backend_name));
    line.append(" request_id=");
    line.append(request_id);
    line
}

} // verus!
