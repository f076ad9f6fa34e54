//! A sink for sending structured logs to Datadog through a Fastly endpoint.
//!
//! The records use Datadog's reserved `ddsource`, `ddtags`, `hostname`,
//! `message`, `service`, `status`, and `timestamp` attributes. Effective
//! event fields are nested under `fields`.

use vstd::prelude::*;
use vstd::string::StringExecFns;

pub mod simple;
pub mod tags;

verus! {

/// Writes structured events to a Datadog logging endpoint.
pub struct TraceSink<W> {
    writer: W,
    source: String,
    tags: String,
    service: String,
    hostname: String,
}

impl<W> TraceSink<W> {
    /// The writer that receives the records.
    pub closed spec fn spec_writer(&self) -> W {
        self.writer
    }

    /// The value of Datadog's reserved `ddsource` attribute.
    pub closed spec fn spec_source(&self) -> Seq<char> {
        self.source@
    }

    /// The value of Datadog's reserved `ddtags` attribute.
    pub closed spec fn spec_tags(&self) -> Seq<char> {
        self.tags@
    }

    /// The value of Datadog's reserved `service` attribute.
    pub closed spec fn spec_service(&self) -> Seq<char> {
        self.service@
    }

    /// The value of Datadog's reserved `hostname` attribute.
    pub closed spec fn spec_hostname(&self) -> Seq<char> {
        self.hostname@
    }

    /// Creates a Datadog sink writing to `writer` for the given service on
    /// the given host, with source `fastly` and empty tags.
    pub fn with_hostname(writer: W, service: &str, hostname: &str) -> (sink: Self)
        ensures
            sink.spec_writer() == writer,
            sink.spec_source() == "fastly"@,
            sink.spec_tags() == Seq::<char>::empty(),
            sink.spec_service() == service@,
            sink.spec_hostname() == hostname@,
    {
        TraceSink {
            writer,
            source: String::from_str("fastly"),
            tags: String::new(),
            service: service.to_owned(),
            hostname: hostname.to_owned(),
        }
    }

    /// Overrides the value of Datadog's reserved `ddsource` attribute.
    pub fn with_source(self, source: &str) -> (sink: Self)
        ensures
            sink.spec_writer() == self.spec_writer(),
            sink.spec_source() == source@,
            sink.spec_tags() == self.spec_tags(),
            sink.spec_service() == self.spec_service(),
            sink.spec_hostname() == self.spec_hostname(),
    {
        TraceSink { source: source.to_owned(), ..self }
    }

    /// Sets Datadog tags in its comma-separated `key:value` wire format.
    pub fn with_tags(self, tags: &str) -> (sink: Self)
        ensures
            sink.spec_writer() == self.spec_writer(),
            sink.spec_source() == self.spec_source(),
            sink.spec_tags() == tags@,
            sink.spec_service() == self.spec_service(),
            sink.spec_hostname() == self.spec_hostname(),
    {
        TraceSink { tags: tags.to_owned(), ..self }
    }

    /// The writer that receives the records.
    pub fn writer(&self) -> (writer: &W)
        ensures
            *writer == self.spec_writer(),
    {
        &self.writer
    }

    /// The value of the `ddsource` attribute.
    pub fn source(&self) -> (source: &str)
        ensures
            source@ == self.spec_source(),
    {
        self.source.as_str()
    }

    /// The value of the `ddtags` attribute.
    pub fn tags(&self) -> (tags: &str)
        ensures
            tags@ == self.spec_tags(),
    {
        self.tags.as_str()
    }

    /// The value of the `service` attribute.
    pub fn service(&self) -> (service: &str)
        ensures
            service@ == self.spec_service(),
    {
        self.service.as_str()
    }

    /// The value of the `hostname` attribute.
    pub fn hostname(&self) -> (hostname: &str)
        ensures
            hostname@ == self.spec_hostname(),
    {
        self.hostname.as_str()
    }
}

} // verus!
