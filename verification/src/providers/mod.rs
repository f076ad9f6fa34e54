//! Ready-to-use sinks for supported logging providers.

pub mod datadog;
