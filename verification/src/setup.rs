//! A writer target that names a Fastly log endpoint.
//!
//! A formatting layer writes each line to the endpoint that an
//! `EndpointWriter` names; writing to an endpoint that the service does not
//! define is dropped at the edge, so naming a missing endpoint is harmless.

use vstd::prelude::*;

verus! {

/// Sends each formatted log line to a named Fastly log endpoint.
#[derive(Clone, Copy, Debug)]
pub struct EndpointWriter {
    endpoint: &'static str,
}

impl EndpointWriter {
    /// The name of the endpoint.
    pub closed spec fn spec_endpoint(&self) -> Seq<char> {
        self.endpoint@
    }

    /// A writer for the endpoint named `endpoint`.
    pub fn new(endpoint: &'static str) -> (writer: Self)
        ensures
            writer.spec_endpoint() == endpoint@,
    {
        EndpointWriter { endpoint }
    }

    /// The name of the endpoint.
    pub fn endpoint(&self) -> (endpoint: &'static str)
        ensures
            endpoint@ == self.spec_endpoint(),
    {
        self.endpoint
    }
}

} // verus!
