//! DID resolution configuration: the HTTP(S) resolver endpoint this crate
//! configures but never calls.

use vstd::prelude::*;

verus! {

/// A DID resolver client configuration for the DID Resolution HTTP(S)
/// binding: the endpoint URL. The network path itself is out of scope; this
/// crate only carries the configuration.
pub struct HTTPDIDResolver {
    /// HTTP(S) URL of the DID resolver endpoint.
    pub endpoint: String,
}

impl HTTPDIDResolver {
    /// A resolver configuration with the given endpoint URL.
    pub fn new(url: &str) -> (r: Self)
        ensures
            r.endpoint@ == url@,
    {
        HTTPDIDResolver { endpoint: url.to_owned() }
    }
}

} // verus!
