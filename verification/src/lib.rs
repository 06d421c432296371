//! Client-side wire-protocol layer for a URL-reputation lookup service.
//!
//! Given one URL or a batch of URLs, the service reports which threat
//! categories each URL belongs to.  This crate builds the deterministic,
//! correctly escaped request strings for single and batch lookups, parses
//! the delimiter-based response bodies back into structured per-URL
//! results, enforces the batch-size limit, and classifies malformed or
//! unexpected server output into a precise error taxonomy.  The transport
//! itself (connections, TLS, retries) is an external collaborator and is
//! not part of this crate.

use vstd::prelude::*;

pub mod decode;
pub mod encode;
pub mod gsberror;
pub mod text;

pub use decode::{
    check_status, classify, decode_batch, decode_batch_response, decode_single,
    decode_single_response, statuses_from_vec, Status, StatusSet,
};
pub use encode::build_batch_body;
pub use gsberror::GSBError;

verus! {

/// Maximum number of URLs the lookup service accepts in one batch request.
pub const URL_LIMIT: usize = 500;

/// A client identity for the lookup API: the fields sent as query
/// parameters with every request.  `client_name` may be changed after
/// construction; the other fields are fixed.
pub struct GSBClient {
    pub api_key: String,
    pub client_name: String,
    pub app_ver: String,
    pub pver: String,
}

impl GSBClient {
    /// Creates a new `GSBClient` that will use `key` as the lookup API key.
    pub fn new(key: String) -> (client: GSBClient)
        ensures
            client.api_key == key,
            client.client_name@ == "gsbrs"@,
            client.app_ver@ == "0.6.0"@,
            client.pver@ == "3.1"@,
    {
        GSBClient {
            api_key: key,
            client_name: String::from_str("gsbrs"),
            app_ver: String::from_str("0.6.0"),
            pver: String::from_str("3.1"),
        }
    }

    /// Sets the `GSBClient` client name to `client_name`.
    /// `GSBClient` uses `gsbrs` as the client name by default.
    pub fn change_client_name(&mut self, client_name: String)
        ensures
            final(self).client_name == client_name,
            final(self).api_key == old(self).api_key,
            final(self).app_ver == old(self).app_ver,
            final(self).pver == old(self).pver,
    {
        self.client_name = client_name;
    }
}

} // verus!
