//! The error taxonomy of the lookup client.

use vstd::prelude::*;

verus! {

/// Represents potential errors that may occur when performing lookups.
///
/// Every failure of the protocol layer is reported as one of these values:
/// the client never retries, never substitutes a default result, and never
/// aborts on malformed server output.
#[derive(Debug, Clone, PartialEq, Eq)]
pub enum GSBError {
    /// A transport-level failure; its cause is opaque to this crate.
    Network,
    /// More than [`crate::URL_LIMIT`] URLs were passed to a batch lookup.
    /// Detected before any request is built or sent.
    TooManyUrls,
    /// The response body contained a token outside the recognized status
    /// vocabulary.  Carries the exact offending text.
    MalformedMessage(String),
    /// The server answered with an HTTP status code other than 200 or 204.
    HTTPStatusCode(u16),
}

impl GSBError {
    /// A short human-readable description of the error.
    pub fn message(&self) -> (r: String)
        ensures
            r@ == self.message_spec(),
    {
        match self {
            GSBError::Network => String::from_str("network error while querying the lookup API"),
            GSBError::TooManyUrls => String::from_str("the lookup API accepts at most 500 urls"),
            GSBError::MalformedMessage(tok) => {
                let mut r = String::from_str("unexpected value in the lookup API response: ");
                r.append(tok.as_str());
                r
            },
            GSBError::HTTPStatusCode(_) => {
                String::from_str("expected HTTP status code 200 or 204")
            },
        }
    }

    /// What [`GSBError::message`] returns for each variant.
    pub open spec fn message_spec(&self) -> Seq<char> {
        match self {
            GSBError::Network => "network error while querying the lookup API"@,
            GSBError::TooManyUrls => "the lookup API accepts at most 500 urls"@,
            GSBError::MalformedMessage(tok) => {
                "unexpected value in the lookup API response: "@ + tok@
            },
            GSBError::HTTPStatusCode(_) => "expected HTTP status code 200 or 204"@,
        }
    }
}

} // verus!
