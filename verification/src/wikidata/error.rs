//! Errors of the Wikidata helpers.

use vstd::prelude::*;

verus! {

/// The error type of the HTTP client, carried through unchanged.
#[verifier::external_type_specification]
#[verifier::external_body]
pub struct ExReqwestError(reqwest::Error);

/// Why a Wikidata operation failed.
#[derive(Debug)]
pub enum WikidataError {
    /// The HTTP request failed.
    Http(reqwest::Error),
    /// The caller's input was invalid.
    InvalidInput(String),
    /// No entity matched.
    NotFound(String),
    /// A time value could not be parsed; holds the time string.
    TimeParseError(String),
    /// An entity lacks a required claim.
    MissingClaim { entity: String, property: String },
    /// The request timed out.
    Timeout,
    /// The API kept answering HTTP 429.
    RateLimit,
    /// The API asked to wait longer than the library is willing to.
    RateLimitRetryAfterTooLong { requested_secs: u64, max_secs: u64 },
}

} // verus!
