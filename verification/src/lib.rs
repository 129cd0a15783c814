//! A minimal HTTP/1.1 client core for a polling worker runtime.
//!
//! The crate verifies the logic of the protocol: chunked transfer
//! encoding and decoding of message bodies, status-line validation,
//! header scanning, and the decisions of the outer poll loop. All
//! socket I/O and payload (de)serialization stay outside, handing this
//! library plain bytes and taking plain bytes back.

use vstd::prelude::*;

pub mod ascii;
pub mod codec;
pub mod driver;
pub mod http;

verus! {

/// Failures of the HTTP client core.
#[derive(Debug, Clone, PartialEq, Eq)]
pub enum HttpError {
    /// The 12 bytes beginning a response were not `HTTP/1.1 ` plus three digits.
    MalformedResponse,
    /// The response status was 400 or above; carries the numeric code.
    ErrorCode(u16),
    /// A chunk-size line of a chunked body did not parse as hexadecimal.
    InvalidChunkLength,
    /// The body ended before its framing said it would.
    Truncated,
    /// The fetch response carried no correlation identifier.
    MissingRequestId,
    /// Neither chunked nor fixed-length framing could be determined.
    UnknownBodyLength,
    /// Any other invalid wire data, with a message.
    Invalid(String),
}

} // verus!
