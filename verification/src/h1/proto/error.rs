//! Protocol-level errors of the HTTP/1.1 dispatcher.

use vstd::prelude::*;

verus! {

/// What exactly failed to parse or encode.
#[derive(Clone, Copy, PartialEq, Eq, Structural, Debug)]
pub enum Parse {
    /// The request line is malformed.
    RequestLine,
    /// The version token is not `HTTP/1.0` or `HTTP/1.1`.
    Version,
    /// A header line is malformed.
    HeaderName,
    /// A header value cannot be used (bad `content-length`, bad `connection`).
    HeaderValue,
    /// The head section holds too many headers or too many bytes.
    HeaderTooLarge,
    /// The service produced a status the encoder refuses (1xx except 101).
    StatusCode,
    /// A chunk-size line of a chunked body is malformed or oversized.
    ChunkSize,
}

/// Error at the protocol boundary.
#[derive(Clone, Copy, PartialEq, Eq, Structural, Debug)]
pub enum ProtoError {
    Parse(Parse),
}

impl ProtoError {
    /// The canned status answering a request that failed at the protocol
    /// boundary: 431 for an oversized head, 400 for anything else.
    pub fn status(&self) -> (r: u16)
        ensures
            r == if *self == ProtoError::Parse(Parse::HeaderTooLarge) {
                431u16
            } else {
                400u16
            },
    {
        match self {
            ProtoError::Parse(Parse::HeaderTooLarge) => 431,
            _ => 400,
        }
    }
}

} // verus!
