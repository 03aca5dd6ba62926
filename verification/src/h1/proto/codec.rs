//! Transfer-encoding kinds shared by the encoder.

use vstd::prelude::*;

verus! {

/// How the response body is framed on the wire.
#[derive(Clone, Copy, PartialEq, Eq, Structural, Debug)]
pub enum Kind {
    /// Body runs to end of connection; nothing is framed.
    Eof,
    /// Chunked transfer encoding with size lines and a terminator.
    EncodeChunked,
    /// Bytes pass through unframed (upgraded connections).
    PlainChunked,
    /// Fixed number of remaining body bytes.
    Length(u64),
}

} // verus!
