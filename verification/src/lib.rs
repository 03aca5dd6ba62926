//! Verified core of an HTTP/1.1 connection dispatcher.
//!
//! The crate models the per-connection machinery of an HTTP/1.1 server:
//! request-head parsing, transfer decoding and encoding, response-head
//! encoding, bounded read/write buffers, the request-body channel and the
//! connection-lifecycle state machine.  All protocol logic is verified;
//! socket readiness, timers and the application service are driven by an
//! unverified async shell that feeds events into the verified engine.

pub mod body;
pub mod bytebuf;
pub mod config;
pub mod h1;
pub mod h2;
pub mod http;
pub mod laws;
pub mod num;
pub mod scan;
pub mod service;

use vstd::prelude::*;

verus! {

/// Largest chunk size the chunked decoder accepts, `2^63 - 1`.
pub open spec fn max_chunk_size() -> u64 {
    0x7fff_ffff_ffff_ffffu64
}

} // verus!
