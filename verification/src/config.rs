//! Service configuration: buffer caps and timeouts.

use vstd::prelude::*;

verus! {

/// Per-service limits and timeouts; durations are in milliseconds.
#[derive(Clone, Copy, PartialEq, Eq, Structural, Debug)]
pub struct HttpServiceConfig {
    /// Most headers accepted in one request head.
    pub header_limit: usize,
    /// Read-buffer byte cap; reads pause at this fill level.
    pub read_buf_limit: usize,
    /// Write-buffer byte cap; response production pauses at this level.
    pub write_buf_limit: usize,
    /// Idle timeout between requests on a kept-alive connection.
    pub keep_alive_timeout: u64,
    /// Deadline for parsing the first request head.
    pub request_head_timeout: u64,
    /// Deadline the TLS acceptor works under.
    pub tls_accept_timeout: u64,
    /// Disables vectored writes even where the socket supports them.
    pub force_flat_buf: bool,
}

impl HttpServiceConfig {
    pub fn new(header_limit: usize, read_buf_limit: usize, write_buf_limit: usize) -> (r: Self)
        ensures
            r == (HttpServiceConfig {
                header_limit,
                read_buf_limit,
                write_buf_limit,
                keep_alive_timeout: 75000u64,
                request_head_timeout: 5000u64,
                tls_accept_timeout: 3000u64,
                force_flat_buf: false,
            }),
    {
        HttpServiceConfig {
            header_limit,
            read_buf_limit,
            write_buf_limit,
            keep_alive_timeout: 75000,
            request_head_timeout: 5000,
            tls_accept_timeout: 3000,
            force_flat_buf: false,
        }
    }
}

} // verus!
