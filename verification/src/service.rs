//! Service shells: values that pair a request handler with its
//! configuration and TLS acceptor, and the fallback handler.

use vstd::prelude::*;
use crate::body::ResponseBodySize;
use crate::config::HttpServiceConfig;
use crate::http::ResponseParts;
use crate::http::Version;

verus! {

/// The fallback service: answers every request with an empty 404.
pub struct NotFoundService;

impl NotFoundService {
    /// The head and size hint of the response given to any request.
    pub fn call(&self) -> (r: (ResponseParts, ResponseBodySize))
        ensures
            r.0.status == 404,
            r.0.version == Version::Http11,
            r.0.headers@.len() == 0,
            r.1 == ResponseBodySize::Empty,
    {
        (
            ResponseParts { status: 404, version: Version::Http11, headers: Vec::new() },
            ResponseBodySize::Empty,
        )
    }
}

/// An HTTP/1 service shell for completion-based socket backends: the
/// configuration, the request handler and the TLS acceptor, bundled for
/// the unverified driver.
pub struct H1UringService<S, A> {
    pub config: HttpServiceConfig,
    pub service: S,
    pub tls_acceptor: A,
}

impl<S, A> H1UringService<S, A> {
    pub fn new(config: HttpServiceConfig, service: S, tls_acceptor: A) -> (r: Self)
        ensures
            r.config == config,
            r.service == service,
            r.tls_acceptor == tls_acceptor,
    {
        H1UringService { config, service, tls_acceptor }
    }
}

} // verus!
