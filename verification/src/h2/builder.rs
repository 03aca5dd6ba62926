//! Builder for the HTTP/2 service front end.
//!
//! The builder only assembles values: a service factory and a TLS acceptor
//! factory.  Driving the handshake and the protocol belongs to the
//! unverified shell.

use vstd::prelude::*;
use core::marker::PhantomData;

verus! {

/// A TLS acceptor factory that passes the plain stream through.
pub struct NoOpTlsAcceptorFactory;

/// TLS acceptor factory backed by a shared rustls server configuration.
pub struct TlsAcceptorService {
    pub config: std::sync::Arc<rustls::ServerConfig>,
}

#[verifier::external_type_specification]
#[verifier::external_body]
pub struct ExServerConfig(rustls::ServerConfig);

/// Builder for an HTTP/2 service: the request-handling factory and the TLS
/// acceptor factory it will run behind.
pub struct H2ServiceBuilder<St, F, AF> {
    pub factory: F,
    pub tls_factory: AF,
    pub _phantom: PhantomData<St>,
}

impl<St, F> H2ServiceBuilder<St, F, NoOpTlsAcceptorFactory> {
    /// Construct a new service builder with the given service factory and
    /// no TLS.
    pub fn new(factory: F) -> (r: Self)
        ensures
            r.factory == factory,
            r.tls_factory == NoOpTlsAcceptorFactory,
    {
        H2ServiceBuilder { factory, tls_factory: NoOpTlsAcceptorFactory, _phantom: PhantomData }
    }
}

impl<St, F, AF> H2ServiceBuilder<St, F, AF> {
    /// Swaps in a caller-supplied TLS acceptor (an openssl acceptor in the
    /// unverified shell); the factory is kept.
    pub fn openssl<A>(self, acceptor: A) -> (r: H2ServiceBuilder<St, F, A>)
        ensures
            r.factory == self.factory,
            r.tls_factory == acceptor,
    {
        H2ServiceBuilder { factory: self.factory, tls_factory: acceptor, _phantom: PhantomData }
    }

    /// Swaps in a rustls acceptor built from the shared server
    /// configuration; the factory is kept.
    pub fn rustls(self, config: std::sync::Arc<rustls::ServerConfig>) -> (r: H2ServiceBuilder<
        St,
        F,
        TlsAcceptorService,
    >)
        ensures
            r.factory == self.factory,
            r.tls_factory.config == config,
    {
        H2ServiceBuilder {
            factory: self.factory,
            tls_factory: TlsAcceptorService { config },
            _phantom: PhantomData,
        }
    }
}

} // verus!
