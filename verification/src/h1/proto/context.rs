//! Per-connection context: lifecycle state and request-scoped flags.

use vstd::prelude::*;

verus! {

/// The dispatcher's view of what to do with the socket after the current
/// request cycle.
#[derive(Clone, Copy, PartialEq, Eq, Structural, Debug)]
pub enum ConnectionType {
    /// Before the first successful request parse.
    Init,
    /// Connection is reused for the next request.
    KeepAlive,
    /// Connection closes after the current response.
    Close,
    /// Connection is handed off to an upgraded protocol.
    Upgrade,
}

/// Mutable per-connection state shared by the parser, the encoder and the
/// dispatcher loop.
pub struct Context {
    pub ctype: ConnectionType,
    pub expect_header: bool,
    pub connect_method: bool,
    pub force_close: bool,
    /// Most headers accepted in one request head.
    pub header_limit: usize,
    /// Snapshot of the shared formatted date, written into responses.
    pub date: Vec<u8>,
}

impl Context {
    pub open spec fn spec_ctype(self) -> ConnectionType {
        self.ctype
    }

    pub open spec fn spec_is_expect_header(self) -> bool {
        self.expect_header
    }

    pub open spec fn spec_is_connect_method(self) -> bool {
        self.connect_method
    }

    pub open spec fn spec_is_force_close(self) -> bool {
        self.force_close
    }

    pub fn new(header_limit: usize, date: Vec<u8>) -> (r: Context)
        ensures
            r.spec_ctype() == ConnectionType::Init,
            !r.spec_is_expect_header(),
            !r.spec_is_connect_method(),
            !r.spec_is_force_close(),
            r.header_limit == header_limit,
            r.date == date,
    {
        Context {
            ctype: ConnectionType::Init,
            expect_header: false,
            connect_method: false,
            force_close: false,
            header_limit,
            date,
        }
    }

    pub fn ctype(&self) -> (r: ConnectionType)
        ensures
            r == self.spec_ctype(),
    {
        self.ctype
    }

    pub fn is_expect_header(&self) -> (r: bool)
        ensures
            r == self.spec_is_expect_header(),
    {
        self.expect_header
    }

    pub fn is_connect_method(&self) -> (r: bool)
        ensures
            r == self.spec_is_connect_method(),
    {
        self.connect_method
    }

    pub fn is_force_close(&self) -> (r: bool)
        ensures
            r == self.spec_is_force_close(),
    {
        self.force_close
    }

    /// Sticky: nothing in the library ever clears the flag again.
    pub fn set_force_close(&mut self)
        ensures
            *final(self) == (Context { force_close: true, ..*old(self) }),
    {
        self.force_close = true;
    }

    /// Replaces the cached formatted date.
    pub fn set_date(&mut self, date: Vec<u8>)
        ensures
            *final(self) == (Context { date, ..*old(self) }),
    {
        self.date = date;
    }

}

} // verus!
