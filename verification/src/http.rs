//! Plain data model for HTTP/1.1 message heads.
//!
//! Methods, targets, header names and header values are byte strings as they
//! appear on the wire; versions and status codes are small enums and
//! integers.  Contracts elsewhere speak of these values through their
//! sequence views.

use vstd::prelude::*;
use vstd::string::StringSliceAdditionalSpecFns;

verus! {

#[derive(Clone, Copy, PartialEq, Eq, Structural, Debug)]
pub enum Version {
    Http10,
    Http11,
}

/// One header: name and value as raw bytes.
pub struct HeaderPair {
    pub name: Vec<u8>,
    pub value: Vec<u8>,
}

/// A parsed request head.
pub struct RequestHead {
    pub method: Vec<u8>,
    pub target: Vec<u8>,
    pub version: Version,
    pub headers: Vec<HeaderPair>,
}

/// The head of a response handed back by the service.
pub struct ResponseParts {
    pub status: u16,
    pub version: Version,
    pub headers: Vec<HeaderPair>,
}

pub open spec fn is_informational(status: u16) -> bool {
    100 <= status <= 199
}

pub open spec fn is_success(status: u16) -> bool {
    200 <= status <= 299
}

/// The version token as written in a request line or status line:
/// `HTTP/1.0` or `HTTP/1.1`.
pub open spec fn version_token(v: Version) -> Seq<u8> {
    match v {
        Version::Http10 => seq![72u8, 84u8, 84u8, 80u8, 47u8, 49u8, 46u8, 48u8],
        Version::Http11 => seq![72u8, 84u8, 84u8, 80u8, 47u8, 49u8, 46u8, 49u8],
    }
}

/// The version token as a byte vector.
pub fn version_bytes(v: Version) -> (r: Vec<u8>)
    ensures
        r@ == version_token(v),
{
    let mut r: Vec<u8> = Vec::new();
    r.push(72);
    r.push(84);
    r.push(84);
    r.push(80);
    r.push(47);
    r.push(49);
    r.push(46);
    match v {
        Version::Http10 => r.push(48),
        Version::Http11 => r.push(49),
    }
    proof {
        assert(r@ =~= version_token(v));
    }
    r
}

/// ASCII lowercase of one byte.
pub open spec fn lower_byte(b: u8) -> u8 {
    if 65 <= b <= 90 {
        (b + 32) as u8
    } else {
        b
    }
}

/// ASCII lowercase of a byte string.
pub open spec fn to_lower(s: Seq<u8>) -> Seq<u8> {
    s.map_values(|b: u8| lower_byte(b))
}

/// Appends the bytes of an ASCII string slice.
pub fn put_str(out: &mut Vec<u8>, s: &str)
    ensures
        final(out)@ == old(out)@ + s.spec_bytes(),
{
    out.extend_from_slice(s.as_bytes());
}

fn lower_byte_exec(b: u8) -> (r: u8)
    ensures
        r == lower_byte(b),
{
    if 65 <= b && b <= 90 {
        b + 32
    } else {
        b
    }
}

/// Appends the ASCII-lowercased bytes of `s`.
pub fn put_lower(out: &mut Vec<u8>, s: &[u8])
    ensures
        final(out)@ == old(out)@ + to_lower(s@),
{
    let mut i: usize = 0;
    while i < s.len()
        invariant
            0 <= i <= s@.len(),
            out@ == old(out)@ + to_lower(s@.take(i as int)),
        decreases s@.len() - i,
    {
        out.push(lower_byte_exec(s[i]));
        proof {
            assert(to_lower(s@.take(i + 1)) =~= to_lower(s@.take(i as int)).push(lower_byte(s@[i as int])));
            assert(out@ =~= old(out)@ + to_lower(s@.take(i + 1)));
        }
        i = i + 1;
    }
    proof {
        assert(s@.take(s@.len() as int) =~= s@);
    }
}

/// True iff `name` equals `lower` up to ASCII case, `lower` given lowercase.
pub fn eq_ignore_case(name: &[u8], lower: &[u8]) -> (r: bool)
    ensures
        r == (to_lower(name@) == lower@),
{
    if name.len() != lower.len() {
        proof {
            assert(to_lower(name@).len() == name@.len());
        }
        return false;
    }
    let mut i: usize = 0;
    while i < name.len()
        invariant
            0 <= i <= name@.len(),
            name@.len() == lower@.len(),
            forall|j: int| 0 <= j < i ==> to_lower(name@)[j] == lower@[j],
        decreases name@.len() - i,
    {
        if lower_byte_exec(name[i]) != lower[i] {
            proof {
                assert(to_lower(name@)[i as int] != lower@[i as int]);
            }
            return false;
        }
        i = i + 1;
    }
    proof {
        assert(to_lower(name@) =~= lower@);
    }
    true
}

/// The canonical reason phrase written after the status code; statuses
/// outside the table get a placeholder, as many clients expect some text.
pub open spec fn spec_reason(status: u16) -> Seq<u8> {
    if status == 100 { "Continue".spec_bytes() }
    else if status == 101 { "Switching Protocols".spec_bytes() }
    else if status == 200 { "OK".spec_bytes() }
    else if status == 201 { "Created".spec_bytes() }
    else if status == 202 { "Accepted".spec_bytes() }
    else if status == 204 { "No Content".spec_bytes() }
    else if status == 206 { "Partial Content".spec_bytes() }
    else if status == 301 { "Moved Permanently".spec_bytes() }
    else if status == 302 { "Found".spec_bytes() }
    else if status == 303 { "See Other".spec_bytes() }
    else if status == 304 { "Not Modified".spec_bytes() }
    else if status == 307 { "Temporary Redirect".spec_bytes() }
    else if status == 308 { "Permanent Redirect".spec_bytes() }
    else if status == 400 { "Bad Request".spec_bytes() }
    else if status == 401 { "Unauthorized".spec_bytes() }
    else if status == 403 { "Forbidden".spec_bytes() }
    else if status == 404 { "Not Found".spec_bytes() }
    else if status == 405 { "Method Not Allowed".spec_bytes() }
    else if status == 408 { "Request Timeout".spec_bytes() }
    else if status == 411 { "Length Required".spec_bytes() }
    else if status == 413 { "Payload Too Large".spec_bytes() }
    else if status == 431 { "Request Header Fields Too Large".spec_bytes() }
    else if status == 500 { "Internal Server Error".spec_bytes() }
    else if status == 501 { "Not Implemented".spec_bytes() }
    else if status == 502 { "Bad Gateway".spec_bytes() }
    else if status == 503 { "Service Unavailable".spec_bytes() }
    else if status == 504 { "Gateway Timeout".spec_bytes() }
    else { "<none>".spec_bytes() }
}

/// Appends the reason phrase for `status`.
pub fn put_reason(out: &mut Vec<u8>, status: u16)
    ensures
        final(out)@ == old(out)@ + spec_reason(status),
{
    if status == 100 { put_str(out, "Continue"); }
    else if status == 101 { put_str(out, "Switching Protocols"); }
    else if status == 200 { put_str(out, "OK"); }
    else if status == 201 { put_str(out, "Created"); }
    else if status == 202 { put_str(out, "Accepted"); }
    else if status == 204 { put_str(out, "No Content"); }
    else if status == 206 { put_str(out, "Partial Content"); }
    else if status == 301 { put_str(out, "Moved Permanently"); }
    else if status == 302 { put_str(out, "Found"); }
    else if status == 303 { put_str(out, "See Other"); }
    else if status == 304 { put_str(out, "Not Modified"); }
    else if status == 307 { put_str(out, "Temporary Redirect"); }
    else if status == 308 { put_str(out, "Permanent Redirect"); }
    else if status == 400 { put_str(out, "Bad Request"); }
    else if status == 401 { put_str(out, "Unauthorized"); }
    else if status == 403 { put_str(out, "Forbidden"); }
    else if status == 404 { put_str(out, "Not Found"); }
    else if status == 405 { put_str(out, "Method Not Allowed"); }
    else if status == 408 { put_str(out, "Request Timeout"); }
    else if status == 411 { put_str(out, "Length Required"); }
    else if status == 413 { put_str(out, "Payload Too Large"); }
    else if status == 431 { put_str(out, "Request Header Fields Too Large"); }
    else if status == 500 { put_str(out, "Internal Server Error"); }
    else if status == 501 { put_str(out, "Not Implemented"); }
    else if status == 502 { put_str(out, "Bad Gateway"); }
    else if status == 503 { put_str(out, "Service Unavailable"); }
    else if status == 504 { put_str(out, "Gateway Timeout"); }
    else { put_str(out, "<none>"); }
}

} // verus!
