//! Transfer decoder: request-body bytes out of the read buffer.
//!
//! A decoder is `Eof` (no body), `Length` (fixed remaining count) or
//! `Chunked` (a state machine over `hex-size CRLF data CRLF ... 0 CRLF
//! trailers CRLF CRLF`).  `decode` consumes from the front of the read
//! buffer and yields body chunks; an empty chunk signals end of body.

use vstd::prelude::*;
use bytes::Bytes;
use bytes::BytesMut;
use crate::bytebuf::bytes_mut_view;
use crate::bytebuf::bytes_view;
use crate::bytebuf::bytes_mut_slice;
use crate::num::all_hex_digits;
use crate::num::hex_val;
use crate::num::parse_hex_u64;
use crate::scan::find_byte;
use crate::scan::find_byte_exec;
use crate::scan::find_crlf;
use crate::scan::find_crlf_exec;
use crate::scan::lemma_find_crlf;
use crate::scan::crlf_at;
use super::error::Parse;
use super::error::ProtoError;
use super::context::ConnectionType;
use super::context::Context;
use super::buf::ReadBuf;
use crate::http::HeaderPair;
use crate::http::RequestHead;
use crate::http::Version;
use crate::http::to_lower;
use crate::http::version_token;
use crate::http::eq_ignore_case;
use crate::num::all_dec_digits;
use crate::num::dec_val;
use crate::num::parse_dec_u64;
use crate::scan::find_crlfcrlf;
use crate::scan::find_crlfcrlf_exec;
use crate::scan::lemma_find_crlfcrlf;
use crate::scan::crlfcrlf_at;
use crate::scan::is_ws;
use crate::scan::trim_ws;
use crate::scan::trim_ws_exec;
use crate::scan::slice_eq;
use vstd::slice::slice_to_vec;
use vstd::string::StringSliceAdditionalSpecFns;

verus! {

/// Where the chunked decoder stands inside the chunked grammar.
#[derive(Clone, Copy, PartialEq, Eq, Structural, Debug)]
pub enum ChunkedState {
    /// Expecting a chunk-size line.
    Size,
    /// Inside chunk data; that many bytes are still owed.
    Data(u64),
    /// Expecting the CRLF that closes a data chunk.
    DataCrlf,
    /// After the zero-size chunk: discarding trailer lines until the empty
    /// line.
    Trailer,
    /// Terminator seen; the body is complete.
    End,
}

/// The framing of a request body.
#[derive(Clone, Copy, PartialEq, Eq, Structural, Debug)]
pub enum DecodeKind {
    /// No body.
    Eof,
    /// That many body bytes follow the head.
    Length(u64),
    /// Chunked transfer encoding.
    Chunked(ChunkedState),
}

/// Decoder for one request body.
pub struct TransferDecoding {
    pub kind: DecodeKind,
}

/// What one `decode` call does on a chunked body: the successor state, the
/// buffer remainder, and possibly an emitted chunk (empty = end of body).
pub enum ChunkedOutcome {
    NeedMore(ChunkedState, Seq<u8>),
    Emit(ChunkedState, Seq<u8>, Seq<u8>),
    Error,
}

/// One `decode` call of the chunked decoder, as a function of the state and
/// the buffered input.  The range guards on the recursive calls always hold
/// (`lemma_find_crlf`) and only discharge the termination check.
pub open spec fn spec_chunked_decode(st: ChunkedState, input: Seq<u8>) -> ChunkedOutcome
    decreases input.len(),
{
    match st {
        ChunkedState::Size => match find_crlf(input) {
            None => ChunkedOutcome::NeedMore(st, input),
            Some(p) => {
                let line = input.take(p);
                let token = match find_byte(line, 59) {
                    Some(c) => line.take(c),
                    None => line,
                };
                if !(token.len() > 0 && all_hex_digits(token) && hex_val(token)
                    <= crate::max_chunk_size()) {
                    ChunkedOutcome::Error
                } else if !(0 <= p && p + 2 <= input.len()) {
                    ChunkedOutcome::Error
                } else {
                    let rest = input.skip(p + 2);
                    if hex_val(token) == 0 {
                        spec_chunked_decode(ChunkedState::Trailer, rest)
                    } else {
                        spec_chunked_decode(ChunkedState::Data(hex_val(token) as u64), rest)
                    }
                }
            },
        },
        ChunkedState::Data(r) => {
            if input.len() == 0 {
                ChunkedOutcome::NeedMore(st, input)
            } else {
                let k = if r <= input.len() {
                    r as int
                } else {
                    input.len() as int
                };
                let st2 = if r == k {
                    ChunkedState::DataCrlf
                } else {
                    ChunkedState::Data((r - k) as u64)
                };
                ChunkedOutcome::Emit(st2, input.skip(k), input.take(k))
            }
        },
        ChunkedState::DataCrlf => {
            if input.len() < 2 {
                ChunkedOutcome::NeedMore(st, input)
            } else if input[0] == 13 && input[1] == 10 {
                spec_chunked_decode(ChunkedState::Size, input.skip(2))
            } else {
                ChunkedOutcome::Error
            }
        },
        ChunkedState::Trailer => match find_crlf(input) {
            None => ChunkedOutcome::NeedMore(st, input),
            Some(p) => {
                if p == 0 {
                    ChunkedOutcome::Emit(ChunkedState::End, input.skip(2), Seq::<u8>::empty())
                } else if !(0 <= p && p + 2 <= input.len()) {
                    ChunkedOutcome::Error
                } else {
                    spec_chunked_decode(ChunkedState::Trailer, input.skip(p + 2))
                }
            },
        },
        ChunkedState::End => ChunkedOutcome::NeedMore(st, input),
    }
}

/// A parsed request line: method, target, version.
pub open spec fn spec_parse_request_line(line: Seq<u8>) -> Option<(Seq<u8>, Seq<u8>, Version)> {
    match find_byte(line, 32) {
        None => None,
        Some(m) => {
            let method = line.take(m);
            let rest = line.skip(m + 1);
            match find_byte(rest, 32) {
                None => None,
                Some(t) => {
                    let target = rest.take(t);
                    let vtok = rest.skip(t + 1);
                    if method.len() == 0 || target.len() == 0 {
                        None
                    } else if vtok == version_token(Version::Http11) {
                        Some((method, target, Version::Http11))
                    } else if vtok == version_token(Version::Http10) {
                        Some((method, target, Version::Http10))
                    } else {
                        None
                    }
                },
            }
        },
    }
}

/// A parsed header line: lowercased name, value trimmed of surrounding
/// spaces and tabs.
pub open spec fn spec_parse_header_line(line: Seq<u8>) -> Option<(Seq<u8>, Seq<u8>)> {
    match find_byte(line, 58) {
        None => None,
        Some(c) => {
            let name = line.take(c);
            if name.len() == 0 || (exists|j: int| 0 <= j < name.len() && is_ws(#[trigger] name[j])) {
                None
            } else {
                Some((to_lower(name), trim_ws(line.skip(c + 1))))
            }
        },
    }
}

/// All header lines of a head section: `region` is a run of `line CRLF`
/// repetitions.  The range guard on the recursive call always holds and
/// only discharges the termination check.
pub open spec fn spec_parse_header_lines(region: Seq<u8>) -> Option<Seq<(Seq<u8>, Seq<u8>)>>
    decreases region.len(),
{
    if region.len() == 0 {
        Some(Seq::empty())
    } else {
        match find_crlf(region) {
            None => None,
            Some(p) => {
                if !(0 <= p && p + 2 <= region.len()) {
                    None
                } else {
                    match spec_parse_header_line(region.take(p)) {
                        None => None,
                        Some(h) => match spec_parse_header_lines(region.skip(p + 2)) {
                            None => None,
                            Some(t) => Some(seq![h] + t),
                        },
                    }
                }
            },
        }
    }
}

/// Outcome of one attempt to parse a head out of the buffered input.
pub enum HeadOutcome {
    /// No complete head is buffered yet.
    Incomplete,
    /// The head is malformed or oversized.
    Bad(Parse),
    /// A complete head: method, target, version, headers, and how many
    /// input bytes the head occupied.
    Head(Seq<u8>, Seq<u8>, Version, Seq<(Seq<u8>, Seq<u8>)>, int),
}

/// Parsing a request head from `input`: everything up to the first
/// CRLFCRLF is the head; the request line and each header line are parsed
/// as above; more headers than `header_limit` are refused.
pub open spec fn spec_parse_head(input: Seq<u8>, header_limit: int) -> HeadOutcome {
    match find_crlfcrlf(input) {
        None => HeadOutcome::Incomplete,
        Some(e) => {
            let lines = input.take(e + 2);
            match find_crlf(lines) {
                None => HeadOutcome::Bad(Parse::RequestLine),
                Some(p1) => match spec_parse_request_line(lines.take(p1)) {
                    None => HeadOutcome::Bad(Parse::RequestLine),
                    Some((method, target, version)) => match spec_parse_header_lines(
                        lines.skip(p1 + 2),
                    ) {
                        None => HeadOutcome::Bad(Parse::HeaderName),
                        Some(hs) => {
                            if hs.len() > header_limit {
                                HeadOutcome::Bad(Parse::HeaderTooLarge)
                            } else {
                                HeadOutcome::Head(method, target, version, hs, e + 4)
                            }
                        },
                    },
                },
            }
        },
    }
}

/// The headers of a request head as name/value byte strings.
pub open spec fn headers_view(hs: Seq<HeaderPair>) -> Seq<(Seq<u8>, Seq<u8>)> {
    hs.map_values(|h: HeaderPair| (h.name@, h.value@))
}

/// True iff `s` holds a space or tab.
fn has_ws(s: &[u8]) -> (r: bool)
    ensures
        r == exists|j: int| 0 <= j < s@.len() && is_ws(#[trigger] s@[j]),
{
    let mut i: usize = 0;
    while i < s.len()
        invariant
            0 <= i <= s@.len(),
            forall|j: int| 0 <= j < i ==> !is_ws(#[trigger] s@[j]),
        decreases s@.len() - i,
    {
        if s[i] == 32 || s[i] == 9 {
            proof {
                assert(is_ws(s@[i as int]));
            }
            return true;
        }
        i = i + 1;
    }
    false
}

/// Parses one request line.
fn parse_request_line(rl: &[u8]) -> (r: Result<(Vec<u8>, Vec<u8>, Version), ProtoError>)
    ensures
        match spec_parse_request_line(rl@) {
            None => r == Result::<(Vec<u8>, Vec<u8>, Version), ProtoError>::Err(
                ProtoError::Parse(Parse::RequestLine),
            ),
            Some((m, t, v)) => r matches Ok((mm, tt, vv)) && mm@ == m && tt@ == t && vv == v,
        },
{
    let n = rl.len();
    proof {
        crate::scan::lemma_find_byte(rl@, 32);
    }
    let m = match find_byte_exec(rl, 32) {
        None => {
            return Err(ProtoError::Parse(Parse::RequestLine));
        },
        Some(m) => m,
    };
    let method = &rl[0..m];
    let rest = &rl[m + 1..rl.len()];
    proof {
        assert(method@ =~= rl@.take(m as int));
        assert(rest@ =~= rl@.skip(m + 1));
        crate::scan::lemma_find_byte(rest@, 32);
    }
    let t = match find_byte_exec(rest, 32) {
        None => {
            return Err(ProtoError::Parse(Parse::RequestLine));
        },
        Some(t) => t,
    };
    let target = &rest[0..t];
    let vtok = &rest[t + 1..rest.len()];
    proof {
        assert(target@ =~= rest@.take(t as int));
        assert(vtok@ =~= rest@.skip(t + 1));
    }
    if method.len() == 0 || target.len() == 0 {
        return Err(ProtoError::Parse(Parse::RequestLine));
    }
    let version: Version;
    let v11 = crate::http::version_bytes(Version::Http11);
    let v10 = crate::http::version_bytes(Version::Http10);
    if slice_eq(vtok, v11.as_slice()) {
        version = Version::Http11;
    } else if slice_eq(vtok, v10.as_slice()) {
        version = Version::Http10;
    } else {
        return Err(ProtoError::Parse(Parse::RequestLine));
    }
    Ok((slice_to_vec(method), slice_to_vec(target), version))
}

/// Parses one header line.
fn parse_header_line(line: &[u8]) -> (r: Option<HeaderPair>)
    ensures
        match spec_parse_header_line(line@) {
            None => r is None,
            Some((n, v)) => r matches Some(h) && h.name@ == n && h.value@ == v,
        },
{
    let n = line.len();
    proof {
        crate::scan::lemma_find_byte(line@, 58);
    }
    let c = match find_byte_exec(line, 58) {
        None => {
            return None;
        },
        Some(c) => c,
    };
    let name = &line[0..c];
    proof {
        assert(name@ =~= line@.take(c as int));
    }
    if name.len() == 0 || has_ws(name) {
        return None;
    }
    let raw_value = &line[c + 1..line.len()];
    proof {
        assert(raw_value@ =~= line@.skip(c + 1));
    }
    let value = trim_ws_exec(raw_value);
    let mut lc: Vec<u8> = Vec::new();
    crate::http::put_lower(&mut lc, name);
    proof {
        assert(lc@ =~= to_lower(name@));
    }
    Some(HeaderPair { name: lc, value })
}

/// Parses a whole header region (`line CRLF` repetitions) and applies the
/// header-count limit.
fn parse_header_region(region: &[u8], header_limit: usize) -> (r: Result<Vec<HeaderPair>, ProtoError>)
    ensures
        match spec_parse_header_lines(region@) {
            None => r == Result::<Vec<HeaderPair>, ProtoError>::Err(
                ProtoError::Parse(Parse::HeaderName),
            ),
            Some(hs) => {
                if hs.len() > header_limit {
                    r == Result::<Vec<HeaderPair>, ProtoError>::Err(
                        ProtoError::Parse(Parse::HeaderTooLarge),
                    )
                } else {
                    r matches Ok(v) && headers_view(v@) == hs
                }
            },
        },
{
    let n = region.len();
    let mut headers: Vec<HeaderPair> = Vec::new();
    let mut pos: usize = 0;
    proof {
        assert(region@.skip(0) =~= region@);
        match spec_parse_header_lines(region@) {
            Some(t) => {
                assert(headers_view(headers@) + t =~= t);
            },
            None => {},
        }
    }
    while pos < n
        invariant
            0 <= pos <= n,
            n == region@.len(),
            spec_parse_header_lines(region@) == match spec_parse_header_lines(
                region@.skip(pos as int),
            ) {
                Some(t) => Some(headers_view(headers@) + t),
                None => None::<Seq<(Seq<u8>, Seq<u8>)>>,
            },
        decreases n - pos,
    {
        let ghost rem = region@.skip(pos as int);
        let rslice = &region[pos..n];
        proof {
            assert(rslice@ =~= rem);
            lemma_find_crlf(rem);
        }
        let p = match find_crlf_exec(rslice) {
            None => {
                return Err(ProtoError::Parse(Parse::HeaderName));
            },
            Some(p) => p,
        };
        proof {
            assert(crlf_at(rem, p as int));
        }
        let line = &rslice[0..p];
        proof {
            assert(line@ =~= rem.take(p as int));
        }
        let h = match parse_header_line(line) {
            None => {
                return Err(ProtoError::Parse(Parse::HeaderName));
            },
            Some(h) => h,
        };
        let ghost hv_old = headers_view(headers@);
        let ghost hview = (h.name@, h.value@);
        headers.push(h);
        proof {
            assert(headers_view(headers@) =~= hv_old + seq![hview]);
        }
        pos = pos + p + 2;
        proof {
            assert(region@.skip(pos as int) =~= rem.skip(p + 2));
            match spec_parse_header_lines(region@.skip(pos as int)) {
                Some(t) => {
                    assert(spec_parse_header_lines(rem) == Some(seq![hview] + t));
                    assert(hv_old + (seq![hview] + t) =~= (hv_old + seq![hview]) + t);
                },
                None => {
                    assert(spec_parse_header_lines(rem) is None);
                },
            }
        }
    }
    proof {
        assert(region@.skip(pos as int) =~= Seq::<u8>::empty());
        assert(spec_parse_header_lines(region@) == Some(
            headers_view(headers@) + Seq::<(Seq<u8>, Seq<u8>)>::empty(),
        ));
        assert(headers_view(headers@) + Seq::<(Seq<u8>, Seq<u8>)>::empty() =~= headers_view(
            headers@,
        ));
    }
    if headers.len() > header_limit {
        return Err(ProtoError::Parse(Parse::HeaderTooLarge));
    }
    Ok(headers)
}

/// Value of the first header with the given name, which must already be
/// lowercase.
pub open spec fn spec_header_value(hs: Seq<(Seq<u8>, Seq<u8>)>, name: Seq<u8>) -> Option<Seq<u8>>
    decreases hs.len(),
{
    if hs.len() == 0 {
        None
    } else if hs[0].0 == name {
        Some(hs[0].1)
    } else {
        spec_header_value(hs.skip(1), name)
    }
}

/// First value of the header with the given lowercase name.
fn header_value<'a>(headers: &'a Vec<HeaderPair>, name: &[u8]) -> (r: Option<&'a Vec<u8>>)
    ensures
        match spec_header_value(headers_view(headers@), name@) {
            None => r is None,
            Some(v) => r matches Some(rv) && rv@ == v,
        },
{
    let ghost hv = headers_view(headers@);
    let mut i: usize = 0;
    proof {
        assert(hv.skip(0) =~= hv);
    }
    while i < headers.len()
        invariant
            0 <= i <= headers@.len(),
            hv == headers_view(headers@),
            hv.len() == headers@.len(),
            spec_header_value(hv, name@) == spec_header_value(hv.skip(i as int), name@),
        decreases headers@.len() - i,
    {
        if slice_eq(headers[i].name.as_slice(), name) {
            proof {
                assert(hv.skip(i as int)[0] == hv[i as int]);
            }
            return Some(&headers[i].value);
        }
        proof {
            assert(hv.skip(i as int)[0] == hv[i as int]);
            assert(hv.skip(i as int).skip(1) =~= hv.skip(i + 1));
        }
        i = i + 1;
    }
    proof {
        assert(hv.skip(i as int).len() == 0);
    }
    None
}

/// Applying one `Connection` token to the current connection type.  The
/// `upgrade` token only counts where an upgrade is possible (any request;
/// only a 101 response).
pub open spec fn spec_conn_apply(cur: ConnectionType, token: Seq<u8>, allow_upgrade: bool) -> ConnectionType {
    if token == "close".spec_bytes() {
        ConnectionType::Close
    } else if token == "keep-alive".spec_bytes() {
        ConnectionType::KeepAlive
    } else if token == "upgrade".spec_bytes() && allow_upgrade {
        ConnectionType::Upgrade
    } else {
        cur
    }
}

/// Folding a whole comma-separated `Connection` value, token by token,
/// each trimmed and lowercased.  The range guard always holds and only
/// discharges the termination check.
pub open spec fn spec_conn_fold(cur: ConnectionType, value: Seq<u8>, allow_upgrade: bool) -> ConnectionType
    decreases value.len(),
{
    match find_byte(value, 44) {
        None => spec_conn_apply(cur, to_lower(trim_ws(value)), allow_upgrade),
        Some(c) => {
            if 0 <= c && c + 1 <= value.len() {
                spec_conn_fold(
                    spec_conn_apply(cur, to_lower(trim_ws(value.take(c))), allow_upgrade),
                    value.skip(c + 1),
                    allow_upgrade,
                )
            } else {
                cur
            }
        },
    }
}

fn conn_apply(cur: ConnectionType, token: &[u8], allow_upgrade: bool) -> (r: ConnectionType)
    ensures
        r == spec_conn_apply(cur, to_lower(trim_ws(token@)), allow_upgrade),
{
    let t = trim_ws_exec(token);
    if eq_ignore_case(t.as_slice(), "close".as_bytes()) {
        ConnectionType::Close
    } else if eq_ignore_case(t.as_slice(), "keep-alive".as_bytes()) {
        ConnectionType::KeepAlive
    } else if eq_ignore_case(t.as_slice(), "upgrade".as_bytes()) && allow_upgrade {
        ConnectionType::Upgrade
    } else {
        cur
    }
}

/// Scans a `Connection` header value and folds its tokens into the
/// connection type.
pub(crate) fn conn_ctype(value: &[u8], default: ConnectionType, allow_upgrade: bool) -> (r: ConnectionType)
    ensures
        r == spec_conn_fold(default, value@, allow_upgrade),
{
    let n = value.len();
    let mut cur = default;
    let mut pos: usize = 0;
    proof {
        assert(value@.skip(0) =~= value@);
    }
    loop
        invariant
            0 <= pos <= n,
            n == value@.len(),
            spec_conn_fold(default, value@, allow_upgrade) == spec_conn_fold(
                cur,
                value@.skip(pos as int),
                allow_upgrade,
            ),
        decreases n - pos,
    {
        let ghost rem = value@.skip(pos as int);
        let rslice = &value[pos..n];
        proof {
            assert(rslice@ =~= rem);
            crate::scan::lemma_find_byte(rem, 44);
        }
        match find_byte_exec(rslice, 44) {
            None => {
                return conn_apply(cur, rslice, allow_upgrade);
            },
            Some(c) => {
                let token = &rslice[0..c];
                proof {
                    assert(token@ =~= rem.take(c as int));
                }
                cur = conn_apply(cur, token, allow_upgrade);
                pos = pos + c + 1;
                proof {
                    assert(value@.skip(pos as int) =~= rem.skip(c + 1));
                }
            },
        }
    }
}

/// The body framing a request head calls for: chunked beats
/// content-length; a malformed content-length is refused.
pub open spec fn spec_req_decoder(hs: Seq<(Seq<u8>, Seq<u8>)>) -> Option<DecodeKind> {
    match spec_header_value(hs, "transfer-encoding".spec_bytes()) {
        Some(v) => {
            if to_lower(v) == "chunked".spec_bytes() {
                Some(DecodeKind::Chunked(ChunkedState::Size))
            } else {
                spec_req_decoder_cl(hs)
            }
        },
        None => spec_req_decoder_cl(hs),
    }
}

pub open spec fn spec_req_decoder_cl(hs: Seq<(Seq<u8>, Seq<u8>)>) -> Option<DecodeKind> {
    match spec_header_value(hs, "content-length".spec_bytes()) {
        None => Some(DecodeKind::Eof),
        Some(v) => {
            if v.len() > 0 && all_dec_digits(v) && dec_val(v) <= u64::MAX {
                Some(DecodeKind::Length(dec_val(v) as u64))
            } else {
                None
            }
        },
    }
}

fn request_decoder(headers: &Vec<HeaderPair>) -> (r: Result<TransferDecoding, ProtoError>)
    ensures
        match spec_req_decoder(headers_view(headers@)) {
            None => r == Result::<TransferDecoding, ProtoError>::Err(
                ProtoError::Parse(Parse::HeaderValue),
            ),
            Some(k) => r matches Ok(d) && d.kind == k,
        },
{
    let te_chunked = match header_value(headers, "transfer-encoding".as_bytes()) {
        Some(v) => eq_ignore_case(v.as_slice(), "chunked".as_bytes()),
        None => false,
    };
    if te_chunked {
        return Ok(TransferDecoding::chunked());
    }
    match header_value(headers, "content-length".as_bytes()) {
        None => Ok(TransferDecoding::eof()),
        Some(v) => match parse_dec_u64(v.as_slice()) {
            Some(nv) => Ok(TransferDecoding::length(nv)),
            None => Err(ProtoError::Parse(Parse::HeaderValue)),
        },
    }
}

/// Whether the head announces `Expect: 100-continue`.
pub open spec fn spec_expect(hs: Seq<(Seq<u8>, Seq<u8>)>) -> bool {
    match spec_header_value(hs, "expect".spec_bytes()) {
        Some(v) => to_lower(v) == "100-continue".spec_bytes(),
        None => false,
    }
}

/// The connection type the head calls for: the `Connection` header tokens
/// folded over the version default (1.1 keeps alive, 1.0 closes).
pub open spec fn spec_req_ctype(hs: Seq<(Seq<u8>, Seq<u8>)>, version: Version) -> ConnectionType {
    let default = if version == Version::Http11 {
        ConnectionType::KeepAlive
    } else {
        ConnectionType::Close
    };
    match spec_header_value(hs, "connection".spec_bytes()) {
        None => default,
        Some(v) => spec_conn_fold(default, v, true),
    }
}

impl Context {
    /// Parses one request head out of the read buffer.
    ///
    /// `Ok(None)` asks for more input; once the buffer is full without a
    /// complete head, the head counts as too large.  On success the head
    /// bytes are consumed, the request-scoped flags and the connection
    /// type are set from the head, and the matching body decoder is
    /// returned.
    pub fn decode_head(&mut self, rb: &mut ReadBuf) -> (r: Result<
        Option<(RequestHead, TransferDecoding)>,
        ProtoError,
    >)
        ensures
            match spec_parse_head(old(rb).bytes(), old(self).header_limit as int) {
                HeadOutcome::Incomplete => {
                    if old(rb).bytes().len() >= old(rb).limit {
                        r == Result::<Option<(RequestHead, TransferDecoding)>, ProtoError>::Err(
                            ProtoError::Parse(Parse::HeaderTooLarge),
                        ) && *final(self) == *old(self) && *final(rb) == *old(rb)
                    } else {
                        (r matches Ok(o) && o is None) && *final(self) == *old(self) && *final(rb)
                            == *old(rb)
                    }
                },
                HeadOutcome::Bad(p) => r == Result::<
                    Option<(RequestHead, TransferDecoding)>,
                    ProtoError,
                >::Err(ProtoError::Parse(p)) && *final(self) == *old(self) && *final(rb) == *old(
                    rb,
                ),
                HeadOutcome::Head(m, t, ver, hs, consumed) => match spec_req_decoder(hs) {
                    None => r == Result::<Option<(RequestHead, TransferDecoding)>, ProtoError>::Err(
                        ProtoError::Parse(Parse::HeaderValue),
                    ) && *final(self) == *old(self) && *final(rb) == *old(rb),
                    Some(k) => (r matches Ok(o) && (o matches Some(hd) && hd.0.method@ == m
                        && hd.0.target@ == t && hd.0.version == ver && headers_view(hd.0.headers@)
                        == hs && hd.1.kind == k)) && final(rb).bytes() == old(rb).bytes().skip(
                        consumed,
                    ) && final(rb).limit == old(rb).limit && *final(self) == (Context {
                        ctype: spec_req_ctype(hs, ver),
                        expect_header: spec_expect(hs),
                        connect_method: m == "CONNECT".spec_bytes(),
                        ..*old(self)
                    }),
                },
            },
    {
        let n = rb.buf.len();
        let ghost v0 = bytes_mut_view(rb.buf);
        let e_opt = find_crlfcrlf_exec(bytes_mut_slice(&rb.buf));
        let e = match e_opt {
            None => {
                if n >= rb.limit {
                    return Err(ProtoError::Parse(Parse::HeaderTooLarge));
                }
                return Ok(None);
            },
            Some(e) => e,
        };
        proof {
            lemma_find_crlfcrlf(v0);
            assert(crlfcrlf_at(v0, e as int));
        }
        let (method, target, version, headers) = {
            let s = bytes_mut_slice(&rb.buf);
            let lines = &s[0..e + 2];
            proof {
                assert(lines@ =~= v0.take(e + 2));
            }
            let p1 = match find_crlf_exec(lines) {
                None => {
                    return Err(ProtoError::Parse(Parse::RequestLine));
                },
                Some(p1) => p1,
            };
            proof {
                lemma_find_crlf(lines@);
                assert(crlf_at(lines@, p1 as int));
            }
            let rl = &lines[0..p1];
            proof {
                assert(rl@ =~= lines@.take(p1 as int));
            }
            let (method, target, version) = match parse_request_line(rl) {
                Err(pe) => {
                    return Err(pe);
                },
                Ok(x) => x,
            };
            let region = &lines[p1 + 2..lines.len()];
            proof {
                assert(region@ =~= lines@.skip(p1 + 2));
            }
            let headers = match parse_header_region(region, self.header_limit) {
                Err(pe) => {
                    return Err(pe);
                },
                Ok(h) => h,
            };
            (method, target, version, headers)
        };
        let is_connect = slice_eq(method.as_slice(), "CONNECT".as_bytes());
        let expect = match header_value(&headers, "expect".as_bytes()) {
            Some(v) => eq_ignore_case(v.as_slice(), "100-continue".as_bytes()),
            None => false,
        };
        let default_ct = if version == Version::Http11 {
            ConnectionType::KeepAlive
        } else {
            ConnectionType::Close
        };
        let ctype = match header_value(&headers, "connection".as_bytes()) {
            Some(v) => conn_ctype(v.as_slice(), default_ct, true),
            None => default_ct,
        };
        let dec = match request_decoder(&headers) {
            Err(pe) => {
                return Err(pe);
            },
            Ok(d) => d,
        };
        bytes::Buf::advance(&mut rb.buf, e + 4);
        self.ctype = ctype;
        self.expect_header = expect;
        self.connect_method = is_connect;
        let head = RequestHead { method, target, version, headers };
        Ok(Some((head, dec)))
    }
}

/// One chunked-decoder call never produces more than it consumes: the
/// remainder plus the emitted data fit in the input.
pub proof fn lemma_chunked_consumes(st: ChunkedState, input: Seq<u8>)
    ensures
        match spec_chunked_decode(st, input) {
            ChunkedOutcome::NeedMore(st2, rest) => rest.len() <= input.len(),
            ChunkedOutcome::Emit(st2, rest, data) => rest.len() + data.len() <= input.len(),
            ChunkedOutcome::Error => true,
        },
    decreases input.len(),
{
    match st {
        ChunkedState::Size => {
            match find_crlf(input) {
                None => {},
                Some(p) => {
                    let line = input.take(p);
                    let token = match find_byte(line, 59) {
                        Some(c) => line.take(c),
                        None => line,
                    };
                    if token.len() > 0 && all_hex_digits(token) && hex_val(token)
                        <= crate::max_chunk_size() && 0 <= p && p + 2 <= input.len() {
                        if hex_val(token) == 0 {
                            lemma_chunked_consumes(ChunkedState::Trailer, input.skip(p + 2));
                        } else {
                            lemma_chunked_consumes(
                                ChunkedState::Data(hex_val(token) as u64),
                                input.skip(p + 2),
                            );
                        }
                    }
                },
            }
        },
        ChunkedState::Data(r) => {},
        ChunkedState::DataCrlf => {
            if input.len() >= 2 && input[0] == 13 && input[1] == 10 {
                lemma_chunked_consumes(ChunkedState::Size, input.skip(2));
            }
        },
        ChunkedState::Trailer => {
            match find_crlf(input) {
                None => {},
                Some(p) => {
                    if p != 0 && 0 <= p && p + 2 <= input.len() {
                        lemma_chunked_consumes(ChunkedState::Trailer, input.skip(p + 2));
                    }
                },
            }
        },
        ChunkedState::End => {},
    }
}

/// Largest chunk size accepted, `2^63 - 1`.
pub fn max_chunk_size_exec() -> (r: u64)
    ensures
        r == crate::max_chunk_size(),
{
    0x7fff_ffff_ffff_ffff
}

/// Runs the chunked decoder against the buffered bytes.
fn decode_chunked(st: &mut ChunkedState, buf: &mut BytesMut) -> (r: Result<Option<Bytes>, ProtoError>)
    ensures
        match (spec_chunked_decode(*old(st), bytes_mut_view(*old(buf))), r) {
            (ChunkedOutcome::NeedMore(st2, rest), Ok(rr)) => rr is None && *final(st) == st2
                && bytes_mut_view(*final(buf)) == rest,
            (ChunkedOutcome::Emit(st2, rest, data), Ok(rr)) => (rr matches Some(bb)
                && bytes_view(bb) == data) && *final(st) == st2
                && bytes_mut_view(*final(buf)) == rest,
            (ChunkedOutcome::Error, Err(e)) => e == ProtoError::Parse(Parse::ChunkSize),
            _ => false,
        },
{
    loop
        invariant
            spec_chunked_decode(*st, bytes_mut_view(*buf)) == spec_chunked_decode(
                *old(st),
                bytes_mut_view(*old(buf)),
            ),
        decreases bytes_mut_view(*buf).len(),
    {
        let ghost v0 = bytes_mut_view(*buf);
        let ghost s0 = *st;
        match *st {
            ChunkedState::Size => {
                let p_opt = find_crlf_exec(bytes_mut_slice(&*buf));
                let p = match p_opt {
                    None => {
                        return Ok(None);
                    },
                    Some(p) => p,
                };
                proof {
                    lemma_find_crlf(v0);
                    assert(crlf_at(v0, p as int));
                }
                let n = buf.len();
                let sz_opt = {
                    let s = bytes_mut_slice(&*buf);
                    let line = &s[0..p];
                    proof {
                        assert(line@ =~= v0.take(p as int));
                    }
                    proof {
                        crate::scan::lemma_find_byte(line@, 59);
                    }
                    let token = match find_byte_exec(line, 59) {
                        Some(c) => &line[0..c],
                        None => line,
                    };
                    proof {
                        assert(token@ =~= match find_byte(v0.take(p as int), 59) {
                            Some(c) => v0.take(p as int).take(c),
                            None => v0.take(p as int),
                        });
                    }
                    parse_hex_u64(token, max_chunk_size_exec())
                };
                match sz_opt {
                    None => {
                        return Err(ProtoError::Parse(Parse::ChunkSize));
                    },
                    Some(sz) => {
                        bytes::Buf::advance(&mut *buf, p + 2);
                        if sz == 0 {
                            *st = ChunkedState::Trailer;
                        } else {
                            *st = ChunkedState::Data(sz);
                        }
                        proof {
                            assert(spec_chunked_decode(s0, v0) == spec_chunked_decode(
                                *st,
                                bytes_mut_view(*buf),
                            ));
                        }
                    },
                }
            },
            ChunkedState::Data(r) => {
                let n = buf.len();
                if n == 0 {
                    return Ok(None);
                }
                let k: usize = if r <= n as u64 {
                    r as usize
                } else {
                    n
                };
                let chunk = buf.split_to(k);
                let b = chunk.freeze();
                if r == k as u64 {
                    *st = ChunkedState::DataCrlf;
                } else {
                    *st = ChunkedState::Data(r - k as u64);
                }
                return Ok(Some(b));
            },
            ChunkedState::DataCrlf => {
                let n = buf.len();
                if n < 2 {
                    return Ok(None);
                }
                let ok = {
                    let s = bytes_mut_slice(&*buf);
                    s[0] == 13 && s[1] == 10
                };
                if !ok {
                    return Err(ProtoError::Parse(Parse::ChunkSize));
                }
                bytes::Buf::advance(&mut *buf, 2);
                *st = ChunkedState::Size;
                proof {
                    assert(spec_chunked_decode(s0, v0) == spec_chunked_decode(
                        *st,
                        bytes_mut_view(*buf),
                    ));
                }
            },
            ChunkedState::Trailer => {
                let p_opt = find_crlf_exec(bytes_mut_slice(&*buf));
                let p = match p_opt {
                    None => {
                        return Ok(None);
                    },
                    Some(p) => p,
                };
                proof {
                    lemma_find_crlf(v0);
                    assert(crlf_at(v0, p as int));
                }
                if p == 0 {
                    bytes::Buf::advance(&mut *buf, 2);
                    *st = ChunkedState::End;
                    return Ok(Some(Bytes::new()));
                }
                let n = buf.len();
                bytes::Buf::advance(&mut *buf, p + 2);
                proof {
                    assert(spec_chunked_decode(s0, v0) == spec_chunked_decode(
                        *st,
                        bytes_mut_view(*buf),
                    ));
                }
            },
            ChunkedState::End => {
                return Ok(None);
            },
        }
    }
}

impl TransferDecoding {
    /// The body framing has nothing to deliver (no body at all).
    pub fn eof() -> (r: TransferDecoding)
        ensures
            r.kind == DecodeKind::Eof,
    {
        TransferDecoding { kind: DecodeKind::Eof }
    }

    /// A body of exactly `len` bytes.
    pub fn length(len: u64) -> (r: TransferDecoding)
        ensures
            r.kind == DecodeKind::Length(len),
    {
        TransferDecoding { kind: DecodeKind::Length(len) }
    }

    /// A chunked body, starting before the first size line.
    pub fn chunked() -> (r: TransferDecoding)
        ensures
            r.kind == DecodeKind::Chunked(ChunkedState::Size),
    {
        TransferDecoding { kind: DecodeKind::Chunked(ChunkedState::Size) }
    }

    pub open spec fn spec_is_eof(self) -> bool {
        match self.kind {
            DecodeKind::Eof => true,
            DecodeKind::Length(n) => n == 0,
            DecodeKind::Chunked(st) => st == ChunkedState::End,
        }
    }

    /// True iff the decoder can never deliver another byte.
    pub fn is_eof(&self) -> (r: bool)
        ensures
            r == self.spec_is_eof(),
    {
        match self.kind {
            DecodeKind::Eof => true,
            DecodeKind::Length(n) => n == 0,
            DecodeKind::Chunked(st) => st == ChunkedState::End,
        }
    }

    /// Decodes the next piece of body out of the buffered bytes.
    ///
    /// `Ok(Some(chunk))` delivers body bytes (an empty chunk exactly once,
    /// at end of body); `Ok(None)` means more input is needed; `Err` means
    /// the chunked framing is malformed.
    pub fn decode(&mut self, buf: &mut BytesMut) -> (r: Result<Option<Bytes>, ProtoError>)
        ensures
            match old(self).kind {
                DecodeKind::Eof => r matches Ok(rr) && rr is None && *final(self) == *old(self)
                    && bytes_mut_view(*final(buf)) == bytes_mut_view(*old(buf)),
                DecodeKind::Length(rem) => {
                    if rem == 0 {
                        (r matches Ok(rr) && (rr matches Some(bb) && bytes_view(bb).len() == 0))
                            && final(self).kind == DecodeKind::Eof
                            && bytes_mut_view(*final(buf)) == bytes_mut_view(*old(buf))
                    } else if bytes_mut_view(*old(buf)).len() == 0 {
                        (r matches Ok(rr) && rr is None) && *final(self) == *old(self)
                            && bytes_mut_view(*final(buf)) == bytes_mut_view(*old(buf))
                    } else {
                        let k = if rem <= bytes_mut_view(*old(buf)).len() {
                            rem as int
                        } else {
                            bytes_mut_view(*old(buf)).len() as int
                        };
                        (r matches Ok(rr) && (rr matches Some(bb) && bytes_view(bb)
                            == bytes_mut_view(*old(buf)).take(k)))
                            && final(self).kind == DecodeKind::Length((rem - k) as u64)
                            && bytes_mut_view(*final(buf)) == bytes_mut_view(*old(buf)).skip(k)
                    }
                },
                DecodeKind::Chunked(st) => match (spec_chunked_decode(st, bytes_mut_view(*old(buf))), r) {
                    (ChunkedOutcome::NeedMore(st2, rest), Ok(rr)) => rr is None
                        && final(self).kind == DecodeKind::Chunked(st2)
                        && bytes_mut_view(*final(buf)) == rest,
                    (ChunkedOutcome::Emit(st2, rest, data), Ok(rr)) => (rr matches Some(bb)
                        && bytes_view(bb) == data) && final(self).kind == DecodeKind::Chunked(st2)
                        && bytes_mut_view(*final(buf)) == rest,
                    (ChunkedOutcome::Error, Err(e)) => e == ProtoError::Parse(Parse::ChunkSize),
                    _ => false,
                },
            },
    {
        match self.kind {
            DecodeKind::Eof => Ok(None),
            DecodeKind::Length(rem) => {
                if rem == 0 {
                    self.kind = DecodeKind::Eof;
                    return Ok(Some(Bytes::new()));
                }
                let n = buf.len();
                if n == 0 {
                    return Ok(None);
                }
                let k: usize = if rem <= n as u64 {
                    rem as usize
                } else {
                    n
                };
                let chunk = buf.split_to(k);
                let b = chunk.freeze();
                self.kind = DecodeKind::Length(rem - k as u64);
                Ok(Some(b))
            },
            DecodeKind::Chunked(st) => {
                let mut state = st;
                let r = decode_chunked(&mut state, buf);
                self.kind = DecodeKind::Chunked(state);
                r
            },
        }
    }
}

} // verus!
