//! Transfer encoder: frames response-body bytes into the write buffer.

use vstd::prelude::*;
use bytes::Bytes;
use crate::bytebuf::bytes_view;
use crate::body::ResponseBodySize;
use crate::http::put_reason;
use crate::http::put_str;
use crate::http::spec_reason;
use crate::http::to_lower;
use crate::http::eq_ignore_case;
use crate::http::version_token;
use crate::http::ResponseParts;
use crate::http::Version;
use crate::http::is_informational;
use crate::http::is_success;
use crate::num::all_dec_digits;
use crate::num::dec_digits;
use crate::num::dec_val;
use crate::num::format_u64;
use crate::num::parse_dec_u64;
use super::buf::chunk_frame;
use super::buf::crlf;
use super::buf::last_chunk;
use super::buf::FlatWriteBuf;
use super::codec::Kind;
use super::context::ConnectionType;
use super::context::Context;
use super::decode::headers_view;
use super::decode::spec_conn_fold;
use super::decode::conn_ctype;
use super::error::Parse;
use super::error::ProtoError;
use vstd::string::StringSliceAdditionalSpecFns;

verus! {

/// Encoder for one response body; constructed by the head encoder to match
/// the framing headers it wrote.
pub struct TransferEncoding {
    pub kind: Kind,
}

/// The bytes `encode` appends to the write buffer for a call with `data`.
pub open spec fn spec_encode_emit(kind: Kind, data: Seq<u8>) -> Seq<u8> {
    if data.len() == 0 {
        Seq::<u8>::empty()
    } else {
        match kind {
            Kind::Eof => data,
            Kind::PlainChunked => data,
            Kind::EncodeChunked => chunk_frame(data),
            Kind::Length(rem) => data.take(if rem <= data.len() { rem as int } else { data.len() as int }),
        }
    }
}

/// The encoder state after a call of `encode` with `data`.
pub open spec fn spec_encode_next(kind: Kind, data: Seq<u8>) -> Kind {
    match kind {
        Kind::Length(rem) => {
            if data.len() == 0 {
                kind
            } else if rem <= data.len() {
                Kind::Length(0)
            } else {
                Kind::Length((rem - data.len()) as u64)
            }
        },
        _ => kind,
    }
}

impl TransferEncoding {
    pub fn eof() -> (r: TransferEncoding)
        ensures
            r.kind == Kind::Eof,
    {
        TransferEncoding { kind: Kind::Eof }
    }

    pub fn chunked() -> (r: TransferEncoding)
        ensures
            r.kind == Kind::EncodeChunked,
    {
        TransferEncoding { kind: Kind::EncodeChunked }
    }

    pub fn plain_chunked() -> (r: TransferEncoding)
        ensures
            r.kind == Kind::PlainChunked,
    {
        TransferEncoding { kind: Kind::PlainChunked }
    }

    pub fn length(len: u64) -> (r: TransferEncoding)
        ensures
            r.kind == Kind::Length(len),
    {
        TransferEncoding { kind: Kind::Length(len) }
    }

    /// Chunked framing, except on an upgraded connection where bytes pass
    /// through unframed.
    pub fn chunked_from(ctype: ConnectionType) -> (r: TransferEncoding)
        ensures
            r.kind == if ctype == ConnectionType::Upgrade {
                Kind::PlainChunked
            } else {
                Kind::EncodeChunked
            },
    {
        if ctype == ConnectionType::Upgrade {
            Self::plain_chunked()
        } else {
            Self::chunked()
        }
    }

    /// Appends one body chunk to the write buffer under the encoder's
    /// framing.  Empty input is skipped; a length encoder truncates past
    /// its remaining count.
    pub fn encode(&mut self, bytes: Bytes, buf: &mut FlatWriteBuf)
        ensures
            final(buf).bytes() == old(buf).bytes() + spec_encode_emit(old(self).kind, bytes_view(bytes)),
            final(self).kind == spec_encode_next(old(self).kind, bytes_view(bytes)),
            final(buf).limit == old(buf).limit,
    {
        if bytes.is_empty() {
            proof {
                assert(old(buf).bytes() + spec_encode_emit(old(self).kind, bytes_view(bytes))
                    =~= old(buf).bytes());
            }
            return;
        }
        match self.kind {
            Kind::Eof => buf.write_buf(bytes),
            Kind::PlainChunked => buf.write_buf(bytes),
            Kind::EncodeChunked => buf.write_chunk(bytes),
            Kind::Length(rem) => {
                let len64: u64 = bytes.len() as u64;
                if rem <= len64 {
                    let mut bytes = bytes;
                    let head = bytes.split_to(rem as usize);
                    buf.write_buf(head);
                    self.kind = Kind::Length(0);
                } else {
                    buf.write_buf(bytes);
                    self.kind = Kind::Length(rem - len64);
                    proof {
                        assert(bytes_view(bytes).take(bytes_view(bytes).len() as int)
                            =~= bytes_view(bytes));
                    }
                }
            },
        }
    }

    /// Chunked framing for the current connection type.
    pub fn chunked_kind(ctype: ConnectionType) -> (r: Kind)
        ensures
            r == spec_chunked_kind(ctype),
    {
        if ctype == ConnectionType::Upgrade {
            Kind::PlainChunked
        } else {
            Kind::EncodeChunked
        }
    }

    /// Ends the body: a chunked encoder writes the terminator, others write
    /// nothing.  A length encoder with bytes still owed must not be ended.
    pub fn encode_eof(&mut self, buf: &mut FlatWriteBuf)
        requires
            match old(self).kind {
                Kind::Length(n) => n == 0,
                _ => true,
            },
        ensures
            final(buf).bytes() == old(buf).bytes() + if old(self).kind == Kind::EncodeChunked {
                last_chunk()
            } else {
                Seq::<u8>::empty()
            },
            final(self).kind == old(self).kind,
            final(buf).limit == old(buf).limit,
    {
        match self.kind {
            Kind::EncodeChunked => {
                let mut term: Vec<u8> = Vec::new();
                term.push(48);
                term.push(13);
                term.push(10);
                term.push(13);
                term.push(10);
                proof {
                    assert(term@ =~= last_chunk());
                }
                buf.write_static(term.as_slice());
            },
            _ => {
                proof {
                    assert(old(buf).bytes() + Seq::<u8>::empty() =~= old(buf).bytes());
                }
            },
        }
    }
}

/// Chunked framing, except on an upgraded connection where bytes pass
/// through unframed.
pub open spec fn spec_chunked_kind(ct: ConnectionType) -> Kind {
    if ct == ConnectionType::Upgrade {
        Kind::PlainChunked
    } else {
        Kind::EncodeChunked
    }
}

/// Encoding state carried across the service's headers while the head is
/// written.
pub struct HeadState {
    pub skip_len: bool,
    pub skip_date: bool,
    pub kind: Kind,
    pub ctype: ConnectionType,
}

/// One service header applied to the encoding state.  `None` refuses a bad
/// `content-length` value.  On a 2xx reply to CONNECT the framing headers
/// are ignored (and dropped from the wire): such a response has no body.
pub open spec fn spec_head_step(
    st: HeadState,
    name: Seq<u8>,
    value: Seq<u8>,
    connect2xx: bool,
    force_close: bool,
    allow_upgrade: bool,
) -> Option<HeadState> {
    let lc = to_lower(name);
    if lc == "content-length".spec_bytes() {
        if connect2xx {
            Some(st)
        } else if value.len() > 0 && all_dec_digits(value) && dec_val(value) <= u64::MAX {
            Some(HeadState { skip_len: true, kind: Kind::Length(dec_val(value) as u64), ..st })
        } else {
            None
        }
    } else if lc == "transfer-encoding".spec_bytes() {
        if connect2xx {
            Some(st)
        } else {
            Some(HeadState { skip_len: true, kind: spec_chunked_kind(st.ctype), ..st })
        }
    } else if lc == "connection".spec_bytes() {
        if force_close {
            Some(st)
        } else {
            Some(HeadState { ctype: spec_conn_fold(st.ctype, value, allow_upgrade), ..st })
        }
    } else if lc == "date".spec_bytes() {
        Some(HeadState { skip_date: true, ..st })
    } else {
        Some(st)
    }
}

/// All service headers applied in order.
pub open spec fn spec_head_fold(
    hs: Seq<(Seq<u8>, Seq<u8>)>,
    st: HeadState,
    connect2xx: bool,
    force_close: bool,
    allow_upgrade: bool,
) -> Option<HeadState>
    decreases hs.len(),
{
    if hs.len() == 0 {
        Some(st)
    } else {
        match spec_head_step(st, hs[0].0, hs[0].1, connect2xx, force_close, allow_upgrade) {
            None => None,
            Some(st2) => spec_head_fold(hs.skip(1), st2, connect2xx, force_close, allow_upgrade),
        }
    }
}

/// The header lines written for the service's headers: each as
/// `name: value CRLF`; a `connection` header under force-close and the
/// framing headers of a 2xx reply to CONNECT are dropped.
pub open spec fn spec_head_lines(
    hs: Seq<(Seq<u8>, Seq<u8>)>,
    connect2xx: bool,
    force_close: bool,
) -> Seq<u8>
    decreases hs.len(),
{
    if hs.len() == 0 {
        Seq::<u8>::empty()
    } else {
        let lc = to_lower(hs[0].0);
        let written = hs[0].0 + seq![58u8, 32u8] + hs[0].1 + crlf();
        let line = if lc == "content-length".spec_bytes() {
            if connect2xx {
                Seq::<u8>::empty()
            } else {
                written
            }
        } else if lc == "transfer-encoding".spec_bytes() {
            if connect2xx {
                Seq::<u8>::empty()
            } else {
                written
            }
        } else if lc == "connection".spec_bytes() {
            if force_close {
                Seq::<u8>::empty()
            } else {
                written
            }
        } else {
            written
        };
        line + spec_head_lines(hs.skip(1), connect2xx, force_close)
    }
}

/// The status line: version, three-digit status, reason phrase.
pub open spec fn spec_status_line(version: Version, status: u16) -> Seq<u8> {
    version_token(version) + seq![32u8] + dec_digits(status as nat) + seq![32u8] + spec_reason(
        status,
    ) + crlf()
}

/// Everything one `encode_head` call appends and returns.
pub enum HeadEncodeOutcome {
    Bad(Parse),
    Done(Seq<u8>, Kind, ConnectionType),
}

/// The response head as a function of the connection context, the parts the
/// service returned, and the body size hint.
pub open spec fn spec_encode_head(
    ctx: Context,
    status: u16,
    version: Version,
    hs: Seq<(Seq<u8>, Seq<u8>)>,
    size: ResponseBodySize,
) -> HeadEncodeOutcome {
    let connect2xx = ctx.connect_method && is_success(status);
    if is_informational(status) && status != 101 {
        HeadEncodeOutcome::Bad(Parse::StatusCode)
    } else {
        let st0 = HeadState {
            skip_len: connect2xx,
            skip_date: false,
            kind: Kind::Eof,
            ctype: ctx.ctype,
        };
        match spec_head_fold(hs, st0, connect2xx, ctx.force_close, status == 101) {
            None => HeadEncodeOutcome::Bad(Parse::HeaderValue),
            Some(st) => {
                let framing = if st.skip_len {
                    Seq::<u8>::empty()
                } else {
                    match size {
                        ResponseBodySize::Empty => Seq::<u8>::empty(),
                        ResponseBodySize::Sized(n) => "content-length: ".spec_bytes() + dec_digits(
                            n as nat,
                        ) + crlf(),
                        ResponseBodySize::Stream => "transfer-encoding: chunked\r\n".spec_bytes(),
                    }
                };
                let kind = if st.skip_len {
                    st.kind
                } else {
                    match size {
                        ResponseBodySize::Empty => Kind::Eof,
                        ResponseBodySize::Sized(n) => Kind::Length(n as u64),
                        ResponseBodySize::Stream => spec_chunked_kind(st.ctype),
                    }
                };
                let tail = if st.skip_date {
                    crlf()
                } else {
                    "date: ".spec_bytes() + ctx.date@ + crlf() + crlf()
                };
                let bytes = spec_status_line(version, status) + spec_head_lines(
                    hs,
                    connect2xx,
                    ctx.force_close,
                ) + (if ctx.force_close {
                    "connection: close\r\n".spec_bytes()
                } else {
                    Seq::<u8>::empty()
                }) + framing + tail;
                HeadEncodeOutcome::Done(bytes, kind, st.ctype)
            },
        }
    }
}

impl Context {
    /// Writes the interim `100 Continue` head, sent once the expect
    /// service accepted the request.
    pub fn encode_continue(&mut self, buf: &mut FlatWriteBuf)
        ensures
            *final(self) == *old(self),
            final(buf).bytes() == old(buf).bytes() + "HTTP/1.1 100 Continue\r\n\r\n".spec_bytes(),
            final(buf).limit == old(buf).limit,
    {
        let mut s: Vec<u8> = Vec::new();
        put_str(&mut s, "HTTP/1.1 100 Continue\r\n\r\n");
        buf.write_static(s.as_slice());
    }

    /// Serializes the response head the service returned, decides the body
    /// framing, and updates the connection type from the response's
    /// `connection` header.  On failure nothing reaches the write buffer.
    #[verifier::rlimit(80)]
    #[verifier::loop_isolation(false)]
    pub fn encode_head(
        &mut self,
        parts: ResponseParts,
        size: ResponseBodySize,
        buf: &mut FlatWriteBuf,
    ) -> (r: Result<TransferEncoding, ProtoError>)
        ensures
            match spec_encode_head(
                *old(self),
                parts.status,
                parts.version,
                headers_view(parts.headers@),
                size,
            ) {
                HeadEncodeOutcome::Bad(p) => r == Result::<TransferEncoding, ProtoError>::Err(
                    ProtoError::Parse(p),
                ) && *final(self) == *old(self) && *final(buf) == *old(buf),
                HeadEncodeOutcome::Done(bytes, kind, ct) => (r matches Ok(enc) && enc.kind == kind)
                    && final(buf).bytes() == old(buf).bytes() + bytes && final(buf).limit == old(
                    buf,
                ).limit && *final(self) == (Context { ctype: ct, ..*old(self) }),
            },
    {
        let status = parts.status;
        let version = parts.version;
        let connect2xx = self.connect_method && 200 <= status && status <= 299;
        let force_close = self.force_close;
        let allow_upgrade = status == 101;
        if 100 <= status && status <= 199 && status != 101 {
            return Err(ProtoError::Parse(Parse::StatusCode));
        }
        let mut head: Vec<u8> = Vec::new();
        let vb = crate::http::version_bytes(version);
        head.extend_from_slice(vb.as_slice());
        head.push(32);
        let sd = format_u64(status as u64);
        head.extend_from_slice(sd.as_slice());
        head.push(32);
        put_reason(&mut head, status);
        head.push(13);
        head.push(10);
        proof {
            assert(head@ =~= spec_status_line(version, status));
        }
        let ghost status_line = head@;
        let mut skip_len = connect2xx;
        let mut skip_date = false;
        let mut kind = Kind::Eof;
        let mut ctype = self.ctype;
        let ghost hv = headers_view(parts.headers@);
        let ghost st0 = HeadState { skip_len: connect2xx, skip_date: false, kind: Kind::Eof, ctype: self.ctype };
        let ghost mut lines: Seq<u8> = Seq::<u8>::empty();
        let hs = &parts.headers;
        let mut i: usize = 0;
        proof {
            assert(hv.skip(0) =~= hv);
            assert(Seq::<u8>::empty() + spec_head_lines(hv, connect2xx, force_close) =~= spec_head_lines(hv, connect2xx, force_close));
            assert(status_line + lines =~= head@);
        }
        while i < hs.len()
            invariant
                0 <= i <= hs@.len(),
                hv == headers_view(hs@),
                hv.len() == hs@.len(),
                spec_head_fold(hv, st0, connect2xx, force_close, allow_upgrade) == spec_head_fold(
                    hv.skip(i as int),
                    HeadState { skip_len, skip_date, kind, ctype },
                    connect2xx,
                    force_close,
                    allow_upgrade,
                ),
                spec_head_lines(hv, connect2xx, force_close) == lines + spec_head_lines(
                    hv.skip(i as int),
                    connect2xx,
                    force_close,
                ),
                head@ == status_line + lines,
                status_line == spec_status_line(version, status),
            decreases hs@.len() - i,
        {
            let ghost st_pre = HeadState { skip_len, skip_date, kind, ctype };
            let ghost rem = hv.skip(i as int);
            let ghost lines_pre = lines;
            proof {
                assert(rem[0] == hv[i as int]);
                assert(rem.skip(1) =~= hv.skip(i + 1));
            }
            let h = &hs[i];
            proof {
                assert(hv[i as int] == (h.name@, h.value@));
                assert(hv[i as int].0 == h.name@);
                assert(hv[i as int].1 == h.value@);
            }
            let mut drop_line = false;
            if eq_ignore_case(h.name.as_slice(), "content-length".as_bytes()) {
                if connect2xx {
                    drop_line = true;
                } else {
                    match parse_dec_u64(h.value.as_slice()) {
                        None => {
                            proof {
                                assert(spec_head_step(st_pre, rem[0].0, rem[0].1, connect2xx,
                                    force_close, allow_upgrade) is None);
                                assert(spec_head_fold(rem, st_pre, connect2xx, force_close,
                                    allow_upgrade) is None);
                                assert(spec_head_fold(hv, st0, connect2xx, force_close,
                                    allow_upgrade) is None);
                                assert(spec_encode_head(*old(self), status, version, hv, size)
                                    == HeadEncodeOutcome::Bad(Parse::HeaderValue));
                            }
                            return Err(ProtoError::Parse(Parse::HeaderValue));
                        },
                        Some(v) => {
                            kind = Kind::Length(v);
                            skip_len = true;
                        },
                    }
                }
            } else if eq_ignore_case(h.name.as_slice(), "transfer-encoding".as_bytes()) {
                if connect2xx {
                    drop_line = true;
                } else {
                    kind = TransferEncoding::chunked_kind(ctype);
                    skip_len = true;
                }
            } else if eq_ignore_case(h.name.as_slice(), "connection".as_bytes()) {
                if force_close {
                    drop_line = true;
                } else {
                    ctype = conn_ctype(h.value.as_slice(), ctype, allow_upgrade);
                }
            } else if eq_ignore_case(h.name.as_slice(), "date".as_bytes()) {
                skip_date = true;
            }
            if !drop_line {
                head.extend_from_slice(h.name.as_slice());
                head.push(58);
                head.push(32);
                head.extend_from_slice(h.value.as_slice());
                head.push(13);
                head.push(10);
                proof {
                    lines = lines + (h.name@ + seq![58u8, 32u8] + h.value@ + crlf());
                    assert(head@ =~= status_line + lines);
                }
            }
            proof {
                let written = hv[i as int].0 + seq![58u8, 32u8] + hv[i as int].1 + crlf();
                let lc = to_lower(hv[i as int].0);
                let line_emitted = if lc == "content-length".spec_bytes() {
                    if connect2xx {
                        Seq::<u8>::empty()
                    } else {
                        written
                    }
                } else if lc == "transfer-encoding".spec_bytes() {
                    if connect2xx {
                        Seq::<u8>::empty()
                    } else {
                        written
                    }
                } else if lc == "connection".spec_bytes() {
                    if force_close {
                        Seq::<u8>::empty()
                    } else {
                        written
                    }
                } else {
                    written
                };
                assert(spec_head_lines(rem, connect2xx, force_close) == line_emitted
                    + spec_head_lines(rem.skip(1), connect2xx, force_close));
                assert(lines =~= lines_pre + line_emitted);
                assert(lines_pre + (line_emitted + spec_head_lines(rem.skip(1), connect2xx,
                    force_close)) =~= (lines_pre + line_emitted) + spec_head_lines(
                    rem.skip(1),
                    connect2xx,
                    force_close,
                ));
                assert(spec_head_lines(hv, connect2xx, force_close) =~= lines + spec_head_lines(
                    hv.skip(i + 1),
                    connect2xx,
                    force_close,
                ));
                assert(spec_head_step(st_pre, rem[0].0, rem[0].1, connect2xx, force_close,
                    allow_upgrade) == Some(HeadState { skip_len, skip_date, kind, ctype }));
            }
            i = i + 1;
        }
        let ghost stf = HeadState { skip_len, skip_date, kind, ctype };
        proof {
            assert(hv.skip(i as int) =~= Seq::<(Seq<u8>, Seq<u8>)>::empty());
            assert(lines + Seq::<u8>::empty() =~= lines);
            assert(lines =~= spec_head_lines(hv, connect2xx, force_close));
            assert(spec_head_fold(hv, st0, connect2xx, force_close, allow_upgrade) == Some(stf));
        }
        let ghost mut cc: Seq<u8> = Seq::<u8>::empty();
        if force_close {
            put_str(&mut head, "connection: close\r\n");
            proof {
                cc = "connection: close\r\n".spec_bytes();
            }
        }
        proof {
            assert(head@ =~= status_line + lines + cc);
        }
        let ghost mut framing: Seq<u8> = Seq::<u8>::empty();
        if !skip_len {
            match size {
                ResponseBodySize::Empty => {
                    kind = Kind::Eof;
                },
                ResponseBodySize::Sized(n) => {
                    put_str(&mut head, "content-length: ");
                    let nd = format_u64(n as u64);
                    head.extend_from_slice(nd.as_slice());
                    head.push(13);
                    head.push(10);
                    kind = Kind::Length(n as u64);
                    proof {
                        framing = "content-length: ".spec_bytes() + dec_digits(n as nat) + crlf();
                    }
                },
                ResponseBodySize::Stream => {
                    put_str(&mut head, "transfer-encoding: chunked\r\n");
                    kind = TransferEncoding::chunked_kind(ctype);
                    proof {
                        framing = "transfer-encoding: chunked\r\n".spec_bytes();
                    }
                },
            }
        }
        proof {
            assert(head@ =~= status_line + lines + cc + framing);
        }
        let ghost mut tail: Seq<u8> = Seq::<u8>::empty();
        if !skip_date {
            put_str(&mut head, "date: ");
            head.extend_from_slice(self.date.as_slice());
            head.push(13);
            head.push(10);
            head.push(13);
            head.push(10);
            proof {
                tail = "date: ".spec_bytes() + old(self).date@ + crlf() + crlf();
            }
        } else {
            head.push(13);
            head.push(10);
            proof {
                tail = crlf();
            }
        }
        proof {
            assert(head@ =~= status_line + lines + cc + framing + tail);
            match spec_encode_head(*old(self), status, version, hv, size) {
                HeadEncodeOutcome::Done(bytes, k2, ct) => {
                    assert(bytes == spec_status_line(version, status) + spec_head_lines(
                        hv,
                        connect2xx,
                        force_close,
                    ) + cc + framing + tail);
                    assert(head@ =~= bytes);
                    assert(k2 == kind);
                    assert(ct == ctype);
                },
                HeadEncodeOutcome::Bad(p) => {
                    assert(false);
                },
            }
        }
        buf.write_head(head.as_slice());
        self.ctype = ctype;
        Ok(TransferEncoding { kind })
    }
}

} // verus!
