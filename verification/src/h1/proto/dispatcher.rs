//! The per-connection dispatcher engine.
//!
//! One `Dispatcher` value holds the connection context, the two bounded
//! buffers and the keep-alive deadline.  Every protocol decision is a
//! method here with a contract; an unverified async shell owns the socket
//! and the service future, feeds bytes and events in, and performs the
//! waits the methods ask for.

use vstd::prelude::*;
use crate::bytebuf::bytes_view;
use crate::body::ResponseBodySize;
use crate::h1::body::RequestBody;
use crate::http::RequestHead;
use crate::http::ResponseParts;
use crate::http::Version;
use crate::http::is_informational;
use super::buf::FlatWriteBuf;
use super::buf::ReadBuf;
use super::buf::last_chunk;
use super::codec::Kind;
use super::context::ConnectionType;
use super::context::Context;
use super::decode::spec_chunked_decode;
use super::decode::spec_parse_head;
use super::decode::spec_req_decoder;
use super::decode::headers_view;
use super::decode::ChunkedOutcome;
use super::decode::DecodeKind;
use super::decode::HeadOutcome;
use super::decode::TransferDecoding;
use super::encode::spec_encode_head;
use super::encode::HeadEncodeOutcome;
use super::encode::TransferEncoding;
use super::error::Parse;
use super::error::ProtoError;
use vstd::string::StringSliceAdditionalSpecFns;

verus! {

/// Whether the body decoder still wants input.
#[derive(Clone, Copy, PartialEq, Eq, Structural, Debug)]
pub enum DecodeState {
    /// More body bytes may follow.
    Continue,
    /// The body has ended; the handle can be retired.
    Eof,
}

/// What the connection should do between requests.
#[derive(Clone, Copy, PartialEq, Eq, Structural, Debug)]
pub enum IdleAction {
    /// Wait for more request bytes, bounded by the keep-alive deadline.
    WaitRead,
    /// Drain the write buffer, flush and shut the socket down.
    Shutdown,
    /// Leave without touching the socket further.
    Exit,
}

/// Producer half of a request body: the decoder that turns read-buffer
/// bytes into chunks for the body channel.
pub struct RequestBodyHandle {
    pub decoder: TransferDecoding,
}

/// Everything repeated `decode` calls take from `input`: the chunks fed to
/// the channel in order, whether the body ended, the decoder and buffer
/// afterwards, and whether the chunked framing was malformed.
pub struct DrainOut {
    pub chunks: Seq<Seq<u8>>,
    pub eof: bool,
    pub kind: DecodeKind,
    pub rest: Seq<u8>,
    pub error: bool,
}

/// Draining the decoder against the buffered input until it needs more
/// bytes, ends, or fails.  The range guard only discharges the termination
/// check.
pub open spec fn spec_drain(kind: DecodeKind, input: Seq<u8>) -> DrainOut
    decreases input.len(),
{
    match kind {
        DecodeKind::Eof => DrainOut {
            chunks: Seq::<Seq<u8>>::empty(),
            eof: false,
            kind,
            rest: input,
            error: false,
        },
        DecodeKind::Length(rem) => {
            if rem == 0 {
                DrainOut {
                    chunks: Seq::<Seq<u8>>::empty(),
                    eof: true,
                    kind: DecodeKind::Eof,
                    rest: input,
                    error: false,
                }
            } else if input.len() == 0 {
                DrainOut {
                    chunks: Seq::<Seq<u8>>::empty(),
                    eof: false,
                    kind,
                    rest: input,
                    error: false,
                }
            } else {
                let k = if rem <= input.len() {
                    rem as int
                } else {
                    input.len() as int
                };
                let sub = spec_drain(DecodeKind::Length((rem - k) as u64), input.skip(k));
                DrainOut { chunks: seq![input.take(k)] + sub.chunks, ..sub }
            }
        },
        DecodeKind::Chunked(st) => match spec_chunked_decode(st, input) {
            ChunkedOutcome::NeedMore(st2, rest) => DrainOut {
                chunks: Seq::<Seq<u8>>::empty(),
                eof: false,
                kind: DecodeKind::Chunked(st2),
                rest,
                error: false,
            },
            ChunkedOutcome::Emit(st2, rest, data) => {
                if data.len() == 0 {
                    DrainOut {
                        chunks: Seq::<Seq<u8>>::empty(),
                        eof: true,
                        kind: DecodeKind::Chunked(st2),
                        rest,
                        error: false,
                    }
                } else if rest.len() < input.len() {
                    let sub = spec_drain(DecodeKind::Chunked(st2), rest);
                    DrainOut { chunks: seq![data] + sub.chunks, ..sub }
                } else {
                    DrainOut {
                        chunks: seq![data],
                        eof: false,
                        kind: DecodeKind::Chunked(st2),
                        rest,
                        error: false,
                    }
                }
            },
            ChunkedOutcome::Error => DrainOut {
                chunks: Seq::<Seq<u8>>::empty(),
                eof: false,
                kind,
                rest: input,
                error: true,
            },
        },
    }
}

impl RequestBodyHandle {
    /// A handle and the matching consumer channel for one request: no
    /// handle when the decoder has nothing to deliver, then the channel is
    /// born terminated.
    pub fn new_pair(decoder: TransferDecoding) -> (r: (Option<RequestBodyHandle>, RequestBody))
        ensures
            r.1.chunks() == Seq::<Seq<u8>>::empty(),
            r.1.failed is None,
            !r.1.consumer_gone,
            if decoder.spec_is_eof() {
                r.0 is None && r.1.eof
            } else {
                (r.0 matches Some(h) && h.decoder == decoder) && !r.1.eof
            },
    {
        if decoder.is_eof() {
            (None, RequestBody::empty())
        } else {
            (Some(RequestBodyHandle { decoder }), RequestBody::create(false))
        }
    }

    /// Ends the body channel by hand (shutdown paths).
    pub fn close(&mut self, chan: &mut RequestBody)
        requires
            !old(chan).consumer_gone,
        ensures
            *final(self) == *old(self),
            *final(chan) == (RequestBody { eof: true, ..*old(chan) }),
    {
        let _ = chan.feed_eof();
    }

    /// Pumps the decoder against the read buffer, feeding every decoded
    /// chunk into the channel, until the decoder needs more input, the
    /// body ends, or the chunked framing turns out malformed.
    #[verifier::loop_isolation(false)]
    pub fn decode(&mut self, rb: &mut ReadBuf, chan: &mut RequestBody) -> (r: Result<
        DecodeState,
        ProtoError,
    >)
        requires
            !old(chan).consumer_gone,
        ensures
            ({
                let d = spec_drain(old(self).decoder.kind, old(rb).bytes());
                &&& final(chan).chunks() == old(chan).chunks() + d.chunks
                &&& final(chan).consumer_gone == old(chan).consumer_gone
                &&& final(chan).failed == old(chan).failed
                &&& final(rb).limit == old(rb).limit
                &&& if d.error {
                    (r matches Err(e) && e == ProtoError::Parse(Parse::ChunkSize)) && final(chan).eof == old(chan).eof
                } else {
                    final(chan).eof == (old(chan).eof || d.eof) &&
                    (r matches Ok(ds) && (ds == (if d.eof {
                        DecodeState::Eof
                    } else {
                        DecodeState::Continue
                    }))) && final(self).decoder.kind == d.kind && final(rb).bytes() == d.rest
                }
            }),
    {
        let ghost target = spec_drain(old(self).decoder.kind, old(rb).bytes());
        loop
            invariant
                !chan.consumer_gone,
                chan.failed == old(chan).failed,
                chan.eof == old(chan).eof,
                rb.limit == old(rb).limit,
                ({
                    let cur = spec_drain(self.decoder.kind, rb.bytes());
                    &&& target.error == cur.error
                    &&& (!cur.error ==> target.eof == cur.eof && target.kind == cur.kind
                        && target.rest == cur.rest)
                    &&& old(chan).chunks() + target.chunks == chan.chunks() + cur.chunks
                }),
            decreases rb.bytes().len(),
        {
            let ghost pre_kind = self.decoder.kind;
            let ghost pre_input = rb.bytes();
            let ghost cur = spec_drain(pre_kind, pre_input);
            let step = self.decoder.decode(rb.inner_mut());
            match step {
                Err(e) => {
                    proof {
                        assert(cur.error);
                        assert(cur.chunks =~= Seq::<Seq<u8>>::empty());
                        assert(chan.chunks() + cur.chunks =~= chan.chunks());
                        assert(old(chan).chunks() + target.chunks =~= chan.chunks());
                    }
                    return Err(e);
                },
                Ok(step_chunk) => match step_chunk {
                    None => {
                        proof {
                            assert(cur.chunks =~= Seq::<Seq<u8>>::empty());
                            assert(chan.chunks() + cur.chunks =~= chan.chunks());
                            assert(old(chan).chunks() + target.chunks =~= chan.chunks());
                        }
                        return Ok(DecodeState::Continue);
                    },
                    Some(b) => {
                        if b.is_empty() {
                            proof {
                                assert(cur.eof);
                                assert(cur.chunks =~= Seq::<Seq<u8>>::empty());
                                assert(chan.chunks() + cur.chunks =~= chan.chunks());
                                assert(old(chan).chunks() + target.chunks =~= chan.chunks());
                            }
                            let _ = chan.feed_eof();
                            return Ok(DecodeState::Eof);
                        }
                        proof {
                            match pre_kind {
                                DecodeKind::Chunked(st) => {
                                    super::decode::lemma_chunked_consumes(st, pre_input);
                                },
                                _ => {},
                            }
                        }
                        let ghost chan_pre = chan.chunks();
                        let _ = chan.feed_data(b);
                        proof {
                            let cur2 = spec_drain(self.decoder.kind, rb.bytes());
                            assert(cur.chunks =~= seq![bytes_view(b)] + cur2.chunks);
                            assert(cur.error == cur2.error && cur.eof == cur2.eof && cur.kind
                                == cur2.kind && cur.rest == cur2.rest);
                            assert(chan_pre + (seq![bytes_view(b)] + cur2.chunks)
                                =~= chan.chunks() + cur2.chunks);
                            assert(old(chan).chunks() + target.chunks =~= chan.chunks()
                                + cur2.chunks);
                        }
                    },
                },
            }
        }
    }
}

/// The per-connection engine: context, buffers and the keep-alive
/// deadline, all in one verified value.
pub struct Dispatcher {
    pub ctx: Context,
    pub read_buf: ReadBuf,
    pub write_buf: FlatWriteBuf,
    /// Keep-alive timeout in milliseconds.
    pub ka_dur: u64,
    /// Current timer deadline, in milliseconds of the shell's clock.
    pub deadline: u64,
}

impl Dispatcher {
    pub fn new(
        header_limit: usize,
        read_buf_limit: usize,
        write_buf_limit: usize,
        ka_dur: u64,
        now: u64,
        date: Vec<u8>,
    ) -> (r: Dispatcher)
        ensures
            r.ctx.ctype == ConnectionType::Init,
            !r.ctx.expect_header,
            !r.ctx.connect_method,
            !r.ctx.force_close,
            r.ctx.header_limit == header_limit,
            r.ctx.date == date,
            r.read_buf.bytes() == Seq::<u8>::empty(),
            r.read_buf.limit == read_buf_limit,
            r.write_buf.bytes() == Seq::<u8>::empty(),
            r.write_buf.limit == write_buf_limit,
            r.ka_dur == ka_dur,
            r.deadline == spec_deadline(now, ka_dur),
    {
        let mut d = Dispatcher {
            ctx: Context::new(header_limit, date),
            read_buf: ReadBuf::new(read_buf_limit),
            write_buf: FlatWriteBuf::new(write_buf_limit),
            ka_dur,
            deadline: 0,
        };
        d.update_timer(now);
        d
    }

    /// What to do between requests, by connection type and the sticky
    /// force-close flag: keep reading while the connection is reusable,
    /// otherwise shut down — except a connection that never parsed a
    /// request, which is dropped without ceremony.
    pub fn poll_idle(&self) -> (r: IdleAction)
        ensures
            r == spec_idle_action(self.ctx),
    {
        match self.ctx.ctype {
            ConnectionType::Init => {
                if self.ctx.force_close {
                    IdleAction::Exit
                } else {
                    IdleAction::WaitRead
                }
            },
            ConnectionType::KeepAlive => {
                if self.ctx.force_close {
                    IdleAction::Shutdown
                } else {
                    IdleAction::WaitRead
                }
            },
            ConnectionType::Close => IdleAction::Shutdown,
            ConnectionType::Upgrade => IdleAction::Shutdown,
        }
    }

    /// What to do when the keep-alive deadline fires during an idle wait:
    /// a slow first request is dropped without a response, a kept-alive
    /// connection is shut down gracefully.
    pub fn timeout_action(&self) -> (r: IdleAction)
        ensures
            r == if self.ctx.ctype == ConnectionType::Init {
                IdleAction::Exit
            } else {
                IdleAction::Shutdown
            },
    {
        if self.ctx.ctype == ConnectionType::Init {
            IdleAction::Exit
        } else {
            IdleAction::Shutdown
        }
    }

    /// Moves the deadline to `now` plus the keep-alive timeout.
    pub fn update_timer(&mut self, now: u64)
        ensures
            *final(self) == (Dispatcher { deadline: spec_deadline(now, old(self).ka_dur), ..*old(self) }),
    {
        if now <= u64::MAX - self.ka_dur {
            self.deadline = now + self.ka_dur;
        } else {
            self.deadline = u64::MAX;
        }
    }

    /// Takes bytes freshly read from the socket; returns true iff the read
    /// buffer is now at its limit and reading must pause.  The buffer
    /// never grows past the limit by more than one read's worth.
    pub fn feed_read(&mut self, data: &[u8]) -> (bp: bool)
        ensures
            final(self).read_buf.bytes() == old(self).read_buf.bytes() + data@,
            final(self).read_buf.limit == old(self).read_buf.limit,
            bp == (final(self).read_buf.bytes().len() >= final(self).read_buf.limit),
            final(self).ctx == old(self).ctx,
            final(self).write_buf == old(self).write_buf,
            final(self).ka_dur == old(self).ka_dur,
            final(self).deadline == old(self).deadline,
    {
        self.read_buf.extend(data);
        self.read_buf.backpressure()
    }

    /// Parses the next buffered request head and builds the body handle
    /// and channel for it, exactly as the head's framing asks.
    pub fn decode_head(&mut self) -> (r: Result<
        Option<(RequestHead, Option<RequestBodyHandle>, RequestBody)>,
        ProtoError,
    >)
        ensures
            final(self).write_buf == old(self).write_buf,
            final(self).ka_dur == old(self).ka_dur,
            final(self).deadline == old(self).deadline,
            final(self).ctx.force_close == old(self).ctx.force_close,
            match spec_parse_head(old(self).read_buf.bytes(), old(self).ctx.header_limit as int) {
                HeadOutcome::Incomplete => {
                    if old(self).read_buf.bytes().len() >= old(self).read_buf.limit {
                        (r matches Err(e) && e == ProtoError::Parse(Parse::HeaderTooLarge))
                            && final(self).ctx == old(self).ctx && final(self).read_buf == old(self).read_buf
                    } else {
                        (r matches Ok(o) && o is None) && final(self).ctx == old(self).ctx
                            && final(self).read_buf == old(self).read_buf
                    }
                },
                HeadOutcome::Bad(p) => (r matches Err(e) && e == ProtoError::Parse(p)) && final(self).ctx == old(self).ctx && final(self).read_buf == old(self).read_buf,
                HeadOutcome::Head(m, t, ver, hs, consumed) => match spec_req_decoder(hs) {
                    None => (r matches Err(e) && e == ProtoError::Parse(Parse::HeaderValue))
                        && final(self).ctx == old(self).ctx && final(self).read_buf == old(self).read_buf,
                    Some(k) => (r matches Ok(o) && (o matches Some(hd) && hd.0.method@ == m
                        && hd.0.target@ == t && hd.0.version == ver && headers_view(hd.0.headers@)
                        == hs && hd.2.chunks() == Seq::<Seq<u8>>::empty() && (hd.2.failed is None)
                        && !hd.2.consumer_gone && (match hd.1 {
                        Some(h) => h.decoder.kind == k && !hd.2.eof && !(TransferDecoding {
                            kind: k,
                        }).spec_is_eof(),
                        None => hd.2.eof && (TransferDecoding { kind: k }).spec_is_eof(),
                    }))) && final(self).read_buf.bytes() == old(self).read_buf.bytes().skip(
                        consumed,
                    ) && final(self).read_buf.limit == old(self).read_buf.limit && final(self).ctx
                        == (Context {
                        ctype: super::decode::spec_req_ctype(hs, ver),
                        expect_header: super::decode::spec_expect(hs),
                        connect_method: m == "CONNECT".spec_bytes(),
                        ..old(self).ctx
                    }),
                },
            },
    {
        match self.ctx.decode_head(&mut self.read_buf) {
            Err(e) => Err(e),
            Ok(None) => Ok(None),
            Ok(Some((head, decoder))) => {
                let (handle, chan) = RequestBodyHandle::new_pair(decoder);
                Ok(Some((head, handle, chan)))
            },
        }
    }

    /// Writes the interim `100 Continue` head.
    pub fn encode_continue(&mut self)
        ensures
            final(self).write_buf.bytes() == old(self).write_buf.bytes()
                + "HTTP/1.1 100 Continue\r\n\r\n".spec_bytes(),
            final(self).write_buf.limit == old(self).write_buf.limit,
            final(self).ctx == old(self).ctx,
            final(self).read_buf == old(self).read_buf,
            final(self).ka_dur == old(self).ka_dur,
            final(self).deadline == old(self).deadline,
    {
        self.ctx.encode_continue(&mut self.write_buf);
    }

    /// Encodes the response head the service returned; on failure nothing
    /// is written.
    pub fn encode_head(&mut self, parts: ResponseParts, size: ResponseBodySize) -> (r: Result<
        TransferEncoding,
        ProtoError,
    >)
        ensures
            final(self).read_buf == old(self).read_buf,
            final(self).ka_dur == old(self).ka_dur,
            final(self).deadline == old(self).deadline,
            final(self).ctx.force_close == old(self).ctx.force_close,
            match spec_encode_head(
                old(self).ctx,
                parts.status,
                parts.version,
                headers_view(parts.headers@),
                size,
            ) {
                HeadEncodeOutcome::Bad(p) => (r matches Err(e) && e == ProtoError::Parse(p))
                    && final(self).ctx == old(self).ctx && final(self).write_buf == old(self).write_buf,
                HeadEncodeOutcome::Done(bytes, kind, ct) => (r matches Ok(enc) && enc.kind == kind)
                    && final(self).write_buf.bytes() == old(self).write_buf.bytes() + bytes
                    && final(self).write_buf.limit == old(self).write_buf.limit && final(self).ctx
                    == (Context { ctype: ct, ..old(self).ctx }),
            },
    {
        self.ctx.encode_head(parts, size, &mut self.write_buf)
    }

    /// Writes the canned error head (400 or 431) and pins the connection
    /// closed: no further request will be served.
    pub fn request_error(&mut self, status: u16)
        requires
            !is_informational(status),
        ensures
            final(self).ctx.force_close,
            final(self).read_buf == old(self).read_buf,
            final(self).ka_dur == old(self).ka_dur,
            final(self).deadline == old(self).deadline,
            final(self).write_buf.limit == old(self).write_buf.limit,
            ({
                let ctx2 = Context { force_close: true, ..old(self).ctx };
                match spec_encode_head(
                    ctx2,
                    status,
                    Version::Http11,
                    Seq::<(Seq<u8>, Seq<u8>)>::empty(),
                    ResponseBodySize::Empty,
                ) {
                    HeadEncodeOutcome::Done(bytes, kind, ct) => final(self).write_buf.bytes()
                        == old(self).write_buf.bytes() + bytes && final(self).ctx == (Context {
                        ctype: ct,
                        ..ctx2
                    }),
                    HeadEncodeOutcome::Bad(p) => false,
                }
            }),
    {
        self.ctx.set_force_close();
        let parts = ResponseParts { status, version: Version::Http11, headers: Vec::new() };
        proof {
            assert(headers_view(parts.headers@) =~= Seq::<(Seq<u8>, Seq<u8>)>::empty());
        }
        let _ = self.ctx.encode_head(parts, ResponseBodySize::Empty, &mut self.write_buf);
        proof {
            match spec_encode_head(
                Context { force_close: true, ..old(self).ctx },
                status,
                Version::Http11,
                Seq::<(Seq<u8>, Seq<u8>)>::empty(),
                ResponseBodySize::Empty,
            ) {
                HeadEncodeOutcome::Done(..) => {},
                HeadEncodeOutcome::Bad(..) => {
                    assert(false);
                },
            }
        }
    }

    /// Ends the current response: writes the chunked terminator if one is
    /// owed, and pins the connection closed when the request body was not
    /// read to its end — the socket may hold unread body bytes of unknown
    /// extent.
    pub fn end_response(&mut self, enc: &mut TransferEncoding, request_body_complete: bool)
        requires
            match old(enc).kind {
                Kind::Length(n) => n == 0,
                _ => true,
            },
        ensures
            *final(enc) == *old(enc),
            final(self).read_buf == old(self).read_buf,
            final(self).ka_dur == old(self).ka_dur,
            final(self).deadline == old(self).deadline,
            final(self).write_buf.limit == old(self).write_buf.limit,
            final(self).write_buf.bytes() == old(self).write_buf.bytes() + if old(enc).kind
                == Kind::EncodeChunked {
                last_chunk()
            } else {
                Seq::<u8>::empty()
            },
            final(self).ctx == if request_body_complete {
                old(self).ctx
            } else {
                Context { force_close: true, ..old(self).ctx }
            },
    {
        if !request_body_complete {
            self.ctx.set_force_close();
        }
        enc.encode_eof(&mut self.write_buf);
    }

    /// Drops the first `n` write-buffer bytes after the socket accepted
    /// them.
    pub fn written(&mut self, n: usize)
        requires
            n <= old(self).write_buf.bytes().len(),
        ensures
            final(self).write_buf.bytes() == old(self).write_buf.bytes().skip(n as int),
            final(self).write_buf.limit == old(self).write_buf.limit,
            final(self).ctx == old(self).ctx,
            final(self).read_buf == old(self).read_buf,
            final(self).ka_dur == old(self).ka_dur,
            final(self).deadline == old(self).deadline,
    {
        self.write_buf.consume(n);
    }
}

/// The idle decision by connection type and the sticky force-close flag.
pub open spec fn spec_idle_action(ctx: Context) -> IdleAction {
    match ctx.ctype {
        ConnectionType::Init => {
            if ctx.force_close {
                IdleAction::Exit
            } else {
                IdleAction::WaitRead
            }
        },
        ConnectionType::KeepAlive => {
            if ctx.force_close {
                IdleAction::Shutdown
            } else {
                IdleAction::WaitRead
            }
        },
        ConnectionType::Close => IdleAction::Shutdown,
        ConnectionType::Upgrade => IdleAction::Shutdown,
    }
}

/// The deadline `now + keep_alive`, saturating at the clock's end.
pub open spec fn spec_deadline(now: u64, ka: u64) -> u64 {
    if now + ka <= u64::MAX {
        (now + ka) as u64
    } else {
        u64::MAX
    }
}

} // verus!
