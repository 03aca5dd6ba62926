//! Bounded read and write buffers of the dispatcher.
//!
//! Both buffers report `backpressure()` once their length reaches the
//! configured limit; the limit caps when the dispatcher stops reading or
//! starts draining, not the buffer's capacity itself.

use vstd::prelude::*;
use bytes::Bytes;
use bytes::BytesMut;
use crate::bytebuf::bytes_mut_view;
use crate::bytebuf::bytes_view;
use crate::bytebuf::bytes_slice;
use crate::bytebuf::bytes_mut_slice;
use crate::num::hex_digits;

verus! {

pub open spec fn crlf() -> Seq<u8> {
    seq![13u8, 10u8]
}

/// The wire framing of one chunk of a chunked body: hex size line, data,
/// trailing CRLF.
pub open spec fn chunk_frame(data: Seq<u8>) -> Seq<u8> {
    hex_digits(data.len()) + crlf() + data + crlf()
}

/// The final frame of a chunked body: `0\r\n\r\n`.
pub open spec fn last_chunk() -> Seq<u8> {
    seq![48u8, 13u8, 10u8, 13u8, 10u8]
}

/// Whether the connection should collect its response bytes for vectored
/// writes: only when the socket supports them and configuration does not
/// force the flat buffer.
pub fn use_vectored_writes(force_flat_buf: bool, io_is_write_vectored: bool) -> (r: bool)
    ensures
        r == (!force_flat_buf && io_is_write_vectored),
{
    !force_flat_buf && io_is_write_vectored
}

/// Buffer of bytes read from the socket and not yet consumed by the parser
/// or the body decoder.
pub struct ReadBuf {
    pub buf: BytesMut,
    pub limit: usize,
}

impl ReadBuf {
    pub open spec fn bytes(self) -> Seq<u8> {
        bytes_mut_view(self.buf)
    }

    pub fn new(limit: usize) -> (r: ReadBuf)
        ensures
            r.bytes() == Seq::<u8>::empty(),
            r.limit == limit,
    {
        ReadBuf { buf: BytesMut::new(), limit }
    }

    pub fn len(&self) -> (r: usize)
        ensures
            r == self.bytes().len(),
    {
        self.buf.len()
    }

    /// Reads must pause once the buffer holds at least `limit` bytes.
    pub fn backpressure(&self) -> (r: bool)
        ensures
            r == (self.bytes().len() >= self.limit),
    {
        self.buf.len() >= self.limit
    }

    /// Appends bytes freshly read from the socket.
    pub fn extend(&mut self, data: &[u8])
        ensures
            final(self).bytes() == old(self).bytes() + data@,
            final(self).limit == old(self).limit,
    {
        self.buf.extend_from_slice(data);
    }

    /// The underlying buffer, for the parser and the body decoder.
    pub fn inner_mut(&mut self) -> (r: &mut BytesMut)
        ensures
            *r == old(self).buf,
            *final(self) == (ReadBuf { buf: *final(r), limit: old(self).limit }),
    {
        &mut self.buf
    }
}

/// Flat write buffer: response bytes waiting for the socket, drained in
/// order from the front.
pub struct FlatWriteBuf {
    pub buf: BytesMut,
    pub limit: usize,
}

impl FlatWriteBuf {
    pub open spec fn bytes(self) -> Seq<u8> {
        bytes_mut_view(self.buf)
    }

    pub fn new(limit: usize) -> (r: FlatWriteBuf)
        ensures
            r.bytes() == Seq::<u8>::empty(),
            r.limit == limit,
    {
        FlatWriteBuf { buf: BytesMut::new(), limit }
    }

    pub fn len(&self) -> (r: usize)
        ensures
            r == self.bytes().len(),
    {
        self.buf.len()
    }

    pub fn empty(&self) -> (r: bool)
        ensures
            r == (self.bytes().len() == 0),
    {
        self.buf.is_empty()
    }

    /// Response production must pause once the buffer holds at least
    /// `limit` bytes.
    pub fn backpressure(&self) -> (r: bool)
        ensures
            r == (self.bytes().len() >= self.limit),
    {
        self.buf.len() >= self.limit
    }

    /// Appends a fixed protocol string.
    pub fn write_static(&mut self, s: &[u8])
        ensures
            final(self).bytes() == old(self).bytes() + s@,
            final(self).limit == old(self).limit,
    {
        self.buf.extend_from_slice(s);
    }

    /// Appends a body chunk verbatim.
    pub fn write_buf(&mut self, b: Bytes)
        ensures
            final(self).bytes() == old(self).bytes() + bytes_view(b),
            final(self).limit == old(self).limit,
    {
        self.buf.extend_from_slice(bytes_slice(&b));
    }

    /// Appends a body chunk with chunked-transfer framing around it.
    pub fn write_chunk(&mut self, b: Bytes)
        ensures
            final(self).bytes() == old(self).bytes() + chunk_frame(bytes_view(b)),
            final(self).limit == old(self).limit,
    {
        let mut frame: Vec<u8> = Vec::new();
        crate::num::write_hex_u64(b.len() as u64, &mut frame);
        frame.push(13);
        frame.push(10);
        frame.extend_from_slice(bytes_slice(&b));
        frame.push(13);
        frame.push(10);
        proof {
            assert(frame@ =~= chunk_frame(bytes_view(b)));
        }
        self.buf.extend_from_slice(frame.as_slice());
    }

    /// Appends a fully formed response head.  The head is built in a
    /// scratch vector first, so a failed encode never leaves a partial
    /// head here.
    pub fn write_head(&mut self, head: &[u8])
        ensures
            final(self).bytes() == old(self).bytes() + head@,
            final(self).limit == old(self).limit,
    {
        self.buf.extend_from_slice(head);
    }

    /// The pending bytes, front first, for the socket writer.
    pub fn pending(&self) -> (r: &[u8])
        ensures
            r@ == self.bytes(),
    {
        bytes_mut_slice(&self.buf)
    }

    /// Drops the first `n` bytes after the socket accepted them.
    pub fn consume(&mut self, n: usize)
        requires
            n <= old(self).bytes().len(),
        ensures
            final(self).bytes() == old(self).bytes().skip(n as int),
            final(self).limit == old(self).limit,
    {
        bytes::Buf::advance(&mut self.buf, n);
    }
}

/// List write buffer, for sockets with vectored writes: response bytes are
/// kept as a list of segments, so body chunks go out without being copied
/// into one flat buffer.  Same operations and backpressure behaviour as
/// the flat variant.
pub struct ListWriteBuf {
    pub segments: Vec<Bytes>,
    /// Total buffered bytes, kept in step with the segments.
    pub total: usize,
    pub limit: usize,
}

impl ListWriteBuf {
    pub open spec fn bytes(self) -> Seq<u8> {
        self.segments@.map_values(|b: Bytes| bytes_view(b)).flatten()
    }

    /// The running total matches the segments.
    pub open spec fn wf(self) -> bool {
        self.total == self.bytes().len()
    }

    pub fn new(limit: usize) -> (r: ListWriteBuf)
        ensures
            r.bytes() == Seq::<u8>::empty(),
            r.wf(),
            r.limit == limit,
    {
        let r = ListWriteBuf { segments: Vec::new(), total: 0, limit };
        proof {
            assert(r.segments@.map_values(|b: Bytes| bytes_view(b)) =~= Seq::<Seq<u8>>::empty());
            assert(r.bytes() =~= Seq::<u8>::empty());
        }
        r
    }

    pub fn len(&self) -> (r: usize)
        requires
            self.wf(),
        ensures
            r == self.bytes().len(),
    {
        self.total
    }

    pub fn empty(&self) -> (r: bool)
        requires
            self.wf(),
        ensures
            r == (self.bytes().len() == 0),
    {
        self.total == 0
    }

    /// Response production must pause once the buffer holds at least
    /// `limit` bytes.
    pub fn backpressure(&self) -> (r: bool)
        requires
            self.wf(),
        ensures
            r == (self.bytes().len() >= self.limit),
    {
        self.total >= self.limit
    }

    /// Appends one segment.
    pub fn write_buf(&mut self, b: Bytes)
        requires
            old(self).wf(),
            old(self).bytes().len() + bytes_view(b).len() <= usize::MAX,
        ensures
            final(self).bytes() == old(self).bytes() + bytes_view(b),
            final(self).wf(),
            final(self).limit == old(self).limit,
    {
        proof {
            let segs = self.segments@.map_values(|bb: Bytes| bytes_view(bb));
            segs.lemma_flatten_push(bytes_view(b));
            assert(self.segments@.push(b).map_values(|bb: Bytes| bytes_view(bb)) =~= segs.push(
                bytes_view(b),
            ));
        }
        self.total = self.total + b.len();
        self.segments.push(b);
    }

    /// Appends a fixed protocol string, copied into a segment of its own.
    pub fn write_static(&mut self, s: &[u8])
        requires
            old(self).wf(),
            old(self).bytes().len() + s@.len() <= usize::MAX,
        ensures
            final(self).bytes() == old(self).bytes() + s@,
            final(self).wf(),
            final(self).limit == old(self).limit,
    {
        self.write_buf(Bytes::copy_from_slice(s));
    }

    /// Appends a fully formed response head as one segment.
    pub fn write_head(&mut self, head: &[u8])
        requires
            old(self).wf(),
            old(self).bytes().len() + head@.len() <= usize::MAX,
        ensures
            final(self).bytes() == old(self).bytes() + head@,
            final(self).wf(),
            final(self).limit == old(self).limit,
    {
        self.write_buf(Bytes::copy_from_slice(head));
    }

    /// Appends a body chunk with chunked-transfer framing around it: the
    /// size line and the trailing CRLF are small segments of their own and
    /// the chunk itself is passed through uncopied.
    pub fn write_chunk(&mut self, b: Bytes)
        requires
            old(self).wf(),
            old(self).bytes().len() + chunk_frame(bytes_view(b)).len() <= usize::MAX,
        ensures
            final(self).bytes() == old(self).bytes() + chunk_frame(bytes_view(b)),
            final(self).wf(),
            final(self).limit == old(self).limit,
    {
        let mut line: Vec<u8> = Vec::new();
        crate::num::write_hex_u64(b.len() as u64, &mut line);
        line.push(13);
        line.push(10);
        proof {
            assert(line@ =~= hex_digits(bytes_view(b).len()) + crlf());
            assert(hex_digits(bytes_view(b).len()).len() >= 1);
        }
        self.write_buf(Bytes::copy_from_slice(line.as_slice()));
        self.write_buf(b);
        let mut tail: Vec<u8> = Vec::new();
        tail.push(13);
        tail.push(10);
        proof {
            assert(tail@ =~= crlf());
        }
        self.write_buf(Bytes::copy_from_slice(tail.as_slice()));
        proof {
            assert(final(self).bytes() =~= old(self).bytes() + chunk_frame(bytes_view(b)));
        }
    }

    /// Drops the first `n` bytes after a vectored write accepted them,
    /// releasing whole segments and splitting the one the write stopped
    /// in.
    #[verifier::loop_isolation(false)]
    pub fn consume(&mut self, n: usize)
        requires
            old(self).wf(),
            n <= old(self).bytes().len(),
        ensures
            final(self).bytes() == old(self).bytes().skip(n as int),
            final(self).wf(),
            final(self).limit == old(self).limit,
    {
        let ghost orig = self.bytes();
        let mut left = n;
        while left > 0
            invariant
                self.wf(),
                left <= self.bytes().len(),
                self.bytes() == orig.skip((n - left) as int),
                left <= n,
                self.limit == old(self).limit,
            decreases left, self.segments@.len(),
        {
            let ghost left0 = left as int;
            let ghost prev = self.bytes();
            let ghost segs = self.segments@.map_values(|bb: Bytes| bytes_view(bb));
            proof {
                assert(prev.len() > 0);
                assert(segs.len() > 0);
                assert(prev == segs.first() + segs.drop_first().flatten());
            }
            let mut first = self.segments.remove(0);
            let ghost firstv = bytes_view(first);
            let ghost rest = self.segments@.map_values(|bb: Bytes| bytes_view(bb));
            proof {
                assert(rest =~= segs.drop_first());
                assert(prev == firstv + rest.flatten());
                assert((firstv + rest.flatten()).skip(firstv.len() as int) =~= rest.flatten());
            }
            let flen = first.len();
            if flen <= left {
                self.total = self.total - flen;
                left = left - flen;
                proof {
                    assert(self.bytes() == rest.flatten());
                    assert(flen as int <= prev.len());
                    vstd::seq_lib::lemma_seq_skip_of_skip(orig, (n - left0) as int, flen as int);
                    assert(orig.skip((n - left0) as int).skip(flen as int) =~= orig.skip(
                        (n - left) as int,
                    ));
                }
            } else {
                let _ = first.split_to(left);
                self.total = self.total - left;
                let ghost keptv = bytes_view(first);
                self.segments.insert(0, first);
                proof {
                    assert(keptv == firstv.skip(left0));
                    let segs3 = self.segments@.map_values(|bb: Bytes| bytes_view(bb));
                    assert(segs3 =~= seq![keptv] + rest);
                    assert(segs3.len() > 0);
                    assert(segs3.first() == keptv);
                    assert(segs3.drop_first() =~= rest);
                    assert(self.bytes() == segs3.first() + segs3.drop_first().flatten());
                    assert(keptv + rest.flatten() =~= prev.skip(left0));
                    assert(left0 <= prev.len());
                    vstd::seq_lib::lemma_seq_skip_of_skip(orig, (n - left0) as int, left0);
                    assert(orig.skip((n - left0) as int).skip(left0) =~= orig.skip(n as int));
                }
                left = 0;
            }
        }
        proof {
            assert(self.bytes() =~= orig.skip(n as int));
        }
    }
}

} // verus!
