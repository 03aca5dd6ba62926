//! Unified request and response body types.

use vstd::prelude::*;
use bytes::Bytes;
use crate::bytebuf::bytes_view;

verus! {

/// A unified request body type, so one service type can handle more than
/// one protocol front end.
pub enum RequestBody {
    H1(crate::h1::body::RequestBody),
    Empty,
}

impl core::default::Default for RequestBody {
    fn default() -> (r: Self)
        ensures
            r is Empty,
    {
        RequestBody::Empty
    }
}

/// Body size hint; selects the response framing.
#[derive(Clone, Copy, PartialEq, Eq, Structural, Debug)]
pub enum ResponseBodySize {
    /// Absence of a body; no framing header is written.
    Empty,
    /// Known size; `content-length` is written.
    Sized(usize),
    /// Unknown size; chunked transfer encoding is used.
    Stream,
}

/// A unified response body: nothing, one buffer, or a caller-supplied
/// stream (opaque here; the shell polls it).
pub enum ResponseBody<B> {
    Empty,
    Buffer { data: Bytes, chunk_size: usize },
    Stream { stream: B },
}

impl<B> ResponseBody<B> {
    /// Construct a new Stream variant.
    pub fn stream(stream: B) -> (r: Self)
        ensures
            r matches ResponseBody::Stream { stream: s } && s == stream,
    {
        ResponseBody::Stream { stream }
    }

    /// Construct a new Buffer variant delivered as one chunk.
    pub fn buffer(data: Bytes) -> (r: Self)
        ensures
            r == (ResponseBody::<B>::Buffer { data, chunk_size: usize::MAX }),
    {
        Self::buffer_with_chunk_size(data, usize::MAX)
    }

    /// Construct a new Buffer variant split into chunks of the given size.
    pub fn buffer_with_chunk_size(data: Bytes, chunk_size: usize) -> (r: Self)
        ensures
            r == (ResponseBody::<B>::Buffer { data, chunk_size }),
    {
        ResponseBody::Buffer { data, chunk_size }
    }

    /// True iff the body has nothing (more) to deliver.
    pub fn is_eof(&self) -> (r: bool)
        ensures
            r == match self {
                ResponseBody::Empty => true,
                ResponseBody::Buffer { data, .. } => bytes_view(*data).len() == 0,
                ResponseBody::Stream { .. } => false,
            },
    {
        match self {
            ResponseBody::Empty => true,
            ResponseBody::Buffer { data, .. } => data.is_empty(),
            ResponseBody::Stream { .. } => false,
        }
    }

    /// The size hint that selects the response framing.
    pub fn size(&self) -> (r: ResponseBodySize)
        ensures
            r == match self {
                ResponseBody::Empty => ResponseBodySize::Empty,
                ResponseBody::Buffer { data, .. } => ResponseBodySize::Sized(
                    bytes_view(*data).len() as usize,
                ),
                ResponseBody::Stream { .. } => ResponseBodySize::Stream,
            },
    {
        match self {
            ResponseBody::Empty => ResponseBodySize::Empty,
            ResponseBody::Buffer { data, .. } => ResponseBodySize::Sized(data.len()),
            ResponseBody::Stream { .. } => ResponseBodySize::Stream,
        }
    }

    /// The next chunk of a buffered body: up to `chunk_size` bytes, `None`
    /// once drained.  A `Stream` body is polled by the shell, not here.
    pub fn next_chunk(&mut self) -> (r: Option<Bytes>)
        requires
            !(*old(self) is Stream),
        ensures
            match *old(self) {
                ResponseBody::Empty => r is None && *final(self) == *old(self),
                ResponseBody::Buffer { data, chunk_size } => {
                    if bytes_view(data).len() == 0 {
                        r is None && (*final(self) is Empty)
                    } else if (chunk_size as int) < bytes_view(data).len() {
                        (r matches Some(b) && bytes_view(b) == bytes_view(data).take(
                            chunk_size as int,
                        )) && (*final(self) matches ResponseBody::Buffer { data: nb, chunk_size: cs }
                            && bytes_view(nb) == bytes_view(data).skip(chunk_size as int) && cs
                            == chunk_size)
                    } else {
                        (r matches Some(b) && bytes_view(b) == bytes_view(data)) && (*final(self)
                            is Empty)
                    }
                },
                ResponseBody::Stream { .. } => false,
            },
    {
        match self {
            ResponseBody::Empty => None,
            ResponseBody::Buffer { data, chunk_size } => {
                if data.is_empty() {
                    *self = ResponseBody::Empty;
                    return None;
                }
                if *chunk_size < data.len() {
                    let cs = *chunk_size;
                    let head = data.split_to(cs);
                    return Some(head);
                }
                let mut whole = ResponseBody::Empty;
                core::mem::swap(self, &mut whole);
                match whole {
                    ResponseBody::Buffer { data, .. } => Some(data),
                    _ => None,
                }
            },
            ResponseBody::Stream { .. } => None,
        }
    }
}

} // verus!
