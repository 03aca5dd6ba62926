//! Request-body channel between the dispatcher and the service.
//!
//! Single producer (the dispatcher feeds decoded chunks), single consumer
//! (the service polls them off).  Chunks are delivered strictly in feed
//! order; an EOF or error terminator follows the last chunk.  The channel
//! state is a plain verified value; an unverified shell shares it between
//! the two sides and adds the wakeups.

use vstd::prelude::*;
use bytes::Bytes;
use crate::bytebuf::bytes_view;

verus! {

/// Error terminator delivered to the body consumer.
#[derive(Clone, Copy, PartialEq, Eq, Structural, Debug)]
pub enum BodyError {
    /// The connection failed while the body was being read.
    Io,
    /// The consumer half is gone; nothing can be delivered any more.
    Closed,
}

/// One consumer-side poll result.
pub enum BodyPoll {
    /// Nothing buffered yet; the body has not ended.
    Pending,
    /// The next body chunk, in feed order.
    Chunk(Bytes),
    /// The error terminator.
    Failed(BodyError),
    /// End of body; nothing follows.
    End,
}

/// The request-body channel state.
pub struct RequestBody {
    pub queue: Vec<Bytes>,
    pub eof: bool,
    pub failed: Option<BodyError>,
    pub consumer_gone: bool,
}

impl RequestBody {
    /// The queued chunks, oldest first.
    pub open spec fn chunks(self) -> Seq<Seq<u8>> {
        self.queue@.map_values(|b: Bytes| bytes_view(b))
    }

    /// Creates a channel; `eof` starts it already terminated (a request
    /// without a body).
    pub fn create(eof: bool) -> (r: RequestBody)
        ensures
            r.chunks() == Seq::<Seq<u8>>::empty(),
            r.eof == eof,
            r.failed is None,
            !r.consumer_gone,
    {
        let r = RequestBody { queue: Vec::new(), eof, failed: None, consumer_gone: false };
        proof {
            assert(r.chunks() =~= Seq::<Seq<u8>>::empty());
        }
        r
    }

    /// An already-terminated, empty body.
    pub fn empty() -> (r: RequestBody)
        ensures
            r.chunks() == Seq::<Seq<u8>>::empty(),
            r.eof,
            r.failed is None,
            !r.consumer_gone,
    {
        Self::create(true)
    }

    /// Producer side: true iff the channel has ended (EOF was fed).
    pub fn is_eof(&self) -> (r: bool)
        ensures
            r == self.eof,
    {
        self.eof
    }

    /// Producer side: the consumer has drained everything queued, so more
    /// may be read from the socket without unbounded buffering.
    pub fn ready(&self) -> (r: bool)
        ensures
            r == (self.chunks().len() == 0),
    {
        self.queue.len() == 0
    }

    /// Queues one chunk for the consumer.  Fails iff the consumer is gone.
    pub fn feed_data(&mut self, data: Bytes) -> (r: Result<(), BodyError>)
        ensures
            if old(self).consumer_gone {
                (r matches Err(e) && e == BodyError::Closed) && *final(self) == *old(self)
            } else {
                (r is Ok)
                    && final(self).chunks() == old(self).chunks().push(bytes_view(data))
                    && final(self).eof == old(self).eof
                    && final(self).failed == old(self).failed
                    && final(self).consumer_gone == old(self).consumer_gone
            },
    {
        if self.consumer_gone {
            return Err(BodyError::Closed);
        }
        let ghost pre = self.chunks();
        self.queue.push(data);
        proof {
            assert(self.chunks() =~= pre.push(bytes_view(data)));
        }
        Ok(())
    }

    /// Marks the end of the body.  Fails iff the consumer is gone.
    pub fn feed_eof(&mut self) -> (r: Result<(), BodyError>)
        ensures
            if old(self).consumer_gone {
                (r matches Err(e) && e == BodyError::Closed) && *final(self) == *old(self)
            } else {
                (r is Ok) && *final(self) == (RequestBody {
                    eof: true,
                    ..*old(self)
                })
            },
    {
        if self.consumer_gone {
            return Err(BodyError::Closed);
        }
        self.eof = true;
        Ok(())
    }

    /// Delivers an error terminator.  Fails iff the consumer is gone.
    pub fn feed_error(&mut self, e: BodyError) -> (r: Result<(), BodyError>)
        ensures
            if old(self).consumer_gone {
                (r matches Err(e) && e == BodyError::Closed) && *final(self) == *old(self)
            } else {
                (r is Ok) && *final(self) == (RequestBody {
                    failed: Some(e),
                    ..*old(self)
                })
            },
    {
        if self.consumer_gone {
            return Err(BodyError::Closed);
        }
        self.failed = Some(e);
        Ok(())
    }

    /// Consumer side: drops the consumer; later `feed_*` calls fail.
    pub fn drop_consumer(&mut self)
        ensures
            *final(self) == (RequestBody { consumer_gone: true, ..*old(self) }),
    {
        self.consumer_gone = true;
    }

    /// Consumer side: the next chunk in feed order, the terminator once
    /// the queue has drained, or `Pending`.
    pub fn poll_next(&mut self) -> (r: BodyPoll)
        ensures
            if old(self).chunks().len() > 0 {
                (r matches BodyPoll::Chunk(b) && bytes_view(b) == old(self).chunks()[0])
                    && final(self).chunks() == old(self).chunks().skip(1)
                    && final(self).eof == old(self).eof
                    && final(self).failed == old(self).failed
                    && final(self).consumer_gone == old(self).consumer_gone
            } else {
                match old(self).failed {
                    Some(e) => (r matches BodyPoll::Failed(ee) && ee == e) && *final(self)
                        == (RequestBody { failed: None, ..*old(self) }),
                    None => {
                        if old(self).eof {
                            (r matches BodyPoll::End) && *final(self) == *old(self)
                        } else {
                            (r matches BodyPoll::Pending) && *final(self) == *old(self)
                        }
                    },
                }
            },
    {
        if self.queue.len() > 0 {
            let ghost pre = self.chunks();
            let b = self.queue.remove(0);
            proof {
                assert(self.chunks() =~= pre.skip(1));
            }
            return BodyPoll::Chunk(b);
        }
        match self.failed {
            Some(e) => {
                self.failed = None;
                BodyPoll::Failed(e)
            },
            None => {
                if self.eof {
                    BodyPoll::End
                } else {
                    BodyPoll::Pending
                }
            },
        }
    }
}

} // verus!
