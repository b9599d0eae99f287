//! Bounded body capture.
//!
//! Forwarding and capture are separate consumers of the same bytes: the
//! wire sees everything, the capture keeps at most a configured prefix.

use vstd::prelude::*;

verus! {

/// Default capture cap for request and response bodies: 512 KiB.
pub const DEFAULT_BODY_CAPTURE_BYTES: usize = 524288;

/// A byte sink that never grows past its cap.
pub struct BodyCapture {
    buf: Vec<u8>,
    limit: usize,
}

impl BodyCapture {
    /// The bytes captured so far.
    pub closed spec fn bytes(self) -> Seq<u8> {
        self.buf@
    }

    /// The configured cap.
    pub closed spec fn cap(self) -> usize {
        self.limit
    }

    /// The capture never holds more than its cap.
    pub closed spec fn wf(self) -> bool {
        self.buf@.len() <= self.limit
    }

    /// A well-formed capture never holds more than its cap.
    pub proof fn lemma_bounded(self)
        requires
            self.wf(),
        ensures
            self.bytes().len() <= self.cap(),
    {
    }

    /// An empty capture with the given cap.
    pub fn new(limit: usize) -> (r: BodyCapture)
        ensures
            r.wf(),
            r.cap() == limit,
            r.bytes() == Seq::<u8>::empty(),
    {
        BodyCapture { buf: Vec::new(), limit }
    }

    /// Append as much of `data` as the cap still allows; the rest is
    /// dropped. Forwarding is unaffected: this is capture only.
    pub fn push(&mut self, data: &[u8])
        requires
            old(self).wf(),
        ensures
            final(self).wf(),
            final(self).cap() == old(self).cap(),
            final(self).bytes() == old(self).bytes() + data@.take(
                if data@.len() <= old(self).cap() - old(self).bytes().len() {
                    data@.len() as int
                } else {
                    old(self).cap() - old(self).bytes().len()
                },
            ),
    {
        let room: usize = self.limit - self.buf.len();
        let take: usize = if data.len() <= room {
            data.len()
        } else {
            room
        };
        let mut i: usize = 0;
        while i < take
            invariant
                i <= take,
                take <= data@.len(),
                self.buf@.len() == old(self).buf@.len() + i,
                self.limit == old(self).limit,
                old(self).buf@.len() + take <= self.limit,
                self.buf@ == old(self).buf@ + data@.take(i as int),
            decreases take - i,
        {
            self.buf.push(data[i]);
            proof {
                assert(data@.take(i + 1) =~= data@.take(i as int).push(data@[i as int]));
                assert(self.buf@ =~= old(self).buf@ + data@.take(i + 1));
            }
            i += 1;
        }
    }

    /// Number of bytes captured.
    pub fn len(&self) -> (r: usize)
        ensures
            r == self.bytes().len(),
    {
        self.buf.len()
    }

    /// The captured bytes, or `None` when nothing was captured.
    pub fn into_option(self) -> (r: Option<Vec<u8>>)
        ensures
            match r {
                Some(b) => b@ == self.bytes() && self.bytes().len() > 0,
                None => self.bytes().len() == 0,
            },
    {
        if self.buf.len() == 0 {
            None
        } else {
            Some(self.buf)
        }
    }
}

} // verus!
