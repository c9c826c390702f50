//! Byte sources: anything that can be asked for the next byte of a stream.
//!
//! A [`ByteSource`] answers each pull with a byte, with the end of the
//! stream, or with a read failure. Its contract speaks of the sequence of
//! bytes the source still has to offer, so the decoder on top of it can be
//! specified purely over that sequence. Two in-memory sources live here:
//! [`StaticBytes`] serves a byte vector directly, and [`ChunkedBytes`] serves
//! it through a fixed-capacity buffer that it refills chunk by chunk, the way
//! a buffered file reader does.

use vstd::prelude::*;

verus! {

/// A pull-based supplier of bytes.
///
/// `remaining()` is the sequence of bytes the source will still deliver and
/// `inv()` is its well-formedness; both are established by the constructors
/// of the concrete sources. A source with `infallible()` never reports a
/// read failure.
pub trait ByteSource: Sized {
    /// Well-formedness of the source's internal state. The default holds
    /// vacuously; it fits a source that the verifier has not seen, such as
    /// one reading a file, for which nothing is verified anyway.
    open spec fn inv(&self) -> bool {
        true
    }

    /// The bytes this source has yet to deliver, in order. The default
    /// leaves the view unspecified, for sources the verifier has not seen.
    open spec fn remaining(&self) -> Seq<u8> {
        vstd::pervasive::arbitrary()
    }

    /// True when no pull from this source can report a read failure. The
    /// default promises nothing.
    open spec fn infallible(&self) -> bool {
        false
    }

    /// Pulls the next byte: `Some(Ok(b))` for the next unread byte,
    /// `None` at the end of the stream, `Some(Err(e))` for a read failure.
    /// After a failure the exact position of the source is not promised;
    /// it only never gains bytes back.
    fn next_byte(&mut self) -> (r: Option<Result<u8, std::io::Error>>)
        requires
            old(self).inv(),
        ensures
            final(self).inv(),
            final(self).infallible() == old(self).infallible(),
            match r {
                Some(Ok(b)) => old(self).remaining().len() > 0 && b == old(self).remaining()[0]
                    && final(self).remaining() == old(self).remaining().drop_first(),
                Some(Err(_)) => !old(self).infallible() && final(self).remaining().len() <= old(
                    self,
                ).remaining().len(),
                None => old(self).remaining().len() == 0 && final(self).remaining() == old(
                    self,
                ).remaining(),
            },
    ;
}

/// A byte source over a vector held in memory, served byte by byte.
pub struct StaticBytes {
    data: Vec<u8>,
    pt: usize,
}

impl StaticBytes {
    /// Creates a source that will deliver exactly the bytes of `data`.
    pub fn new(data: Vec<u8>) -> (r: StaticBytes)
        ensures
            r.inv(),
            r.remaining() == data@,
            r.infallible(),
    {
        let r = StaticBytes { data, pt: 0 };
        proof {
            assert(r.remaining() =~= r.data@);
        }
        r
    }
}

impl ByteSource for StaticBytes {
    closed spec fn inv(&self) -> bool {
        self.pt <= self.data@.len()
    }

    closed spec fn remaining(&self) -> Seq<u8> {
        self.data@.skip(self.pt as int)
    }

    closed spec fn infallible(&self) -> bool {
        true
    }

    fn next_byte(&mut self) -> (r: Option<Result<u8, std::io::Error>>) {
        if self.pt < self.data.len() {
            let b = self.data[self.pt];
            self.pt = self.pt + 1;
            proof {
                assert(self.remaining() =~= old(self).remaining().drop_first());
            }
            Some(Ok(b))
        } else {
            None
        }
    }
}

/// A byte source that serves a vector through a fixed-capacity buffer,
/// refilled one chunk at a time: the buffering discipline of a buffered
/// file reader, with the stream contents held in memory.
///
/// The buffer owns a cursor `pt` and a count `max` of valid bytes, with
/// `pt <= max <= capacity`. When the cursor reaches the valid count, one
/// chunk is copied into the buffer, overwriting all of it.
pub struct ChunkedBytes {
    data: Vec<u8>,
    loaded: usize,
    buf: Vec<u8>,
    pt: usize,
    max: usize,
}

impl ChunkedBytes {
    /// Creates a source that will deliver exactly the bytes of `data`,
    /// serving them through a buffer of `capacity` bytes.
    pub fn new(data: Vec<u8>, capacity: usize) -> (r: ChunkedBytes)
        requires
            capacity >= 1,
        ensures
            r.inv(),
            r.remaining() == data@,
            r.infallible(),
    {
        let mut buf: Vec<u8> = Vec::new();
        while buf.len() < capacity
            invariant
                buf.len() <= capacity,
            decreases capacity - buf.len(),
        {
            buf.push(0);
        }
        let r = ChunkedBytes { data, loaded: 0, buf, pt: 0, max: 0 };
        proof {
            assert(r.remaining() =~= r.data@);
        }
        r
    }

    /// Refills the buffer with the next chunk of the stream. Called only
    /// when the buffer holds no unread byte, since all of it is overwritten.
    fn load(&mut self)
        requires
            old(self).inv(),
            old(self).pt == old(self).max,
        ensures
            final(self).inv(),
            final(self).remaining() == old(self).remaining(),
            final(self).pt == 0,
            final(self).max == 0 ==> final(self).remaining().len() == 0,
    {
        self.pt = 0;
        self.max = 0;
        let ghost data0 = self.data@;
        let ghost loaded0 = self.loaded as int;
        let ghost buflen0 = self.buf@.len();
        let avail = self.data.len() - self.loaded;
        let k = if avail < self.buf.len() {
            avail
        } else {
            self.buf.len()
        };
        let mut i: usize = 0;
        while i < k
            invariant
                i <= k,
                self.data@ == data0,
                self.loaded == loaded0,
                self.pt == 0,
                self.max == 0,
                self.buf@.len() == buflen0,
                k <= buflen0,
                loaded0 + k <= data0.len(),
                data0.len() <= usize::MAX,
                forall|j: int| 0 <= j < i ==> self.buf@[j] == data0[loaded0 + j],
            decreases k - i,
        {
            let b = self.data[self.loaded + i];
            self.buf[i] = b;
            i = i + 1;
        }
        self.max = k;
        self.loaded = self.loaded + k;
        proof {
            assert(self.buf@.subrange(0, k as int) =~= data0.subrange(loaded0, loaded0 + k));
            assert(self.remaining() =~= data0.skip(loaded0));
            assert(old(self).remaining() =~= data0.skip(loaded0));
        }
    }
}

impl ByteSource for ChunkedBytes {
    closed spec fn inv(&self) -> bool {
        &&& self.loaded <= self.data@.len()
        &&& self.pt <= self.max <= self.buf@.len()
        &&& self.buf@.len() >= 1
    }

    closed spec fn remaining(&self) -> Seq<u8> {
        self.buf@.subrange(self.pt as int, self.max as int) + self.data@.skip(self.loaded as int)
    }

    closed spec fn infallible(&self) -> bool {
        true
    }

    fn next_byte(&mut self) -> (r: Option<Result<u8, std::io::Error>>) {
        if self.pt >= self.max {
            self.load();
        }
        if self.pt < self.max {
            let b = self.buf[self.pt];
            self.pt = self.pt + 1;
            proof {
                assert(b == old(self).remaining()[0]);
                assert(self.remaining() =~= old(self).remaining().drop_first());
            }
            Some(Ok(b))
        } else {
            None
        }
    }
}

} // verus!
