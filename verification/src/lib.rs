//! A pull-based UTF-8 decoder over a byte source.
//!
//! A [`Fiter`] wraps a [`ByteSource`] and, on every call to [`Fiter::next`],
//! pulls the one to four bytes of the next UTF-8 sequence, validates them,
//! and yields the decoded character, the end of the stream, or the error
//! that stops decoding. The outcome of each call is fixed by the unread
//! bytes of the source alone, as [`decode::step_result`] states it.

pub mod decode;
pub mod error;
pub mod source;

pub use error::Error;
pub use source::ByteSource;
pub use source::ChunkedBytes;
pub use source::StaticBytes;

use crate::decode::follow_issue;
use crate::decode::start_width;
use crate::decode::step_len;
use crate::decode::step_result;
use vstd::prelude::*;
use vstd::utf8::decode_first_codepoint;
use vstd::utf8::is_continuation_byte;
use vstd::utf8::is_scalar;

verus! {

/// Relies on `char::from_u32`: returns the character with the given code
/// point exactly when the value is a Unicode scalar value, that is, not in
/// the surrogate range 0xD800..=0xDFFF and at most 0x10FFFF.
#[verifier::external_body]
fn char_from_u32(v: u32) -> (r: Option<char>)
    ensures
        is_scalar(v) ==> r == Some(v as char),
        !is_scalar(v) ==> r is None,
{
    char::from_u32(v)
}

/// The iterator over the characters of a byte stream.
pub struct Fiter<T: ByteSource> {
    /// The source the characters are pulled from.
    pub bytes: T,
    /// The number of bytes consumed from the source so far.
    pub offset: u64,
}

impl<T: ByteSource> Fiter<T> {
    /// Well-formedness: the source is well formed and the byte offset can
    /// count to the end of the stream without wrapping.
    pub open spec fn wf(&self) -> bool {
        &&& self.bytes.inv()
        &&& self.offset + self.bytes.remaining().len() <= u64::MAX
    }

    /// Creates a new `Fiter` over the given byte source.
    pub fn new(bytes: T) -> (r: Fiter<T>)
        requires
            bytes.inv(),
            bytes.remaining().len() <= u64::MAX,
        ensures
            r.wf(),
            r.bytes == bytes,
            r.offset == 0,
    {
        Fiter { bytes, offset: 0 }
    }

    /// Pulls one byte from the source, counting it into the offset.
    fn next_byte(&mut self) -> (r: Option<Result<u8, std::io::Error>>)
        requires
            old(self).wf(),
        ensures
            final(self).wf(),
            final(self).bytes.infallible() == old(self).bytes.infallible(),
            match r {
                Some(Ok(b)) => old(self).bytes.remaining().len() > 0 && b == old(
                    self,
                ).bytes.remaining()[0] && final(self).bytes.remaining() == old(
                    self,
                ).bytes.remaining().drop_first() && final(self).offset == old(self).offset + 1,
                Some(Err(_)) => !old(self).bytes.infallible() && final(self).offset == old(
                    self,
                ).offset,
                None => old(self).bytes.remaining().len() == 0 && final(self).bytes.remaining()
                    == old(self).bytes.remaining() && final(self).offset == old(self).offset,
            },
    {
        match self.bytes.next_byte() {
            Some(Ok(b)) => {
                self.offset = self.offset + 1;
                Some(Ok(b))
            },
            Some(Err(e)) => Some(Err(e)),
            None => None,
        }
    }

    /// Pulls one continuation byte of a sequence whose start byte stood
    /// `start_offset` bytes into the stream, and validates its bit pattern.
    fn next_follow(&mut self, start_offset: u64) -> (r: Result<u8, Error>)
        requires
            old(self).wf(),
        ensures
            final(self).wf(),
            final(self).bytes.infallible() == old(self).bytes.infallible(),
            match r {
                Ok(b) => old(self).bytes.remaining().len() > 0 && b == old(
                    self,
                ).bytes.remaining()[0] && is_continuation_byte(b) && final(self).bytes.remaining()
                    == old(self).bytes.remaining().drop_first() && final(self).offset == old(
                    self,
                ).offset + 1,
                Err(e) => match e {
                    Error::Io(_) => !old(self).bytes.infallible(),
                    Error::InvalidFollowByte { offset, byte } => old(self).bytes.remaining().len()
                        > 0 && byte == old(self).bytes.remaining()[0] && !is_continuation_byte(byte)
                        && offset == old(self).offset && final(self).bytes.remaining() == old(
                        self,
                    ).bytes.remaining().drop_first() && final(self).offset == old(self).offset + 1,
                    Error::TruncatedSequence { offset } => old(self).bytes.remaining().len() == 0
                        && offset == start_offset && final(self).bytes.remaining() == old(
                        self,
                    ).bytes.remaining() && final(self).offset == old(self).offset,
                    _ => false,
                },
            },
    {
        let pos = self.offset;
        match self.next_byte() {
            None => Err(Error::TruncatedSequence { offset: start_offset }),
            Some(Err(e)) => Err(Error::Io(e)),
            Some(Ok(b)) => {
                if 0x80 <= b && b <= 0xbf {
                    Ok(b)
                } else {
                    Err(Error::InvalidFollowByte { offset: pos, byte: b })
                }
            },
        }
    }

    /// Decodes the next character of the stream.
    ///
    /// One UTF-8 encoded character is one to four bytes long:
    /// `0xxxxxxx`, `110xxxxx 10xxxxxx`, `1110xxxx 10xxxxxx 10xxxxxx`, or
    /// `11110xxx 10xxxxxx 10xxxxxx 10xxxxxx`. The start byte announces the
    /// length of the sequence; the bits written `x` carry the code point.
    ///
    /// Yields `None` once the source is exhausted at a character boundary,
    /// and otherwise the next character, or the error that stops decoding.
    /// Unless the source itself fails, the outcome, the bytes consumed and
    /// the new offset are exactly the ones [`step_result`] and [`step_len`]
    /// give for the source's unread bytes.
    pub fn next(&mut self) -> (r: Option<Result<char, Error>>)
        requires
            old(self).wf(),
        ensures
            final(self).wf(),
            final(self).bytes.infallible() == old(self).bytes.infallible(),
            ({
                let rem0 = old(self).bytes.remaining();
                let off0 = old(self).offset;
                ||| (r matches Some(Err(e)) && e is Io && !old(self).bytes.infallible())
                ||| {
                    &&& r == step_result(rem0, off0)
                    &&& final(self).offset == off0 + step_len(rem0)
                    &&& final(self).bytes.remaining() == rem0.skip(step_len(rem0))
                }
            }),
    {
        let ghost rem0 = self.bytes.remaining();
        let ghost off0 = self.offset;
        let start_offset = self.offset;
        let start = match self.next_byte() {
            None => {
                proof {
                    assert(rem0.skip(0) =~= rem0);
                }
                return None;
            },
            Some(Err(e)) => {
                return Some(Err(Error::Io(e)));
            },
            Some(Ok(b)) => b,
        };
        proof {
            assert(self.bytes.remaining() =~= rem0.skip(1));
        }
        if start <= 0x7f {
            let cp = (start & 0x7f) as u32;
            finish_code_point(cp, start_offset, Ghost(rem0), Ghost(off0), Ghost(1))
        } else if 0xc0 <= start && start <= 0xdf {
            let f1 = match self.next_follow(start_offset) {
                Ok(b) => b,
                Err(e) => {
                    proof {
                        if rem0.len() >= 2 {
                            assert(rem0.skip(1).drop_first() =~= rem0.skip(2));
                        }
                    }
                    return Some(Err(e));
                },
            };
            let cp = ((start & 0x1f) as u32) << 6 | ((f1 & 0x3f) as u32);
            proof {
                assert(f1 == rem0[1]);
                assert(rem0.skip(1).drop_first() =~= rem0.skip(2));
            }
            finish_code_point(cp, start_offset, Ghost(rem0), Ghost(off0), Ghost(2))
        } else if 0xe0 <= start && start <= 0xef {
            let f1 = match self.next_follow(start_offset) {
                Ok(b) => b,
                Err(e) => {
                    proof {
                        if rem0.len() >= 2 {
                            assert(rem0.skip(1).drop_first() =~= rem0.skip(2));
                        }
                    }
                    return Some(Err(e));
                },
            };
            let f2 = match self.next_follow(start_offset) {
                Ok(b) => b,
                Err(e) => {
                    proof {
                        assert(f1 == rem0[1]);
                        assert(rem0.skip(1).drop_first() =~= rem0.skip(2));
                        if rem0.len() >= 3 {
                            assert(rem0.skip(2).drop_first() =~= rem0.skip(3));
                        }
                    }
                    return Some(Err(e));
                },
            };
            let cp = ((start & 0x0f) as u32) << 12 | ((f1 & 0x3f) as u32) << 6 | ((f2
                & 0x3f) as u32);
            proof {
                assert(f1 == rem0[1]);
                assert(f2 == rem0[2]);
                assert(rem0.skip(1).drop_first() =~= rem0.skip(2));
                assert(rem0.skip(2).drop_first() =~= rem0.skip(3));
            }
            finish_code_point(cp, start_offset, Ghost(rem0), Ghost(off0), Ghost(3))
        } else if 0xf0 <= start && start <= 0xf7 {
            let f1 = match self.next_follow(start_offset) {
                Ok(b) => b,
                Err(e) => {
                    proof {
                        if rem0.len() >= 2 {
                            assert(rem0.skip(1).drop_first() =~= rem0.skip(2));
                        }
                    }
                    return Some(Err(e));
                },
            };
            let f2 = match self.next_follow(start_offset) {
                Ok(b) => b,
                Err(e) => {
                    proof {
                        assert(f1 == rem0[1]);
                        assert(rem0.skip(1).drop_first() =~= rem0.skip(2));
                        if rem0.len() >= 3 {
                            assert(rem0.skip(2).drop_first() =~= rem0.skip(3));
                        }
                    }
                    return Some(Err(e));
                },
            };
            let f3 = match self.next_follow(start_offset) {
                Ok(b) => b,
                Err(e) => {
                    proof {
                        assert(f1 == rem0[1]);
                        assert(f2 == rem0[2]);
                        assert(rem0.skip(1).drop_first() =~= rem0.skip(2));
                        assert(rem0.skip(2).drop_first() =~= rem0.skip(3));
                        if rem0.len() >= 4 {
                            assert(rem0.skip(3).drop_first() =~= rem0.skip(4));
                        }
                    }
                    return Some(Err(e));
                },
            };
            let cp = ((start & 0x07) as u32) << 18 | ((f1 & 0x3f) as u32) << 12 | ((f2
                & 0x3f) as u32) << 6 | ((f3 & 0x3f) as u32);
            proof {
                assert(f1 == rem0[1]);
                assert(f2 == rem0[2]);
                assert(f3 == rem0[3]);
                assert(rem0.skip(1).drop_first() =~= rem0.skip(2));
                assert(rem0.skip(2).drop_first() =~= rem0.skip(3));
                assert(rem0.skip(3).drop_first() =~= rem0.skip(4));
            }
            finish_code_point(cp, start_offset, Ghost(rem0), Ghost(off0), Ghost(4))
        } else {
            Some(Err(Error::InvalidStartByte { offset: start_offset, byte: start }))
        }
    }

}

impl Fiter<ChunkedBytes> {
    /// Creates a buffered `Fiter`: the bytes of `data` are served through a
    /// fixed-capacity buffer of `capacity` bytes, refilled chunk by chunk.
    pub fn new_buffered(data: Vec<u8>, capacity: usize) -> (r: Fiter<ChunkedBytes>)
        requires
            capacity >= 1,
        ensures
            r.wf(),
            r.bytes.remaining() == data@,
            r.bytes.infallible(),
            r.offset == 0,
    {
        proof {
            vstd::std_specs::vec::axiom_spec_len(&data);
        }
        let src = ChunkedBytes::new(data, capacity);
        Fiter::new(src)
    }
}

/// Byte-source variants are indistinguishable from the decoder's side: the
/// outcome of a decoding step and the bytes it consumes are fixed by the
/// unread bytes of the stream alone, whatever kind of source serves them.
pub proof fn lemma_source_indistinguishable<A: ByteSource, B: ByteSource>(x: Fiter<A>, y: Fiter<B>)
    requires
        x.bytes.remaining() == y.bytes.remaining(),
        x.offset == y.offset,
    ensures
        step_result(x.bytes.remaining(), x.offset) == step_result(y.bytes.remaining(), y.offset),
        step_len(x.bytes.remaining()) == step_len(y.bytes.remaining()),
{
}

/// Converts a fully assembled code point into the step's outcome: the
/// character it names, or the invalid-code-point error when it is not a
/// Unicode scalar value.
fn finish_code_point(
    cp: u32,
    start_offset: u64,
    Ghost(rem0): Ghost<Seq<u8>>,
    Ghost(off0): Ghost<u64>,
    Ghost(w): Ghost<int>,
) -> (r: Option<Result<char, Error>>)
    requires
        rem0.len() >= w,
        1 <= w <= 4,
        start_width(rem0[0]) == w,
        follow_issue(rem0, w) == w,
        cp == decode_first_codepoint(rem0),
        start_offset == off0,
    ensures
        r == step_result(rem0, off0),
        step_len(rem0) == w,
{
    match char_from_u32(cp) {
        Some(c) => Some(Ok(c)),
        None => Some(Err(Error::InvalidCodePoint { offset: start_offset, cp })),
    }
}

} // verus!
