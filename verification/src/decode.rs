//! The mathematical description of one decoding step.
//!
//! A decoding step consumes the shortest prefix of the byte stream that
//! settles the outcome: nothing on an empty stream, one byte for an ASCII
//! character or an invalid start byte, and up to four bytes for a multi-byte
//! sequence. [`step_result`] gives the outcome of the step and [`step_len`]
//! the number of bytes the step consumes; the decoder's contract ties every
//! call to these two functions.

use crate::error::Error;
use vstd::prelude::*;
use vstd::utf8::char_is_scalar;
use vstd::utf8::char_u32_cast;
use vstd::utf8::codepoint_width_1;
use vstd::utf8::decode_first_codepoint;
use vstd::utf8::encode_scalar;
use vstd::utf8::encode_utf8;
use vstd::utf8::encode_utf8_first_scalar;
use vstd::utf8::is_continuation_byte;
use vstd::utf8::is_leading_byte_width_1;
use vstd::utf8::is_leading_byte_width_2;
use vstd::utf8::is_leading_byte_width_3;
use vstd::utf8::is_leading_byte_width_4;
use vstd::utf8::codepoint_width_2;
use vstd::utf8::codepoint_width_3;
use vstd::utf8::decode_utf8;
use vstd::utf8::is_scalar;
use vstd::utf8::length_of_first_scalar;
use vstd::utf8::pop_first_scalar;
use vstd::utf8::valid_first_scalar;
use vstd::utf8::valid_utf8;

verus! {

/// The number of bytes in the sequence announced by a start byte, or 0 when
/// the byte cannot begin any UTF-8 sequence (a stray continuation byte, or a
/// byte of the form `11111xxx`).
pub open spec fn start_width(b: u8) -> int {
    if is_leading_byte_width_1(b) {
        1
    } else if is_leading_byte_width_2(b) {
        2
    } else if is_leading_byte_width_3(b) {
        3
    } else if is_leading_byte_width_4(b) {
        4
    } else {
        0
    }
}

/// True when the stream holds a byte at position `i` and that byte matches
/// the continuation pattern `10xxxxxx`.
pub open spec fn follow_at(s: Seq<u8>, i: int) -> bool {
    i < s.len() && is_continuation_byte(s[i])
}

/// The position of the first trouble among the continuation bytes that a
/// start byte of width `w` announces: the first position in `1..w` where the
/// stream either ends or holds a byte that is no continuation byte. Equals
/// `w` when all announced continuation bytes are present and well formed.
pub open spec fn follow_issue(s: Seq<u8>, w: int) -> int {
    if w >= 2 && !follow_at(s, 1) {
        1
    } else if w >= 3 && !follow_at(s, 2) {
        2
    } else if w >= 4 && !follow_at(s, 3) {
        3
    } else {
        w
    }
}

/// The outcome of one decoding step on a stream whose unread bytes are `s`,
/// after `off` bytes have already been consumed: `None` at the end of the
/// stream, otherwise the next character or the error that stops the decoder.
pub open spec fn step_result(s: Seq<u8>, off: u64) -> Option<Result<char, Error>> {
    if s.len() == 0 {
        None
    } else {
        let b = s[0];
        let w = start_width(b);
        if w == 0 {
            Some(Err(Error::InvalidStartByte { offset: off, byte: b }))
        } else {
            let j = follow_issue(s, w);
            if j < w {
                if j >= s.len() {
                    Some(Err(Error::TruncatedSequence { offset: off }))
                } else {
                    Some(Err(Error::InvalidFollowByte { offset: (off + j) as u64, byte: s[j] }))
                }
            } else {
                let cp = decode_first_codepoint(s);
                if is_scalar(cp) {
                    Some(Ok(cp as char))
                } else {
                    Some(Err(Error::InvalidCodePoint { offset: off, cp }))
                }
            }
        }
    }
}

/// The number of bytes one decoding step consumes from a stream whose unread
/// bytes are `s`: every byte it pulled, including a faulty one, but not a
/// pull that only found the end of the stream.
pub open spec fn step_len(s: Seq<u8>) -> int {
    if s.len() == 0 {
        0
    } else {
        let w = start_width(s[0]);
        if w == 0 {
            1
        } else {
            let j = follow_issue(s, w);
            if j == w {
                w
            } else if j >= s.len() {
                j
            } else {
                j + 1
            }
        }
    }
}

/// An empty stream ends at once: one decoding step yields end-of-stream,
/// with no error and no byte consumed.
pub proof fn lemma_empty_stream(s: Seq<u8>, off: u64)
    requires
        s.len() == 0,
    ensures
        step_result(s, off) == None::<Result<char, Error>>,
        step_len(s) == 0,
{
}

/// Round trip: one decoding step on the canonical UTF-8 encoding of any
/// character yields exactly that character and consumes the whole encoding,
/// so nothing of it is left behind.
pub proof fn lemma_round_trip(c: char, off: u64)
    ensures
        step_result(encode_scalar(c as u32), off) == Some(Ok::<char, Error>(c)),
        step_len(encode_scalar(c as u32)) == encode_scalar(c as u32).len(),
{
    let s = encode_scalar(c as u32);
    let cs = seq![c];
    assert(encode_utf8(cs.drop_first()) =~= Seq::<u8>::empty());
    assert(encode_utf8(cs) =~= s);
    encode_utf8_first_scalar(cs);
    assert(valid_first_scalar(s));
    assert(decode_first_codepoint(s) == c as u32);
    assert(s.len() == length_of_first_scalar(s));
    char_is_scalar(c);
    char_u32_cast(c, (c as u32) as u32);
}

/// ASCII identity: a single byte below 0x80 decodes to the character with
/// exactly that code point.
pub proof fn lemma_ascii_identity(b: u8, off: u64)
    requires
        b < 0x80,
    ensures
        step_result(seq![b], off) == Some(Ok::<char, Error>(b as char)),
        step_len(seq![b]) == 1,
{
    let s = seq![b];
    assert(b & 0x7f == b) by (bit_vector)
        requires
            b < 0x80,
    ;
    assert(codepoint_width_1(b) == b as u32);
    assert(is_scalar(b as u32));
}

/// Length determinism: when a valid start byte is followed by the
/// continuation bytes its bit pattern announces, the step consumes exactly
/// the announced number of bytes, no more and no fewer.
pub proof fn lemma_length_determinism(s: Seq<u8>, off: u64)
    requires
        s.len() > 0,
        start_width(s[0]) >= 1,
        s.len() >= start_width(s[0]),
        forall|i: int| 1 <= i < start_width(s[0]) ==> is_continuation_byte(s[i]),
    ensures
        step_len(s) == start_width(s[0]),
{
    let w = start_width(s[0]);
    if w >= 2 {
        assert(is_continuation_byte(s[1]));
    }
    if w >= 3 {
        assert(is_continuation_byte(s[2]));
    }
    if w >= 4 {
        assert(is_continuation_byte(s[3]));
    }
}

/// A truncated sequence is an error, never a silently dropped character: a
/// stream holding a 4-byte start byte and fewer than three bytes after it
/// yields a decoding error, and when every byte after the start byte is a
/// well-formed continuation byte, that error is exactly the truncation
/// error anchored at the start of the sequence.
pub proof fn lemma_truncated_sequence(s: Seq<u8>, off: u64)
    requires
        s.len() > 0,
        is_leading_byte_width_4(s[0]),
        s.len() < 4,
    ensures
        step_result(s, off) matches Some(Err(e)) && !(e is Io),
        (forall|i: int| 1 <= i < s.len() ==> is_continuation_byte(s[i])) ==> step_result(s, off)
            == Some(Err::<char, Error>(Error::TruncatedSequence { offset: off })),
{
    assert(start_width(s[0]) == 4);
    if forall|i: int| 1 <= i < s.len() ==> is_continuation_byte(s[i]) {
        if s.len() >= 2 {
            assert(is_continuation_byte(s[1]));
        }
        if s.len() >= 3 {
            assert(is_continuation_byte(s[2]));
        }
        assert(follow_issue(s, 4) == s.len());
    }
}

proof fn lemma_codepoint_width_1_bound(b1: u8)
    by (bit_vector)
    ensures
        codepoint_width_1(b1) <= 0x7f,
{
}

proof fn lemma_codepoint_width_2_bound(b1: u8, b2: u8)
    by (bit_vector)
    ensures
        codepoint_width_2(b1, b2) <= 0x7ff,
{
}

proof fn lemma_codepoint_width_3_bound(b1: u8, b2: u8, b3: u8)
    by (bit_vector)
    ensures
        codepoint_width_3(b1, b2, b3) <= 0xffff,
{
}

/// On a stream that is valid UTF-8 throughout, one decoding step yields the
/// first character of the stream's decoding, consumes exactly that
/// character's encoding, and leaves a valid stream that decodes to the rest.
pub proof fn lemma_valid_stream_step(s: Seq<u8>, off: u64)
    requires
        valid_utf8(s),
        s.len() > 0,
    ensures
        step_result(s, off) == Some(Ok::<char, Error>(decode_utf8(s)[0])),
        step_len(s) == length_of_first_scalar(s),
        valid_utf8(s.skip(step_len(s))),
        decode_utf8(s.skip(step_len(s))) == decode_utf8(s).drop_first(),
{
    assert(valid_first_scalar(s));
    let cp = decode_first_codepoint(s);
    if is_leading_byte_width_1(s[0]) {
        lemma_codepoint_width_1_bound(s[0]);
    } else if is_leading_byte_width_2(s[0]) {
        lemma_codepoint_width_2_bound(s[0], s[1]);
    } else if is_leading_byte_width_3(s[0]) {
        lemma_codepoint_width_3_bound(s[0], s[1], s[2]);
    }
    assert(is_scalar(cp));
    assert(s.skip(step_len(s)) =~= pop_first_scalar(s));
    assert(decode_utf8(s.skip(step_len(s))) =~= decode_utf8(s).drop_first());
}

} // verus!
