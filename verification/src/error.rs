use vstd::prelude::*;

verus! {

/// Declares `std::io::Error` to the verifier so that a read failure from an
/// underlying byte source can be carried through the library unchanged.
/// Relies on `std::io::Error` only as an opaque value: the library never
/// inspects it, it only stores and returns it.
#[verifier::external_type_specification]
#[verifier::external_body]
pub struct ExIoError(std::io::Error);

/// The error produced while pulling decoded characters from a byte stream.
///
/// Every `offset` field counts the bytes consumed from the stream before the
/// position the error speaks of.
#[derive(Debug)]
pub enum Error {
    /// A read from the underlying byte source failed; carries the failure unchanged.
    Io(std::io::Error),
    /// A byte that cannot begin any UTF-8 sequence stood where a start byte
    /// was expected. `offset` is the number of bytes before the faulty byte.
    InvalidStartByte { offset: u64, byte: u8 },
    /// A byte inside a multi-byte sequence did not match the continuation
    /// pattern `10xxxxxx`. `offset` is the number of bytes before the faulty byte.
    InvalidFollowByte { offset: u64, byte: u8 },
    /// An assembled code point is not a Unicode scalar value (it falls in the
    /// surrogate range or lies above 0x10FFFF). `offset` is the number of bytes
    /// before the start byte of the faulty sequence.
    InvalidCodePoint { offset: u64, cp: u32 },
    /// The stream ended in the middle of a multi-byte sequence. `offset` is the
    /// number of bytes before the start byte of the unfinished sequence.
    TruncatedSequence { offset: u64 },
}

impl From<std::io::Error> for Error {
    fn from(err: std::io::Error) -> (r: Error)
        ensures
            r == Error::Io(err),
    {
        Error::Io(err)
    }
}

impl vstd::std_specs::convert::FromSpecImpl<std::io::Error> for Error {
    open spec fn obeys_from_spec() -> bool {
        true
    }

    open spec fn from_spec(err: std::io::Error) -> Error {
        Error::Io(err)
    }
}

} // verus!
