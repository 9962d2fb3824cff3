//! Why a RESP frame could not be decoded.
use vstd::prelude::*;
use vstd::string::StringSliceAdditionalSpecFns;

verus! {

/// What was wrong with a length-prefixed part of a frame.
#[derive(Debug, Clone, Copy, PartialEq, Eq, Structural)]
pub enum ParseFault {
    /// The length header is not canonical decimal, or does not fit in 64 bits.
    InvalidLength,
    /// An integer line that is not a decimal `i64`.
    InvalidInteger,
    /// The payload is not followed by CRLF.
    MissingLineEnd,
}

/// A decoding error.
#[derive(Debug, Clone, Copy, PartialEq, Eq, Structural)]
pub enum ErrMessages {
    /// A null sentinel (`$-1` or `*-1`) where a value was required.
    MissingBulkString,
    /// No bytes where a frame was expected.
    EmptyInput,
    /// The frame starts with a byte that is no RESP type prefix.
    UnknownInput(u8),
    /// A malformed length header or payload.
    ParseError(ParseFault),
    /// An array element that is not a bulk string.
    UnexpectedVariant,
    /// The input ends before the frame does: a payload shorter than its
    /// header announced, or fewer array elements than announced.
    Incomplete,
}

/// The text that describes a parse fault.
pub open spec fn fault_text(f: ParseFault) -> Seq<u8> {
    match f {
        ParseFault::InvalidLength => "invalid length header".spec_bytes(),
        ParseFault::InvalidInteger => "invalid integer".spec_bytes(),
        ParseFault::MissingLineEnd => "payload not followed by CRLF".spec_bytes(),
    }
}

/// The text that describes a decoding error.
pub open spec fn error_text(e: ErrMessages) -> Seq<u8> {
    match e {
        ErrMessages::MissingBulkString => "Bulk string cannot be empty or null!".spec_bytes(),
        ErrMessages::EmptyInput => "Input cannot be empty!".spec_bytes(),
        ErrMessages::UnknownInput(b) => "Unknown input: ".spec_bytes().push(b),
        ErrMessages::ParseError(f) => "Unparsable frame: ".spec_bytes() + fault_text(f),
        ErrMessages::UnexpectedVariant => "Unexpected variant!".spec_bytes(),
        ErrMessages::Incomplete => "Input ends before the frame does!".spec_bytes(),
    }
}

fn bytes_of(s: &str) -> (r: Vec<u8>)
    ensures
        r@ == s.spec_bytes(),
{
    vstd::slice::slice_to_vec(s.as_bytes())
}

impl ErrMessages {
    /// A human-readable description of the error.
    pub fn message(&self) -> (r: Vec<u8>)
        ensures
            r@ == error_text(*self),
    {
        match self {
            ErrMessages::MissingBulkString => bytes_of("Bulk string cannot be empty or null!"),
            ErrMessages::EmptyInput => bytes_of("Input cannot be empty!"),
            ErrMessages::UnknownInput(b) => {
                let mut r = bytes_of("Unknown input: ");
                r.push(*b);
                r
            },
            ErrMessages::ParseError(f) => {
                let mut r = bytes_of("Unparsable frame: ");
                let mut detail = match f {
                    ParseFault::InvalidLength => bytes_of("invalid length header"),
                    ParseFault::InvalidInteger => bytes_of("invalid integer"),
                    ParseFault::MissingLineEnd => bytes_of("payload not followed by CRLF"),
                };
                r.append(&mut detail);
                r
            },
            ErrMessages::UnexpectedVariant => bytes_of("Unexpected variant!"),
            ErrMessages::Incomplete => bytes_of("Input ends before the frame does!"),
        }
    }
}

} // verus!
