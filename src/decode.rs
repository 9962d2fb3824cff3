//! The RESP decoder: one top-level frame out of a byte buffer, with the
//! bytes that follow it.
//!
//! Every line ends at its first CRLF, and every bulk payload is followed by
//! one. Input that ends before the frame does (a line without its CRLF, a
//! payload shorter than announced, a missing array element) is `Incomplete`,
//! kept apart from malformed input so that a reader can wait for more bytes.
use crate::error::{ErrMessages, ParseFault};
use crate::text::{crlf, i64_value, length_value, parse_i64, parse_length, seqs_view};
use vstd::prelude::*;

verus! {

/// The index of the first CRLF at or after `i`.
pub open spec fn crlf_from(s: Seq<u8>, i: int) -> Option<int>
    decreases s.len() - i,
{
    if i < 0 || i + 1 >= s.len() {
        None
    } else if s[i] == 13u8 && s[i + 1] == 10u8 {
        Some(i)
    } else {
        crlf_from(s, i + 1)
    }
}

pub proof fn lemma_crlf_from(s: Seq<u8>, i: int)
    ensures
        match crlf_from(s, i) {
            Some(j) => 0 <= i <= j && j + 1 < s.len() && s[j] == 13u8 && s[j + 1] == 10u8,
            None => true,
        },
    decreases s.len() - i,
{
    if !(i < 0 || i + 1 >= s.len()) && !(s[i] == 13u8 && s[i + 1] == 10u8) {
        lemma_crlf_from(s, i + 1);
    }
}

/// The bytes before the first CRLF and those after it; `None` without a CRLF.
pub open spec fn line_split(s: Seq<u8>) -> Option<(Seq<u8>, Seq<u8>)> {
    match crlf_from(s, 0) {
        Some(i) => Some((s.subrange(0, i), s.subrange(i + 2, s.len() as int))),
        None => None,
    }
}

/// The length header of a null sentinel.
pub open spec fn null_header() -> Seq<u8> {
    seq![45u8, 49u8]
}

/// A bulk string after its `$`: the payload and the bytes after it.
pub open spec fn bulk_spec(s: Seq<u8>) -> Result<(Seq<u8>, Seq<u8>), ErrMessages> {
    match line_split(s) {
        None => Err(ErrMessages::Incomplete),
        Some((header, body)) => if header == null_header() {
            Err(ErrMessages::MissingBulkString)
        } else {
            match length_value(header) {
                None => Err(ErrMessages::ParseError(ParseFault::InvalidLength)),
                Some(n) => if body.len() < n {
                    Err(ErrMessages::Incomplete)
                } else if body.len() < n + 2 {
                    if body.len() == n || body[n as int] == 13u8 {
                        Err(ErrMessages::Incomplete)
                    } else {
                        Err(ErrMessages::ParseError(ParseFault::MissingLineEnd))
                    }
                } else if body.subrange(n as int, n + 2) == crlf() {
                    Ok((body.subrange(0, n as int), body.subrange(n + 2, body.len() as int)))
                } else {
                    Err(ErrMessages::ParseError(ParseFault::MissingLineEnd))
                },
            }
        },
    }
}

/// One element of a command array: a bulk string, prefix included.
pub open spec fn element_spec(s: Seq<u8>) -> Result<(Seq<u8>, Seq<u8>), ErrMessages> {
    if s.len() == 0 {
        Err(ErrMessages::Incomplete)
    } else if s[0] == 36u8 {
        bulk_spec(s.drop_first())
    } else if s[0] == 42u8 || s[0] == 43u8 || s[0] == 45u8 || s[0] == 58u8 {
        Err(ErrMessages::UnexpectedVariant)
    } else {
        Err(ErrMessages::UnknownInput(s[0]))
    }
}

/// `n` more elements read from `s`, after those already in `acc`.
pub open spec fn elements_spec(acc: Seq<Seq<u8>>, s: Seq<u8>, n: nat) -> Result<
    (Seq<Seq<u8>>, Seq<u8>),
    ErrMessages,
>
    decreases n,
{
    if n == 0 {
        Ok((acc, s))
    } else {
        match element_spec(s) {
            Err(e) => Err(e),
            Ok((x, rest)) => elements_spec(acc.push(x), rest, (n - 1) as nat),
        }
    }
}

/// An array of bulk strings after its `*`: the elements and the bytes after them.
pub open spec fn array_spec(s: Seq<u8>) -> Result<(Seq<Seq<u8>>, Seq<u8>), ErrMessages> {
    match line_split(s) {
        None => Err(ErrMessages::Incomplete),
        Some((header, body)) => if header == null_header() {
            Err(ErrMessages::MissingBulkString)
        } else {
            match length_value(header) {
                None => Err(ErrMessages::ParseError(ParseFault::InvalidLength)),
                Some(n) => elements_spec(Seq::empty(), body, n as nat),
            }
        },
    }
}

/// A decoded frame, as values, each with the bytes after it.
pub enum Decoded {
    SimpleString(Seq<u8>, Seq<u8>),
    Error(Seq<u8>, Seq<u8>),
    Integer(i64, Seq<u8>),
    BulkString(Seq<u8>, Seq<u8>),
    /// An array of bulk strings.
    Array(Seq<Seq<u8>>, Seq<u8>),
}

/// The whole decoder.
pub open spec fn deserialize_spec(s: Seq<u8>) -> Result<Decoded, ErrMessages> {
    if s.len() == 0 {
        Err(ErrMessages::EmptyInput)
    } else {
        let rest = s.drop_first();
        if s[0] == 43u8 || s[0] == 45u8 || s[0] == 58u8 {
            match line_split(rest) {
                None => Err(ErrMessages::Incomplete),
                Some((line, after)) => if s[0] == 43u8 {
                    Ok(Decoded::SimpleString(line, after))
                } else if s[0] == 45u8 {
                    Ok(Decoded::Error(line, after))
                } else {
                    match i64_value(line) {
                        Some(n) => Ok(Decoded::Integer(n, after)),
                        None => Err(ErrMessages::ParseError(ParseFault::InvalidInteger)),
                    }
                },
            }
        } else if s[0] == 36u8 {
            match bulk_spec(rest) {
                Ok((v, t)) => Ok(Decoded::BulkString(v, t)),
                Err(e) => Err(e),
            }
        } else if s[0] == 42u8 {
            match array_spec(rest) {
                Ok((xs, t)) => Ok(Decoded::Array(xs, t)),
                Err(e) => Err(e),
            }
        } else {
            Err(ErrMessages::UnknownInput(s[0]))
        }
    }
}

/// A decoded frame; each variant ends with the bytes that follow the frame.
#[derive(Debug, PartialEq, Eq)]
pub enum RespResponse {
    /// A simple string (`+`).
    SimpleVariant(Vec<u8>, Vec<u8>),
    /// An error (`-`).
    ErrorVariant(Vec<u8>, Vec<u8>),
    /// An integer (`:`).
    IntegerVariant(i64, Vec<u8>),
    /// A bulk string (`$`).
    TupleVariant(Vec<u8>, Vec<u8>),
    /// An array of bulk strings (`*`).
    VecVariant(Vec<Vec<u8>>, Vec<u8>),
}

impl View for RespResponse {
    type V = Decoded;

    open spec fn view(&self) -> Decoded {
        match self {
            RespResponse::SimpleVariant(v, t) => Decoded::SimpleString(v@, t@),
            RespResponse::ErrorVariant(v, t) => Decoded::Error(v@, t@),
            RespResponse::IntegerVariant(n, t) => Decoded::Integer(*n, t@),
            RespResponse::TupleVariant(v, t) => Decoded::BulkString(v@, t@),
            RespResponse::VecVariant(xs, t) => Decoded::Array(seqs_view(xs@), t@),
        }
    }
}

pub open spec fn pair_view(r: Result<(Vec<u8>, Vec<u8>), ErrMessages>) -> Result<
    (Seq<u8>, Seq<u8>),
    ErrMessages,
> {
    match r {
        Ok((a, b)) => Ok((a@, b@)),
        Err(e) => Err(e),
    }
}

pub open spec fn items_view(r: Result<(Vec<Vec<u8>>, Vec<u8>), ErrMessages>) -> Result<
    (Seq<Seq<u8>>, Seq<u8>),
    ErrMessages,
> {
    match r {
        Ok((a, b)) => Ok((seqs_view(a@), b@)),
        Err(e) => Err(e),
    }
}

pub open spec fn response_view(r: Result<RespResponse, ErrMessages>) -> Result<
    Decoded,
    ErrMessages,
> {
    match r {
        Ok(v) => Ok(v@),
        Err(e) => Err(e),
    }
}

/// The index of the first CRLF in `s`.
fn find_crlf(s: &[u8]) -> (r: Option<usize>)
    ensures
        match r {
            Some(i) => crlf_from(s@, 0) == Some(i as int) && i + 1 < s.len(),
            None => crlf_from(s@, 0) is None,
        },
{
    let mut i: usize = 0;
    proof {
        lemma_crlf_from(s@, 0);
    }
    while i < s.len() && s.len() - i >= 2
        invariant
            0 <= i <= s@.len(),
            crlf_from(s@, 0) == crlf_from(s@, i as int),
        decreases s@.len() - i,
    {
        if s[i] == 13u8 && s[i + 1] == 10u8 {
            return Some(i);
        }
        i = i + 1;
    }
    None
}

fn is_null_header(h: &[u8]) -> (r: bool)
    ensures
        r == (h@ == null_header()),
{
    let r = h.len() == 2 && h[0] == 45u8 && h[1] == 49u8;
    if r {
        assert(h@ =~= null_header());
    }
    r
}

/// Splits `serialized_input` at its first CRLF; `None` where it has none.
pub fn split_data(serialized_input: &[u8]) -> (r: Option<(Vec<u8>, Vec<u8>)>)
    ensures
        match r {
            Some((head, tail)) => line_split(serialized_input@) == Some((head@, tail@)),
            None => line_split(serialized_input@) is None,
        },
{
    let s = serialized_input;
    match find_crlf(s) {
        Some(i) => {
            let head = vstd::slice::slice_to_vec(vstd::slice::slice_subrange(s, 0, i));
            let tail = vstd::slice::slice_to_vec(vstd::slice::slice_subrange(s, i + 2, s.len()));
            Some((head, tail))
        },
        None => None,
    }
}

/// Reads a bulk string whose `$` has been consumed.
pub fn read_bulk_string(serialized_input: &[u8]) -> (r: Result<(Vec<u8>, Vec<u8>), ErrMessages>)
    ensures
        pair_view(r) == bulk_spec(serialized_input@),
{
    let (header, body) = match split_data(serialized_input) {
        None => {
            return Err(ErrMessages::Incomplete);
        },
        Some(parts) => parts,
    };
    if is_null_header(header.as_slice()) {
        return Err(ErrMessages::MissingBulkString);
    }
    match parse_length(header.as_slice()) {
        None => Err(ErrMessages::ParseError(ParseFault::InvalidLength)),
        Some(n) => {
            let len = body.len();
            if (len as u64) < n {
                return Err(ErrMessages::Incomplete);
            }
            let n = n as usize;
            if len - n < 2 {
                if len == n || body[n] == 13u8 {
                    Err(ErrMessages::Incomplete)
                } else {
                    Err(ErrMessages::ParseError(ParseFault::MissingLineEnd))
                }
            } else if body[n] == 13u8 && body[n + 1] == 10u8 {
                assert(body@.subrange(n as int, n + 2) =~= crlf());
                let value = vstd::slice::slice_to_vec(
                    vstd::slice::slice_subrange(body.as_slice(), 0, n),
                );
                let rest = vstd::slice::slice_to_vec(
                    vstd::slice::slice_subrange(body.as_slice(), n + 2, len),
                );
                Ok((value, rest))
            } else {
                proof {
                    assert(body@.subrange(n as int, n + 2)[0] == body@[n as int]);
                    assert(body@.subrange(n as int, n + 2)[1] == body@[n + 1]);
                }
                Err(ErrMessages::ParseError(ParseFault::MissingLineEnd))
            }
        },
    }
}

/// Reads one element of a command array, which must be a bulk string.
fn read_element(s: &[u8]) -> (r: Result<(Vec<u8>, Vec<u8>), ErrMessages>)
    ensures
        pair_view(r) == element_spec(s@),
{
    if s.len() == 0 {
        return Err(ErrMessages::Incomplete);
    }
    let b = s[0];
    if b == 36u8 {
        let rest = vstd::slice::slice_subrange(s, 1, s.len());
        assert(rest@ =~= s@.drop_first());
        read_bulk_string(rest)
    } else if b == 42u8 || b == 43u8 || b == 45u8 || b == 58u8 {
        Err(ErrMessages::UnexpectedVariant)
    } else {
        Err(ErrMessages::UnknownInput(b))
    }
}

/// Reads an array of bulk strings whose `*` has been consumed.
pub fn read_array(data: &[u8]) -> (r: Result<(Vec<Vec<u8>>, Vec<u8>), ErrMessages>)
    ensures
        items_view(r) == array_spec(data@),
{
    let (header, body) = match split_data(data) {
        None => {
            return Err(ErrMessages::Incomplete);
        },
        Some(parts) => parts,
    };
    if is_null_header(header.as_slice()) {
        return Err(ErrMessages::MissingBulkString);
    }
    match parse_length(header.as_slice()) {
        None => Err(ErrMessages::ParseError(ParseFault::InvalidLength)),
        Some(n) => {
            let mut items: Vec<Vec<u8>> = Vec::new();
            let mut rest = body;
            let mut i: u64 = 0;
            assert(seqs_view(items@) =~= Seq::<Seq<u8>>::empty());
            while i < n
                invariant
                    i <= n,
                    array_spec(data@) == elements_spec(
                        seqs_view(items@),
                        rest@,
                        (n - i) as nat,
                    ),
                decreases n - i,
            {
                match read_element(rest.as_slice()) {
                    Err(e) => {
                        return Err(e);
                    },
                    Ok((x, t)) => {
                        proof {
                            assert(seqs_view(items@.push(x)) =~= seqs_view(items@).push(x@));
                        }
                        items.push(x);
                        rest = t;
                        i = i + 1;
                    },
                }
            }
            Ok((items, rest))
        },
    }
}

/// Whether `buf` is the start of a frame that more bytes could complete.
pub fn needs_more_input(buf: &[u8]) -> (r: bool)
    ensures
        r == (deserialize_spec(buf@) == Err::<Decoded, ErrMessages>(ErrMessages::Incomplete)),
{
    match deserialize(buf) {
        Err(ErrMessages::Incomplete) => true,
        _ => false,
    }
}

/// Reads a simple string, error or integer line whose prefix has been
/// consumed; `Incomplete` where the line has no CRLF yet.
pub fn read_simple_string(serialized_input: &[u8]) -> (r: Result<(Vec<u8>, Vec<u8>), ErrMessages>)
    ensures
        pair_view(r) == match line_split(serialized_input@) {
            Some(parts) => Ok::<(Seq<u8>, Seq<u8>), ErrMessages>(parts),
            None => Err(ErrMessages::Incomplete),
        },
{
    match split_data(serialized_input) {
        Some(parts) => Ok(parts),
        None => Err(ErrMessages::Incomplete),
    }
}

/// Decodes one frame from the front of `serialized_input`.
pub fn deserialize(serialized_input: &[u8]) -> (r: Result<RespResponse, ErrMessages>)
    ensures
        response_view(r) == deserialize_spec(serialized_input@),
{
    let s = serialized_input;
    if s.len() == 0 {
        return Err(ErrMessages::EmptyInput);
    }
    let first = s[0];
    let rest = vstd::slice::slice_subrange(s, 1, s.len());
    assert(rest@ =~= s@.drop_first());
    if first == 43u8 || first == 45u8 || first == 58u8 {
        let (line, after) = match split_data(rest) {
            None => {
                return Err(ErrMessages::Incomplete);
            },
            Some(parts) => parts,
        };
        if first == 43u8 {
            Ok(RespResponse::SimpleVariant(line, after))
        } else if first == 45u8 {
            Ok(RespResponse::ErrorVariant(line, after))
        } else {
            match parse_i64(line.as_slice()) {
                Some(n) => Ok(RespResponse::IntegerVariant(n, after)),
                None => Err(ErrMessages::ParseError(ParseFault::InvalidInteger)),
            }
        }
    } else if first == 36u8 {
        match read_bulk_string(rest) {
            Ok((head, tail)) => Ok(RespResponse::TupleVariant(head, tail)),
            Err(e) => Err(e),
        }
    } else if first == 42u8 {
        match read_array(rest) {
            Ok((items, tail)) => Ok(RespResponse::VecVariant(items, tail)),
            Err(e) => Err(e),
        }
    } else {
        Err(ErrMessages::UnknownInput(first))
    }
}

} // verus!
