//! The RESP encoder: typed replies to bytes.
use crate::text::{
    crlf, decimal, decimal_bytes, push_all, signed_decimal, signed_decimal_bytes,
};
use vstd::prelude::*;

verus! {

/// A reply to a client.
#[derive(Debug, PartialEq, Eq)]
pub enum Reply {
    /// `:<n>\r\n`
    Integer(i64),
    /// `$<byte length>\r\n<bytes>\r\n`
    BulkString(Vec<u8>),
    /// `+<text>\r\n`; the text holds no CR or LF.
    SimpleString(Vec<u8>),
    /// `-<text>\r\n`; the text holds no CR or LF, and the encoder supplies the `-`.
    Error(Vec<u8>),
    /// `*<n>\r\n` followed by the encoding of each element.
    Array(Vec<Reply>),
    /// `$-1\r\n`
    NullBulk,
}

/// A reply, as values.
pub enum ReplyModel {
    Integer(i64),
    BulkString(Seq<u8>),
    SimpleString(Seq<u8>),
    Error(Seq<u8>),
    Array(Seq<ReplyModel>),
    NullBulk,
}

/// The value of a reply.
pub open spec fn reply_model(r: Reply) -> ReplyModel
    decreases r,
    via reply_model_decreases
{
    match r {
        Reply::Integer(n) => ReplyModel::Integer(n),
        Reply::BulkString(s) => ReplyModel::BulkString(s@),
        Reply::SimpleString(s) => ReplyModel::SimpleString(s@),
        Reply::Error(s) => ReplyModel::Error(s@),
        Reply::Array(xs) => ReplyModel::Array(reply_models(xs@)),
        Reply::NullBulk => ReplyModel::NullBulk,
    }
}

/// The value of each reply.
pub open spec fn reply_models(xs: Seq<Reply>) -> Seq<ReplyModel>
    decreases xs,
{
    if xs.len() == 0 {
        Seq::empty()
    } else {
        reply_models(xs.drop_last()).push(reply_model(xs.last()))
    }
}

#[via_fn]
proof fn reply_model_decreases(r: Reply) {
    match r {
        Reply::Array(xs) => {
            assert(decreases_to!(r => r->Array_0));
            assert(decreases_to!(xs => xs@));
        },
        _ => {},
    }
}

proof fn lemma_reply_models_push(xs: Seq<Reply>, x: Reply)
    ensures
        reply_models(xs.push(x)) == reply_models(xs).push(reply_model(x)),
{
    assert(xs.push(x).drop_last() =~= xs);
}

impl View for Reply {
    type V = ReplyModel;

    open spec fn view(&self) -> ReplyModel {
        reply_model(*self)
    }
}

/// `$`, the byte length in decimal, CRLF, the bytes, CRLF.
pub open spec fn bulk_encoding(s: Seq<u8>) -> Seq<u8> {
    seq![36u8] + decimal(s.len()) + crlf() + s + crlf()
}

pub open spec fn null_bulk_encoding() -> Seq<u8> {
    seq![36u8, 45u8, 49u8, 13u8, 10u8]
}

/// The wire form of a reply.
pub open spec fn encoding(r: ReplyModel) -> Seq<u8>
    decreases r,
{
    match r {
        ReplyModel::Integer(n) => seq![58u8] + signed_decimal(n as int) + crlf(),
        ReplyModel::BulkString(s) => bulk_encoding(s),
        ReplyModel::SimpleString(s) => seq![43u8] + s + crlf(),
        ReplyModel::Error(s) => seq![45u8] + s + crlf(),
        ReplyModel::Array(xs) => seq![42u8] + decimal(xs.len()) + crlf() + encodings(xs),
        ReplyModel::NullBulk => null_bulk_encoding(),
    }
}

/// The encodings of `xs`, one after the other.
pub open spec fn encodings(xs: Seq<ReplyModel>) -> Seq<u8>
    decreases xs,
{
    if xs.len() == 0 {
        Seq::empty()
    } else {
        encodings(xs.drop_last()) + encoding(xs.last())
    }
}

fn push_crlf(out: &mut Vec<u8>)
    ensures
        final(out)@ == old(out)@ + crlf(),
{
    out.push(13u8);
    out.push(10u8);
    assert(final(out)@ =~= old(out)@ + crlf());
}

/// Appends `prefix`, `s` and CRLF to `out`.
fn push_line(out: &mut Vec<u8>, prefix: u8, s: &[u8])
    ensures
        final(out)@ == old(out)@ + seq![prefix] + s@ + crlf(),
{
    out.push(prefix);
    push_all(out, s);
    push_crlf(out);
    assert(final(out)@ =~= old(out)@ + seq![prefix] + s@ + crlf());
}

/// The wire form of `reply`.
pub fn encode(reply: &Reply) -> (r: Vec<u8>)
    ensures
        r@ == encoding(reply@),
    decreases reply,
{
    let mut out: Vec<u8> = Vec::new();
    match reply {
        Reply::Integer(n) => {
            let digits = signed_decimal_bytes(*n);
            push_line(&mut out, 58u8, digits.as_slice());
        },
        Reply::BulkString(s) => {
            let len = decimal_bytes(s.len() as u64);
            push_line(&mut out, 36u8, len.as_slice());
            push_all(&mut out, s.as_slice());
            push_crlf(&mut out);
            assert(out@ =~= bulk_encoding(s@));
        },
        Reply::SimpleString(s) => {
            push_line(&mut out, 43u8, s.as_slice());
        },
        Reply::Error(s) => {
            push_line(&mut out, 45u8, s.as_slice());
        },
        Reply::Array(xs) => {
            let count = decimal_bytes(xs.len() as u64);
            push_line(&mut out, 42u8, count.as_slice());
            let ghost head = out@;
            let mut i: usize = 0;
            while i < xs.len()
                invariant
                    *reply == Reply::Array(*xs),
                    0 <= i <= xs@.len(),
                    out@ == head + encodings(reply_models(xs@.subrange(0, i as int))),
                decreases xs@.len() - i,
            {
                proof {
                    assert(decreases_to!(*reply => (*reply)->Array_0));
                    assert((*reply)->Array_0 == *xs);
                    assert(decreases_to!(*xs => xs@));
                    assert(decreases_to!(xs@ => xs@[i as int]));
                }
                let mut part = encode(&xs[i]);
                out.append(&mut part);
                proof {
                    let pre = xs@.subrange(0, i + 1);
                    assert(pre.drop_last() =~= xs@.subrange(0, i as int));
                    lemma_reply_models_push(pre.drop_last(), pre.last());
                    let ms = reply_models(pre);
                    assert(ms.drop_last() =~= reply_models(pre.drop_last()));
                }
                i = i + 1;
            }
            proof {
                assert(xs@.subrange(0, xs@.len() as int) =~= xs@);
                lemma_reply_models_len(xs@);
            }
        },
        Reply::NullBulk => {
            out = vec![36u8, 45u8, 49u8, 13u8, 10u8];
        },
    }
    out
}

proof fn lemma_reply_models_len(xs: Seq<Reply>)
    ensures
        reply_models(xs).len() == xs.len(),
    decreases xs.len(),
{
    if xs.len() > 0 {
        lemma_reply_models_len(xs.drop_last());
    }
}

/// A reply given by kind, with strings as plain bytes.
#[derive(Debug, PartialEq, Eq)]
pub enum InputVariants {
    /// An integer.
    NumberVariant(i64),
    /// A bulk string, whatever bytes it holds.
    StringVariant(Vec<u8>),
    /// A simple string; the text holds no CR or LF.
    SimpleStringVariant(Vec<u8>),
    /// An error; the text holds no CR or LF.
    ErrorVariant(Vec<u8>),
    /// An array of bulk strings.
    StringVariantArr(Vec<Vec<u8>>),
    /// The null bulk string.
    Nullish,
}

/// The reply that an `InputVariants` value stands for.
pub open spec fn input_reply(v: InputVariants) -> ReplyModel {
    match v {
        InputVariants::NumberVariant(n) => ReplyModel::Integer(n),
        InputVariants::StringVariant(s) => ReplyModel::BulkString(s@),
        InputVariants::SimpleStringVariant(s) => ReplyModel::SimpleString(s@),
        InputVariants::ErrorVariant(s) => ReplyModel::Error(s@),
        InputVariants::StringVariantArr(xs) => ReplyModel::Array(
            Seq::new(xs@.len(), |i: int| ReplyModel::BulkString(xs@[i]@)),
        ),
        InputVariants::Nullish => ReplyModel::NullBulk,
    }
}

impl InputVariants {
    /// The reply this value stands for.
    pub fn into_reply(self) -> (r: Reply)
        ensures
            r@ == input_reply(self),
    {
        match self {
            InputVariants::NumberVariant(n) => Reply::Integer(n),
            InputVariants::StringVariant(s) => Reply::BulkString(s),
            InputVariants::SimpleStringVariant(s) => Reply::SimpleString(s),
            InputVariants::ErrorVariant(s) => Reply::Error(s),
            InputVariants::StringVariantArr(xs) => {
                let ghost strings = xs@;
                let mut items: Vec<Reply> = Vec::new();
                let mut i: usize = 0;
                while i < xs.len()
                    invariant
                        strings == xs@,
                        0 <= i <= xs@.len(),
                        reply_models(items@) =~= Seq::new(
                            i as nat,
                            |j: int| ReplyModel::BulkString(strings[j]@),
                        ),
                    decreases xs@.len() - i,
                {
                    let item = Reply::BulkString(vstd::slice::slice_to_vec(xs[i].as_slice()));
                    proof {
                        lemma_reply_models_push(items@, item);
                    }
                    items.push(item);
                    i = i + 1;
                }
                Reply::Array(items)
            },
            InputVariants::Nullish => Reply::NullBulk,
        }
    }
}

/// The wire form of `input`.
pub fn serialize(input: InputVariants) -> (r: Vec<u8>)
    ensures
        r@ == encoding(input_reply(input)),
{
    let reply = input.into_reply();
    encode(&reply)
}

} // verus!
