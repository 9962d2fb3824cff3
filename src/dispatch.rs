//! From a request's bytes to the reply's bytes: decode, pick the handler by
//! the lower-cased command name, run it against the store, encode.
use crate::commands::{
    counter_outcome, del_reply, del_store, echo_reply, exists_reply, get_reply, handle_decr,
    handle_del, handle_echo, handle_exists, handle_get, handle_incr, handle_ping, handle_set,
    ignore_command, set_outcome, text, Clock,
};
use crate::decode::{deserialize, deserialize_spec, Decoded, RespResponse};
use crate::encode::{encode, encoding, Reply, ReplyModel};
use crate::store::{Cache, Slot};
use crate::text::{ascii_lower, bytes_eq, push_all, seqs_view, to_ascii_lower};
use vstd::prelude::*;
use vstd::string::StringSliceAdditionalSpecFns;

verus! {

pub open spec fn unknown_command_text(name: Seq<u8>) -> Seq<u8> {
    "unknown command '".spec_bytes() + name + "'".spec_bytes()
}

/// What a command array replies, and the store after it.
pub open spec fn dispatch_outcome(items: Seq<Seq<u8>>, m: Map<Seq<u8>, Slot>, clock: Clock) -> (
    ReplyModel,
    Map<Seq<u8>, Slot>,
) {
    if items.len() == 0 {
        (ReplyModel::Error("commands array is empty".spec_bytes()), m)
    } else {
        let name = ascii_lower(items[0]);
        let args = items.drop_first();
        let now = clock.millis;
        if name == "command".spec_bytes() {
            (ReplyModel::NullBulk, m)
        } else if name == "ping".spec_bytes() {
            (ReplyModel::BulkString("pong".spec_bytes()), m)
        } else if name == "echo".spec_bytes() {
            (echo_reply(args), m)
        } else if name == "set".spec_bytes() {
            set_outcome(args, m, clock)
        } else if name == "get".spec_bytes() {
            (get_reply(args, m, now), m)
        } else if name == "exists".spec_bytes() {
            (exists_reply(args, m, now), m)
        } else if name == "del".spec_bytes() {
            (del_reply(args, m, now), del_store(args, m, now))
        } else if name == "incr".spec_bytes() {
            counter_outcome(args, m, now, 1, "incr".spec_bytes())
        } else if name == "decr".spec_bytes() {
            counter_outcome(args, m, now, -1, "decr".spec_bytes())
        } else {
            (ReplyModel::Error(unknown_command_text(name)), m)
        }
    }
}

/// What a request replies, on the wire, and the store after it.
pub open spec fn command_outcome(input: Seq<u8>, m: Map<Seq<u8>, Slot>, clock: Clock) -> (
    Seq<u8>,
    Map<Seq<u8>, Slot>,
) {
    match deserialize_spec(input) {
        Err(_) => (encoding(ReplyModel::Error("failed to deserialize".spec_bytes())), m),
        Ok(Decoded::Array(items, _)) => {
            let (reply, after) = dispatch_outcome(items, m, clock);
            (encoding(reply), after)
        },
        Ok(_) => (encoding(ReplyModel::Error("unsupported RESP type".spec_bytes())), m),
    }
}

/// The bytes after the first frame of `input`; none where it cannot be decoded.
pub open spec fn unread(input: Seq<u8>) -> Seq<u8> {
    match deserialize_spec(input) {
        Ok(Decoded::SimpleString(_, t)) => t,
        Ok(Decoded::Error(_, t)) => t,
        Ok(Decoded::Integer(_, t)) => t,
        Ok(Decoded::BulkString(_, t)) => t,
        Ok(Decoded::Array(_, t)) => t,
        Err(_) => Seq::empty(),
    }
}

/// Runs the command that `items` spell: the name first, then its arguments.
pub fn dispatch(items: &[Vec<u8>], cache: &mut Cache, clock: Clock) -> (r: Reply)
    requires
        old(cache).wf(),
    ensures
        final(cache).wf(),
        (r@, final(cache)@) == dispatch_outcome(seqs_view(items@), old(cache)@, clock),
{
    if items.len() == 0 {
        return Reply::Error(text("commands array is empty"));
    }
    let name = to_ascii_lower(items[0].as_slice());
    let args = vstd::slice::slice_subrange(items, 1, items.len());
    assert(seqs_view(args@) =~= seqs_view(items@).drop_first());
    let n = name.as_slice();
    let now = clock.millis;
    if bytes_eq(n, "command".as_bytes()) {
        ignore_command()
    } else if bytes_eq(n, "ping".as_bytes()) {
        handle_ping()
    } else if bytes_eq(n, "echo".as_bytes()) {
        handle_echo(args)
    } else if bytes_eq(n, "set".as_bytes()) {
        handle_set(args, cache, clock)
    } else if bytes_eq(n, "get".as_bytes()) {
        handle_get(args, cache, now)
    } else if bytes_eq(n, "exists".as_bytes()) {
        handle_exists(args, cache, now)
    } else if bytes_eq(n, "del".as_bytes()) {
        handle_del(args, cache, now)
    } else if bytes_eq(n, "incr".as_bytes()) {
        handle_incr(args, cache, now)
    } else if bytes_eq(n, "decr".as_bytes()) {
        handle_decr(args, cache, now)
    } else {
        let mut message = text("unknown command '");
        push_all(&mut message, n);
        push_all(&mut message, "'".as_bytes());
        Reply::Error(message)
    }
}

/// Decodes the first request in `input`, runs it against `cache`, and
/// returns the encoded reply and the bytes after that request.
pub fn handle_request(input: &[u8], cache: &mut Cache, clock: Clock) -> (r: (Vec<u8>, Vec<u8>))
    requires
        old(cache).wf(),
    ensures
        final(cache).wf(),
        (r.0@, final(cache)@) == command_outcome(input@, old(cache)@, clock),
        r.1@ == unread(input@),
{
    let (reply, rest) = match deserialize(input) {
        Err(_) => (Reply::Error(text("failed to deserialize")), Vec::new()),
        Ok(RespResponse::VecVariant(items, t)) => (dispatch(items.as_slice(), cache, clock), t),
        Ok(RespResponse::SimpleVariant(_, t)) => (Reply::Error(text("unsupported RESP type")), t),
        Ok(RespResponse::ErrorVariant(_, t)) => (Reply::Error(text("unsupported RESP type")), t),
        Ok(RespResponse::IntegerVariant(_, t)) => (Reply::Error(text("unsupported RESP type")), t),
        Ok(RespResponse::TupleVariant(_, t)) => (Reply::Error(text("unsupported RESP type")), t),
    };
    (encode(&reply), rest)
}

/// Decodes one request, runs it against `cache`, and returns the encoded reply.
pub fn handle_command(input: &[u8], cache: &mut Cache, clock: Clock) -> (r: Vec<u8>)
    requires
        old(cache).wf(),
    ensures
        final(cache).wf(),
        (r@, final(cache)@) == command_outcome(input@, old(cache)@, clock),
{
    handle_request(input, cache, clock).0
}

} // verus!
