//! The command handlers: what each command replies and what it does to the
//! store, given its arguments and the time.
use crate::encode::{encode, encoding, Reply, ReplyModel};
use crate::store::{deadline_after, lookup, Cache, Slot};
use crate::text::{
    bytes_eq, i64_value, parse_i64, parse_u64, push_all, seqs_view, signed_decimal,
    signed_decimal_bytes, u64_value,
};
use vstd::prelude::*;
use vstd::string::StringSliceAdditionalSpecFns;

verus! {

/// The two clocks a command may read, in milliseconds: `millis` is the
/// store's monotonic clock, which deadlines are on; `unix_millis` is wall
/// time since the UNIX epoch, for absolute expirations.
#[derive(Debug, Clone, Copy, PartialEq, Eq, Structural)]
pub struct Clock {
    pub millis: u64,
    pub unix_millis: u64,
}

/// The text of `s`, as bytes.
pub fn text(s: &str) -> (r: Vec<u8>)
    ensures
        r@ == s.spec_bytes(),
{
    vstd::slice::slice_to_vec(s.as_bytes())
}

pub open spec fn wrong_args_text(name: Seq<u8>) -> Seq<u8> {
    "wrong number of arguments for ".spec_bytes() + name + " command".spec_bytes()
}

pub open spec fn parse_failure_text() -> Seq<u8> {
    "could not parse stored number".spec_bytes()
}

pub open spec fn too_many_keys_text() -> Seq<u8> {
    "too many keys".spec_bytes()
}

/// An integer reply with `count`, where it fits in an `i64`.
pub open spec fn count_reply(count: nat) -> ReplyModel {
    if count <= i64::MAX {
        ReplyModel::Integer(count as i64)
    } else {
        ReplyModel::Error(too_many_keys_text())
    }
}

/// The error reply for a wrong number of arguments to `variant`.
pub fn throw_err_if_num_of_args_wrong(variant: &str) -> (r: Reply)
    ensures
        r@ == ReplyModel::Error(wrong_args_text(variant.spec_bytes())),
{
    let mut message = text("wrong number of arguments for ");
    push_all(&mut message, variant.as_bytes());
    push_all(&mut message, " command".as_bytes());
    Reply::Error(message)
}

/// The wire form of an error reply with `message`.
pub fn serialize_error(message: &[u8]) -> (r: Vec<u8>)
    ensures
        r@ == encoding(ReplyModel::Error(message@)),
{
    encode(&Reply::Error(vstd::slice::slice_to_vec(message)))
}

pub open spec fn echo_reply(args: Seq<Seq<u8>>) -> ReplyModel {
    if args.len() == 1 {
        ReplyModel::BulkString(args[0])
    } else {
        ReplyModel::Error(wrong_args_text("echo".spec_bytes()))
    }
}

/// `ECHO message`: the message.
pub fn handle_echo(args: &[Vec<u8>]) -> (r: Reply)
    ensures
        r@ == echo_reply(seqs_view(args@)),
{
    if args.len() == 1 {
        Reply::BulkString(vstd::slice::slice_to_vec(args[0].as_slice()))
    } else {
        throw_err_if_num_of_args_wrong("echo")
    }
}

/// `PING`: `pong`.
pub fn handle_ping() -> (r: Reply)
    ensures
        r@ == ReplyModel::BulkString("pong".spec_bytes()),
{
    Reply::BulkString(text("pong"))
}

/// `COMMAND`: a null bulk string.
pub fn ignore_command() -> (r: Reply)
    ensures
        r@ == ReplyModel::NullBulk,
{
    Reply::NullBulk
}

pub open spec fn get_reply(args: Seq<Seq<u8>>, m: Map<Seq<u8>, Slot>, now: u64) -> ReplyModel {
    if args.len() == 1 {
        match lookup(m, args[0], now) {
            Some(v) => ReplyModel::BulkString(v),
            None => ReplyModel::NullBulk,
        }
    } else {
        ReplyModel::Error(wrong_args_text("get".spec_bytes()))
    }
}

/// `GET key`: the value, or a null bulk string where the key is absent or expired.
pub fn handle_get(args: &[Vec<u8>], cache: &Cache, now: u64) -> (r: Reply)
    requires
        cache.wf(),
    ensures
        r@ == get_reply(seqs_view(args@), cache@, now),
{
    if args.len() != 1 {
        return throw_err_if_num_of_args_wrong("get");
    }
    match cache.get(args[0].as_slice(), now) {
        Some(v) => Reply::BulkString(v),
        None => Reply::NullBulk,
    }
}

/// `int` clamped into `u64`.
pub open spec fn saturate(x: int) -> u64 {
    if x > u64::MAX {
        u64::MAX
    } else if x < 0 {
        0
    } else {
        x as u64
    }
}

/// The time to live, in milliseconds, that `SET ... <variant> <t>` asks for;
/// zero for an absolute time that has passed.
pub open spec fn set_ttl(variant: Seq<u8>, t: u64, unix_millis: u64) -> Option<u64> {
    if variant == "EX".spec_bytes() {
        Some(saturate(t * 1000))
    } else if variant == "PX".spec_bytes() {
        Some(t)
    } else if variant == "EXAT".spec_bytes() {
        Some(saturate(t * 1000 - unix_millis))
    } else if variant == "PXAT".spec_bytes() {
        Some(saturate(t - unix_millis))
    } else {
        None
    }
}

pub open spec fn ok_reply() -> ReplyModel {
    ReplyModel::SimpleString("OK".spec_bytes())
}

/// What `SET` replies, and the store after it.
pub open spec fn set_outcome(args: Seq<Seq<u8>>, m: Map<Seq<u8>, Slot>, clock: Clock) -> (
    ReplyModel,
    Map<Seq<u8>, Slot>,
) {
    if args.len() == 2 {
        (ok_reply(), m.insert(args[0], Slot { value: args[1], deadline: None }))
    } else if args.len() == 4 {
        match u64_value(args[3]) {
            None => (ReplyModel::Error("invalid SET expiration".spec_bytes()), m),
            Some(t) => match set_ttl(args[2], t, clock.unix_millis) {
                None => (ReplyModel::Error("unknown SET variant".spec_bytes()), m),
                Some(ttl) => (
                    ok_reply(),
                    m.insert(
                        args[0],
                        Slot {
                            value: args[1],
                            deadline: Some(deadline_after(clock.millis, ttl)),
                        },
                    ),
                ),
            },
        }
    } else {
        (ReplyModel::Error(wrong_args_text("set".spec_bytes())), m)
    }
}

fn multiply_saturating(a: u64, b: u64) -> (r: u64)
    ensures
        r == saturate(a * b),
{
    if b != 0 && a > u64::MAX / b {
        assert(a * b > u64::MAX) by (nonlinear_arith)
            requires
                b != 0,
                a > u64::MAX / b,
        ;
        u64::MAX
    } else {
        assert(a * b <= u64::MAX) by (nonlinear_arith)
            requires
                b == 0 || a <= u64::MAX / b,
        ;
        a * b
    }
}

fn subtract_saturating(a: u64, b: u64) -> (r: u64)
    ensures
        r == saturate(a - b),
{
    if a > b {
        a - b
    } else {
        0
    }
}

fn expiration_ttl(variant: &[u8], t: u64, unix_millis: u64) -> (r: Option<u64>)
    ensures
        r == set_ttl(variant@, t, unix_millis),
{
    if bytes_eq(variant, "EX".as_bytes()) {
        Some(multiply_saturating(t, 1000))
    } else if bytes_eq(variant, "PX".as_bytes()) {
        Some(t)
    } else if bytes_eq(variant, "EXAT".as_bytes()) {
        let at: u128 = t as u128 * 1000;
        if at <= unix_millis as u128 {
            Some(0)
        } else if at - unix_millis as u128 > u64::MAX as u128 {
            Some(u64::MAX)
        } else {
            Some((at - unix_millis as u128) as u64)
        }
    } else if bytes_eq(variant, "PXAT".as_bytes()) {
        Some(subtract_saturating(t, unix_millis))
    } else {
        None
    }
}

/// `SET key value`.
fn handle_set_without_expiration(args: &[Vec<u8>], cache: &mut Cache) -> (r: Reply)
    requires
        old(cache).wf(),
        args@.len() == 2,
    ensures
        final(cache).wf(),
        r@ == ok_reply(),
        final(cache)@ == old(cache)@.insert(
            args@[0]@,
            (Slot { value: args@[1]@, deadline: None }),
        ),
{
    let key = vstd::slice::slice_to_vec(args[0].as_slice());
    let value = vstd::slice::slice_to_vec(args[1].as_slice());
    cache.set(key, value);
    Reply::SimpleString(text("OK"))
}

/// `SET key value <variant> <t>`, once the time to live is known.
fn handle_set_with_expiration(args: &[Vec<u8>], cache: &mut Cache, ttl: u64, now: u64) -> (r:
    Reply)
    requires
        old(cache).wf(),
        args@.len() >= 2,
    ensures
        final(cache).wf(),
        r@ == ok_reply(),
        final(cache)@ == old(cache)@.insert(
            args@[0]@,
            (Slot { value: args@[1]@, deadline: Some(deadline_after(now, ttl)) }),
        ),
{
    let key = vstd::slice::slice_to_vec(args[0].as_slice());
    let value = vstd::slice::slice_to_vec(args[1].as_slice());
    cache.set_with_expiration(key, value, ttl, now);
    Reply::SimpleString(text("OK"))
}

/// `SET key value [EX|PX|EXAT|PXAT t]`.
pub fn handle_set(args: &[Vec<u8>], cache: &mut Cache, clock: Clock) -> (r: Reply)
    requires
        old(cache).wf(),
    ensures
        final(cache).wf(),
        (r@, final(cache)@) == set_outcome(seqs_view(args@), old(cache)@, clock),
{
    if args.len() == 2 {
        return handle_set_without_expiration(args, cache);
    }
    if args.len() != 4 {
        return throw_err_if_num_of_args_wrong("set");
    }
    match parse_u64(args[3].as_slice()) {
        None => Reply::Error(text("invalid SET expiration")),
        Some(t) => match expiration_ttl(args[2].as_slice(), t, clock.unix_millis) {
            None => Reply::Error(text("unknown SET variant")),
            Some(ttl) => handle_set_with_expiration(args, cache, ttl, clock.millis),
        },
    }
}

/// How many of `keys` have a value at `now`, duplicates counted.
pub open spec fn live_count(keys: Seq<Seq<u8>>, m: Map<Seq<u8>, Slot>, now: u64) -> nat
    decreases keys.len(),
{
    if keys.len() == 0 {
        0
    } else {
        live_count(keys.drop_last(), m, now) + if lookup(m, keys.last(), now) is Some {
            1nat
        } else {
            0nat
        }
    }
}

pub open spec fn exists_reply(args: Seq<Seq<u8>>, m: Map<Seq<u8>, Slot>, now: u64) -> ReplyModel {
    if args.len() == 0 {
        ReplyModel::Error(wrong_args_text("exists".spec_bytes()))
    } else {
        count_reply(live_count(args, m, now))
    }
}

fn count_to_reply(count: usize) -> (r: Reply)
    ensures
        r@ == count_reply(count as nat),
{
    if count as u64 > 9223372036854775807u64 {
        Reply::Error(text("too many keys"))
    } else {
        Reply::Integer(count as i64)
    }
}

/// `EXISTS key [key ...]`: how many of the keys have a value.
pub fn handle_exists(args: &[Vec<u8>], cache: &Cache, now: u64) -> (r: Reply)
    requires
        cache.wf(),
    ensures
        r@ == exists_reply(seqs_view(args@), cache@, now),
{
    if args.len() == 0 {
        return throw_err_if_num_of_args_wrong("exists");
    }
    let ghost keys = seqs_view(args@);
    let mut count: usize = 0;
    let mut i: usize = 0;
    while i < args.len()
        invariant
            cache.wf(),
            keys == seqs_view(args@),
            0 <= i <= args@.len(),
            count <= i,
            count == live_count(keys.subrange(0, i as int), cache@, now),
        decreases args@.len() - i,
    {
        let hit = cache.key_exists(args[i].as_slice(), now);
        proof {
            assert(keys.subrange(0, i + 1).drop_last() =~= keys.subrange(0, i as int));
        }
        if hit {
            count = count + 1;
        }
        i = i + 1;
    }
    assert(keys.subrange(0, args@.len() as int) =~= keys);
    count_to_reply(count)
}

/// Deleting `keys` one after the other: how many had a value, and the store after.
pub open spec fn del_outcome(keys: Seq<Seq<u8>>, m: Map<Seq<u8>, Slot>, now: u64) -> (
    nat,
    Map<Seq<u8>, Slot>,
)
    decreases keys.len(),
{
    if keys.len() == 0 {
        (0, m)
    } else {
        let (count, rest) = del_outcome(keys.drop_last(), m, now);
        let hit: nat = if lookup(rest, keys.last(), now) is Some {
            1
        } else {
            0
        };
        (count + hit, rest.remove(keys.last()))
    }
}

pub open spec fn del_reply(args: Seq<Seq<u8>>, m: Map<Seq<u8>, Slot>, now: u64) -> ReplyModel {
    if args.len() == 0 {
        ReplyModel::Error(wrong_args_text("del".spec_bytes()))
    } else {
        count_reply(del_outcome(args, m, now).0)
    }
}

pub open spec fn del_store(args: Seq<Seq<u8>>, m: Map<Seq<u8>, Slot>, now: u64) -> Map<
    Seq<u8>,
    Slot,
> {
    if args.len() == 0 {
        m
    } else {
        del_outcome(args, m, now).1
    }
}

/// `DEL key [key ...]`: removes the keys; replies how many had a value.
pub fn handle_del(args: &[Vec<u8>], cache: &mut Cache, now: u64) -> (r: Reply)
    requires
        old(cache).wf(),
    ensures
        final(cache).wf(),
        r@ == del_reply(seqs_view(args@), old(cache)@, now),
        final(cache)@ == del_store(seqs_view(args@), old(cache)@, now),
{
    if args.len() == 0 {
        return throw_err_if_num_of_args_wrong("del");
    }
    let ghost keys = seqs_view(args@);
    let ghost start = cache@;
    let mut count: usize = 0;
    let mut i: usize = 0;
    while i < args.len()
        invariant
            cache.wf(),
            keys == seqs_view(args@),
            0 <= i <= args@.len(),
            count <= i,
            (count as nat, cache@) == del_outcome(keys.subrange(0, i as int), start, now),
        decreases args@.len() - i,
    {
        let removed = cache.del(args[i].as_slice(), now);
        proof {
            assert(keys.subrange(0, i + 1).drop_last() =~= keys.subrange(0, i as int));
        }
        if removed.is_some() {
            count = count + 1;
        }
        i = i + 1;
    }
    assert(keys.subrange(0, args@.len() as int) =~= keys);
    count_to_reply(count)
}

/// What `INCR` (`delta` 1) or `DECR` (`delta` -1) replies, and the store after.
pub open spec fn counter_outcome(
    args: Seq<Seq<u8>>,
    m: Map<Seq<u8>, Slot>,
    now: u64,
    delta: int,
    name: Seq<u8>,
) -> (ReplyModel, Map<Seq<u8>, Slot>) {
    if args.len() != 1 {
        (ReplyModel::Error(wrong_args_text(name)), m)
    } else {
        let k = args[0];
        match lookup(m, k, now) {
            None => (
                ReplyModel::Integer(delta as i64),
                m.insert(k, Slot { value: signed_decimal(delta), deadline: None }),
            ),
            Some(v) => match i64_value(v) {
                None => (ReplyModel::Error(parse_failure_text()), m),
                Some(n) => if i64::MIN <= n + delta <= i64::MAX {
                    (
                        ReplyModel::Integer((n + delta) as i64),
                        m.insert(
                            k,
                            Slot { value: signed_decimal(n + delta), deadline: m[k].deadline },
                        ),
                    )
                } else {
                    (ReplyModel::Error(parse_failure_text()), m)
                },
            },
        }
    }
}

/// Adds `delta` to the number stored under the single key in `args`.
fn apply_counter(args: &[Vec<u8>], cache: &mut Cache, now: u64, delta: i64, name: &str) -> (r:
    Reply)
    requires
        old(cache).wf(),
        delta == 1 || delta == -1,
    ensures
        final(cache).wf(),
        (r@, final(cache)@) == counter_outcome(
            seqs_view(args@),
            old(cache)@,
            now,
            delta as int,
            name.spec_bytes(),
        ),
{
    if args.len() != 1 {
        return throw_err_if_num_of_args_wrong(name);
    }
    let key = vstd::slice::slice_to_vec(args[0].as_slice());
    match cache.get(key.as_slice(), now) {
        None => {
            cache.set(key, signed_decimal_bytes(delta));
            Reply::Integer(delta)
        },
        Some(current) => match parse_i64(current.as_slice()) {
            None => Reply::Error(text("could not parse stored number")),
            Some(n) => {
                if (delta > 0 && n == i64::MAX) || (delta < 0 && n == i64::MIN) {
                    Reply::Error(text("could not parse stored number"))
                } else {
                    let next = n + delta;
                    cache.set_keep_deadline(key, signed_decimal_bytes(next));
                    Reply::Integer(next)
                }
            },
        },
    }
}

/// `INCR key`: adds one to the number stored under `key`, which starts at 0.
pub fn handle_incr(args: &[Vec<u8>], cache: &mut Cache, now: u64) -> (r: Reply)
    requires
        old(cache).wf(),
    ensures
        final(cache).wf(),
        (r@, final(cache)@) == counter_outcome(
            seqs_view(args@),
            old(cache)@,
            now,
            1,
            "incr".spec_bytes(),
        ),
{
    apply_counter(args, cache, now, 1, "incr")
}

/// `DECR key`: subtracts one from the number stored under `key`, which starts at 0.
pub fn handle_decr(args: &[Vec<u8>], cache: &mut Cache, now: u64) -> (r: Reply)
    requires
        old(cache).wf(),
    ensures
        final(cache).wf(),
        (r@, final(cache)@) == counter_outcome(
            seqs_view(args@),
            old(cache)@,
            now,
            -1,
            "decr".spec_bytes(),
        ),
{
    apply_counter(args, cache, now, -1, "decr")
}

} // verus!
