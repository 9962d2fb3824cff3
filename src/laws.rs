//! Properties that relate several operations, proved over the models that the
//! operations' own contracts use.
use crate::commands::{
    counter_outcome, del_outcome, exists_reply, get_reply, live_count, set_outcome, Clock,
};
use crate::decode::{
    bulk_spec, crlf_from, deserialize_spec, element_spec, elements_spec, line_split, null_header,
    Decoded,
};
use crate::dispatch::{command_outcome, dispatch_outcome};
use crate::encode::{bulk_encoding, encoding, encodings, null_bulk_encoding, ReplyModel};
use crate::error::ErrMessages;
use crate::store::{is_live, live_part, lookup, Slot};
use crate::text::{
    ascii_lower, crlf, decimal, i64_value, lemma_decimal_digits, length_value, signed_decimal,
};
use vstd::prelude::*;
use vstd::string::StringSliceAdditionalSpecFns;

verus! {

/// No byte of `s` is a carriage return.
pub open spec fn no_cr(s: Seq<u8>) -> bool {
    forall|i: int| 0 <= i < s.len() ==> #[trigger] s[i] != 13u8
}

/// The payloads of an array of bulk strings.
pub open spec fn bulk_payloads(xs: Seq<ReplyModel>) -> Seq<Seq<u8>> {
    Seq::new(xs.len(), |i: int| xs[i]->BulkString_0)
}

/// What decoding the encoding of `r` gives back.
pub open spec fn decoded_reply(r: ReplyModel, rest: Seq<u8>) -> Result<Decoded, ErrMessages> {
    match r {
        ReplyModel::Integer(n) => Ok(Decoded::Integer(n, rest)),
        ReplyModel::BulkString(s) => Ok(Decoded::BulkString(s, rest)),
        ReplyModel::SimpleString(s) => Ok(Decoded::SimpleString(s, rest)),
        ReplyModel::Error(s) => Ok(Decoded::Error(s, rest)),
        ReplyModel::Array(xs) => Ok(Decoded::Array(bulk_payloads(xs), rest)),
        ReplyModel::NullBulk => Err(ErrMessages::MissingBulkString),
    }
}

/// The replies that the encoder can send and the decoder read back: simple
/// strings and errors hold no CR, arrays hold bulk strings, and every length
/// fits in 64 bits.
pub open spec fn decodable(r: ReplyModel) -> bool {
    match r {
        ReplyModel::BulkString(s) => s.len() <= u64::MAX,
        ReplyModel::SimpleString(s) => no_cr(s),
        ReplyModel::Error(s) => no_cr(s),
        ReplyModel::Array(xs) => xs.len() <= u64::MAX && forall|i: int|
            0 <= i < xs.len() ==> (#[trigger] xs[i]) is BulkString && xs[i]->BulkString_0.len()
                <= u64::MAX,
        _ => true,
    }
}

proof fn lemma_crlf_after(s: Seq<u8>, x: Seq<u8>, j: int)
    requires
        no_cr(x),
        s.len() >= x.len() + 2,
        s.subrange(0, x.len() as int) == x,
        s[x.len() as int] == 13u8,
        s[x.len() as int + 1] == 10u8,
        0 <= j <= x.len(),
    ensures
        crlf_from(s, j) == Some(x.len() as int),
    decreases x.len() - j,
{
    if j < x.len() {
        assert(s[j] == s.subrange(0, x.len() as int)[j]);
        lemma_crlf_after(s, x, j + 1);
    }
}

/// A line free of CR, then CRLF, splits off exactly.
pub proof fn lemma_line_split(x: Seq<u8>, rest: Seq<u8>)
    requires
        no_cr(x),
    ensures
        line_split(x + crlf() + rest) == Some((x, rest)),
{
    let s = x + crlf() + rest;
    assert(s.subrange(0, x.len() as int) =~= x);
    lemma_crlf_after(s, x, 0);
    assert(s.subrange(x.len() as int + 2, s.len() as int) =~= rest);
}

proof fn lemma_decimal_header(n: nat)
    requires
        n <= u64::MAX,
    ensures
        no_cr(decimal(n)),
        decimal(n) != null_header(),
        length_value(decimal(n)) == Some(n as u64),
{
    lemma_decimal_digits(n);
    assert(crate::text::is_digit(decimal(n)[0]));
    if decimal(n) == null_header() {
        assert(decimal(n)[0] == 45u8);
    }
}

proof fn lemma_signed_decimal_line(n: int)
    ensures
        no_cr(signed_decimal(n)),
{
    if n < 0 {
        let m = (-n) as nat;
        lemma_decimal_digits(m);
        let s = seq![45u8] + decimal(m);
        assert forall|i: int| 0 <= i < s.len() implies #[trigger] s[i] != 13u8 by {
            if i > 0 {
                assert(s[i] == decimal(m)[i - 1]);
            }
        }
    } else {
        lemma_decimal_digits(n as nat);
    }
}

/// A bulk encoding, after its `$`, reads back as its payload.
proof fn lemma_bulk_round_trip(s: Seq<u8>, rest: Seq<u8>)
    requires
        s.len() <= u64::MAX,
    ensures
        bulk_spec(bulk_encoding(s).drop_first() + rest) == Ok::<(Seq<u8>, Seq<u8>), ErrMessages>(
            (s, rest),
        ),
{
    let n = s.len();
    lemma_decimal_header(n);
    let body = s + crlf() + rest;
    let t = bulk_encoding(s).drop_first() + rest;
    assert(t =~= decimal(n) + crlf() + body);
    lemma_line_split(decimal(n), body);
    assert(body.subrange(n as int, n as int + 2) =~= crlf());
    assert(body.subrange(0, n as int) =~= s);
    assert(body.subrange(n as int + 2, body.len() as int) =~= rest);
}

proof fn lemma_encodings_front(xs: Seq<ReplyModel>)
    requires
        xs.len() > 0,
    ensures
        encodings(xs) == encoding(xs[0]) + encodings(xs.drop_first()),
    decreases xs.len(),
{
    if xs.len() == 1 {
        assert(xs.drop_last() =~= Seq::<ReplyModel>::empty());
        assert(xs.drop_first() =~= Seq::<ReplyModel>::empty());
        assert(encodings(xs.drop_first()) == Seq::<u8>::empty());
        assert(encodings(xs.drop_last()) == Seq::<u8>::empty());
        assert(encodings(xs) =~= encoding(xs[0]) + encodings(xs.drop_first()));
    } else {
        let init = xs.drop_last();
        lemma_encodings_front(init);
        assert(init.drop_first() =~= xs.drop_first().drop_last());
        assert(xs.drop_first().last() == xs.last());
        assert(encodings(xs) =~= encoding(xs[0]) + encodings(xs.drop_first()));
    }
}

proof fn lemma_elements_round_trip(acc: Seq<Seq<u8>>, xs: Seq<ReplyModel>, rest: Seq<u8>)
    requires
        forall|i: int|
            0 <= i < xs.len() ==> (#[trigger] xs[i]) is BulkString && xs[i]->BulkString_0.len()
                <= u64::MAX,
    ensures
        elements_spec(acc, encodings(xs) + rest, xs.len()) == Ok::<
            (Seq<Seq<u8>>, Seq<u8>),
            ErrMessages,
        >((acc + bulk_payloads(xs), rest)),
    decreases xs.len(),
{
    if xs.len() == 0 {
        assert(encodings(xs) + rest =~= rest);
        assert(acc + bulk_payloads(xs) =~= acc);
    } else {
        let x = xs[0];
        let p = x->BulkString_0;
        let tail = xs.drop_first();
        let more = encodings(tail) + rest;
        lemma_encodings_front(xs);
        let s = encodings(xs) + rest;
        assert(encoding(x) == bulk_encoding(p));
        assert(s =~= bulk_encoding(p) + more);
        assert(s[0] == 36u8);
        assert(s.drop_first() =~= bulk_encoding(p).drop_first() + more);
        lemma_bulk_round_trip(p, more);
        assert(element_spec(s) == Ok::<(Seq<u8>, Seq<u8>), ErrMessages>((p, more)));
        assert forall|i: int| 0 <= i < tail.len() implies (#[trigger] tail[i]) is BulkString
            && tail[i]->BulkString_0.len() <= u64::MAX by {
            assert(tail[i] == xs[i + 1]);
        }
        lemma_elements_round_trip(acc.push(p), tail, rest);
        assert(acc.push(p) + bulk_payloads(tail) =~= acc + bulk_payloads(xs));
    }
}

proof fn lemma_signed_decimal_value(n: i64)
    ensures
        i64_value(signed_decimal(n as int)) == Some(n),
{
    if n < 0 {
        let m = (-n) as nat;
        lemma_decimal_digits(m);
        let s = seq![45u8] + decimal(m);
        assert(s.drop_first() =~= decimal(m));
    } else {
        lemma_decimal_digits(n as nat);
        assert(crate::text::is_digit(decimal(n as nat)[0]));
    }
}

/// Decoding the encoding of a reply, followed by any bytes, gives back the
/// reply's content and those bytes; a null bulk string reads as the missing
/// value it stands for.
pub proof fn lemma_round_trip(r: ReplyModel, rest: Seq<u8>)
    requires
        decodable(r),
    ensures
        deserialize_spec(encoding(r) + rest) == decoded_reply(r, rest),
{
    let s = encoding(r) + rest;
    match r {
        ReplyModel::Integer(n) => {
            lemma_signed_decimal_line(n as int);
            lemma_signed_decimal_value(n);
            assert(s.drop_first() =~= signed_decimal(n as int) + crlf() + rest);
            lemma_line_split(signed_decimal(n as int), rest);
        },
        ReplyModel::BulkString(x) => {
            assert(s.drop_first() =~= bulk_encoding(x).drop_first() + rest);
            lemma_bulk_round_trip(x, rest);
        },
        ReplyModel::SimpleString(x) => {
            assert(s.drop_first() =~= x + crlf() + rest);
            lemma_line_split(x, rest);
        },
        ReplyModel::Error(x) => {
            assert(s.drop_first() =~= x + crlf() + rest);
            lemma_line_split(x, rest);
        },
        ReplyModel::Array(xs) => {
            let n = xs.len();
            lemma_decimal_header(n);
            let body = encodings(xs) + rest;
            assert(s.drop_first() =~= decimal(n) + crlf() + body);
            lemma_line_split(decimal(n), body);
            lemma_elements_round_trip(Seq::empty(), xs, rest);
            assert(Seq::<Seq<u8>>::empty() + bulk_payloads(xs) =~= bulk_payloads(xs));
        },
        ReplyModel::NullBulk => {
            let t = s.drop_first();
            assert(t =~= null_header() + crlf() + rest);
            assert(no_cr(null_header()));
            lemma_line_split(null_header(), rest);
        },
    }
}

/// A bulk string's encoding begins with `$`, its length in bytes in decimal,
/// and CRLF.
pub proof fn lemma_bulk_header(s: Seq<u8>)
    ensures
        encoding(ReplyModel::BulkString(s)).subrange(0, decimal(s.len()).len() as int + 3) == seq![36u8]
            + decimal(s.len()) + crlf(),
{
    let h = seq![36u8] + decimal(s.len()) + crlf();
    assert(encoding(ReplyModel::BulkString(s)) =~= h + s + crlf());
    assert((h + s + crlf()).subrange(0, h.len() as int) =~= h);
}

/// After `SET k v EX t` at some time, every `GET k` at or after `t` seconds
/// later finds no value.
pub proof fn lemma_expiration_honored(
    m: Map<Seq<u8>, Slot>,
    k: Seq<u8>,
    v: Seq<u8>,
    t_text: Seq<u8>,
    t: u64,
    clock: Clock,
    later: u64,
)
    requires
        crate::text::u64_value(t_text) == Some(t),
        later >= clock.millis + t * 1000,
    ensures
        set_outcome(seq![k, v, "EX".spec_bytes(), t_text], m, clock).0 == ReplyModel::SimpleString(
            "OK".spec_bytes(),
        ),
        get_reply(
            seq![k],
            set_outcome(seq![k, v, "EX".spec_bytes(), t_text], m, clock).1,
            later,
        ) == ReplyModel::NullBulk,
{
    let args = seq![k, v, "EX".spec_bytes(), t_text];
    assert(args[2] == "EX".spec_bytes());
    assert(args[3] == t_text);
    let after = set_outcome(args, m, clock).1;
    assert(after.contains_key(k));
    assert(seq![k][0] == k);
}

/// After `SET k v EX t` and then `SET k v2`, every `GET k`, at any time,
/// returns `v2`.
pub proof fn lemma_persistent_after_reset(
    m: Map<Seq<u8>, Slot>,
    k: Seq<u8>,
    v: Seq<u8>,
    v2: Seq<u8>,
    t_text: Seq<u8>,
    first: Clock,
    second: Clock,
    later: u64,
)
    ensures
        get_reply(
            seq![k],
            set_outcome(
                seq![k, v2],
                set_outcome(seq![k, v, "EX".spec_bytes(), t_text], m, first).1,
                second,
            ).1,
            later,
        ) == ReplyModel::BulkString(v2),
{
    let m1 = set_outcome(seq![k, v, "EX".spec_bytes(), t_text], m, first).1;
    let args = seq![k, v2];
    assert(args[0] == k && args[1] == v2);
    assert(seq![k][0] == k);
    assert(set_outcome(args, m1, second).1 == m1.insert(k, Slot { value: v2, deadline: None }));
}

/// `EXISTS k k` counts `k` twice: 2 where it has a value, 0 where not.
pub proof fn lemma_exists_counts_duplicates(m: Map<Seq<u8>, Slot>, k: Seq<u8>, now: u64)
    ensures
        exists_reply(seq![k, k], m, now) == if lookup(m, k, now) is Some {
            ReplyModel::Integer(2)
        } else {
            ReplyModel::Integer(0)
        },
{
    let keys = seq![k, k];
    assert(keys.drop_last() =~= seq![k]);
    assert(seq![k].drop_last() =~= Seq::<Seq<u8>>::empty());
    assert(live_count(Seq::<Seq<u8>>::empty(), m, now) == 0);
    assert(keys.last() == k);
    assert(seq![k].last() == k);
    let one: nat = if lookup(m, k, now) is Some {
        1
    } else {
        0
    };
    assert(live_count(seq![k], m, now) == one);
    assert(live_count(keys, m, now) == 2 * one);
}

proof fn lemma_del_outcome_elsewhere(keys: Seq<Seq<u8>>, m: Map<Seq<u8>, Slot>, now: u64, k: Seq<u8>)
    requires
        !keys.contains(k),
    ensures
        lookup(del_outcome(keys, m, now).1, k, now) == lookup(m, k, now),
    decreases keys.len(),
{
    if keys.len() > 0 {
        let init = keys.drop_last();
        assert(!init.contains(k)) by {
            if init.contains(k) {
                let i = choose|i: int| 0 <= i < init.len() && init[i] == k;
                assert(keys[i] == k);
            }
        }
        assert(keys.last() != k) by {
            assert(keys[keys.len() - 1] == keys.last());
        }
        lemma_del_outcome_elsewhere(init, m, now, k);
    }
}

/// Deleting keys that are all different removes as many values as were
/// there to observe.
pub proof fn lemma_del_count(keys: Seq<Seq<u8>>, m: Map<Seq<u8>, Slot>, now: u64)
    requires
        forall|i: int, j: int| 0 <= i < j < keys.len() ==> keys[i] != keys[j],
    ensures
        del_outcome(keys, m, now).0 == live_count(keys, m, now),
    decreases keys.len(),
{
    if keys.len() > 0 {
        let init = keys.drop_last();
        assert(!init.contains(keys.last())) by {
            if init.contains(keys.last()) {
                let i = choose|i: int| 0 <= i < init.len() && init[i] == keys.last();
                assert(keys[i] == keys[keys.len() - 1]);
            }
        }
        lemma_del_outcome_elsewhere(init, m, now, keys.last());
        lemma_del_count(init, m, now);
    }
}

/// The store after `n` `INCR k` commands, one after the other.
pub open spec fn incr_times(m: Map<Seq<u8>, Slot>, k: Seq<u8>, now: u64, n: nat) -> Map<
    Seq<u8>,
    Slot,
>
    decreases n,
{
    if n == 0 {
        m
    } else {
        counter_outcome(seq![k], incr_times(m, k, now, (n - 1) as nat), now, 1, "incr".spec_bytes()).1
    }
}

proof fn lemma_decimal_reads_back(n: nat)
    requires
        n <= i64::MAX,
    ensures
        i64_value(decimal(n)) == Some(n as i64),
{
    lemma_decimal_digits(n);
    assert(crate::text::is_digit(decimal(n)[0]));
}

/// `n` `INCR k` commands on a key with no value leave exactly `n` there, and
/// the last of them replies `n`. The store is changed by one command at a time,
/// so this holds whichever clients sent them.
pub proof fn lemma_incr_counts(m: Map<Seq<u8>, Slot>, k: Seq<u8>, now: u64, n: nat)
    requires
        lookup(m, k, now) is None,
        1 <= n <= i64::MAX,
    ensures
        lookup(incr_times(m, k, now, n), k, now) == Some(decimal(n)),
        incr_times(m, k, now, n)[k].deadline is None,
        counter_outcome(
            seq![k],
            incr_times(m, k, now, (n - 1) as nat),
            now,
            1,
            "incr".spec_bytes(),
        ).0 == ReplyModel::Integer(n as i64),
    decreases n,
{
    assert(seq![k][0] == k);
    if n > 1 {
        lemma_incr_counts(m, k, now, (n - 1) as nat);
        lemma_decimal_reads_back((n - 1) as nat);
    } else {
        assert(signed_decimal(1) == decimal(1));
    }
}

/// Whether a command is matched does not depend on the case of its name.
pub proof fn lemma_case_insensitive_dispatch(
    a: Seq<Seq<u8>>,
    b: Seq<Seq<u8>>,
    m: Map<Seq<u8>, Slot>,
    clock: Clock,
)
    requires
        a.len() > 0,
        b.len() > 0,
        ascii_lower(a[0]) == ascii_lower(b[0]),
        a.drop_first() == b.drop_first(),
    ensures
        dispatch_outcome(a, m, clock) == dispatch_outcome(b, m, clock),
{
}

/// `PING`, in any mix of upper and lower case, replies `pong` and leaves the
/// store as it was.
pub proof fn lemma_ping_in_any_case(items: Seq<Seq<u8>>, m: Map<Seq<u8>, Slot>, clock: Clock)
    requires
        items.len() > 0,
        ascii_lower(items[0]) == "ping".spec_bytes(),
    ensures
        dispatch_outcome(items, m, clock) == (ReplyModel::BulkString("pong".spec_bytes()), m),
{
    reveal_strlit("ping");
    reveal_strlit("command");
    assert("ping"@.len() == 4);
    assert("command"@.len() == 7);
    assert(vstd::utf8::is_ascii_chars("ping"@));
    assert(vstd::utf8::is_ascii_chars("command"@));
    vstd::utf8::is_ascii_chars_encode_utf8("ping"@);
    vstd::utf8::is_ascii_chars_encode_utf8("command"@);
}

/// The request `SET k v EX 1`, as bytes on the wire.
pub open spec fn set_ex_one_request(k: Seq<u8>, v: Seq<u8>) -> Seq<u8> {
    encoding(
        ReplyModel::Array(
            seq![
                ReplyModel::BulkString("SET".spec_bytes()),
                ReplyModel::BulkString(k),
                ReplyModel::BulkString(v),
                ReplyModel::BulkString("EX".spec_bytes()),
                ReplyModel::BulkString("1".spec_bytes()),
            ],
        ),
    )
}

/// The request `GET k`, as bytes on the wire.
pub open spec fn get_request(k: Seq<u8>) -> Seq<u8> {
    encoding(
        ReplyModel::Array(
            seq![ReplyModel::BulkString("GET".spec_bytes()), ReplyModel::BulkString(k)],
        ),
    )
}

/// As `handle_command` answers them: the request `SET k v EX 1` is answered
/// `+OK`, and a `GET k` request one second or more later is answered with
/// the null bulk string `$-1\r\n`, never with `v`, whatever the store held
/// before.
pub proof fn lemma_set_ex_then_get_request(
    m: Map<Seq<u8>, Slot>,
    k: Seq<u8>,
    v: Seq<u8>,
    set_at: Clock,
    get_at: Clock,
)
    requires
        k.len() <= u64::MAX,
        v.len() <= u64::MAX,
        get_at.millis >= set_at.millis + 1000,
    ensures
        command_outcome(set_ex_one_request(k, v), m, set_at).0 == encoding(
            ReplyModel::SimpleString("OK".spec_bytes()),
        ),
        command_outcome(get_request(k), command_outcome(set_ex_one_request(k, v), m, set_at).1, get_at).0
            == null_bulk_encoding(),
{
    reveal_strlit("SET");
    reveal_strlit("GET");
    reveal_strlit("set");
    reveal_strlit("get");
    reveal_strlit("EX");
    reveal_strlit("1");
    reveal_strlit("command");
    reveal_strlit("ping");
    reveal_strlit("echo");
    assert(vstd::utf8::is_ascii_chars("SET"@));
    assert(vstd::utf8::is_ascii_chars("GET"@));
    assert(vstd::utf8::is_ascii_chars("set"@));
    assert(vstd::utf8::is_ascii_chars("get"@));
    assert(vstd::utf8::is_ascii_chars("1"@));
    assert(vstd::utf8::is_ascii_chars("command"@));
    assert(vstd::utf8::is_ascii_chars("ping"@));
    assert(vstd::utf8::is_ascii_chars("echo"@));
    vstd::utf8::is_ascii_chars_encode_utf8("SET"@);
    vstd::utf8::is_ascii_chars_encode_utf8("GET"@);
    vstd::utf8::is_ascii_chars_encode_utf8("set"@);
    vstd::utf8::is_ascii_chars_encode_utf8("get"@);
    vstd::utf8::is_ascii_chars_encode_utf8("1"@);
    vstd::utf8::is_ascii_chars_encode_utf8("command"@);
    vstd::utf8::is_ascii_chars_encode_utf8("ping"@);
    vstd::utf8::is_ascii_chars_encode_utf8("echo"@);
    let set_name = "SET".spec_bytes();
    let get_name = "GET".spec_bytes();
    assert(set_name =~= seq![83u8, 69u8, 84u8]);
    assert(get_name =~= seq![71u8, 69u8, 84u8]);
    assert("set".spec_bytes() =~= seq![115u8, 101u8, 116u8]);
    assert("get".spec_bytes() =~= seq![103u8, 101u8, 116u8]);
    assert(ascii_lower(set_name) =~= "set".spec_bytes());
    assert(ascii_lower(get_name) =~= "get".spec_bytes());
    assert("1".spec_bytes() =~= seq![49u8]);
    let one = "1".spec_bytes();
    assert(one.drop_last() =~= Seq::<u8>::empty());
    assert(one.last() == 49u8);
    assert(crate::text::digits_value(Seq::<u8>::empty()) == 0);
    assert(crate::text::digits_value(one) == 1);
    assert(vstd::utf8::is_ascii_chars("EX"@));
    vstd::utf8::is_ascii_chars_encode_utf8("EX"@);
    assert("EX".spec_bytes().len() == 2);
    assert(crate::text::unsigned_value(one) == Some(1u64));
    assert(crate::text::u64_value(one) == Some(1u64));

    let set_items = seq![
        ReplyModel::BulkString(set_name),
        ReplyModel::BulkString(k),
        ReplyModel::BulkString(v),
        ReplyModel::BulkString("EX".spec_bytes()),
        ReplyModel::BulkString(one),
    ];
    let get_items = seq![ReplyModel::BulkString(get_name), ReplyModel::BulkString(k)];
    let set_req = ReplyModel::Array(set_items);
    let get_req = ReplyModel::Array(get_items);
    assert forall|i: int| 0 <= i < set_items.len() implies (#[trigger] set_items[i]) is BulkString
        && set_items[i]->BulkString_0.len() <= u64::MAX by {
        if i == 0 {
        } else if i == 1 {
        } else if i == 2 {
        } else if i == 3 {
        } else {
        }
    }
    assert forall|i: int| 0 <= i < get_items.len() implies (#[trigger] get_items[i]) is BulkString
        && get_items[i]->BulkString_0.len() <= u64::MAX by {
        if i == 0 {
        } else {
        }
    }
    assert(decodable(set_req));
    assert(decodable(get_req));
    lemma_round_trip(set_req, Seq::empty());
    lemma_round_trip(get_req, Seq::empty());
    assert(encoding(set_req) + Seq::<u8>::empty() =~= encoding(set_req));
    assert(encoding(get_req) + Seq::<u8>::empty() =~= encoding(get_req));
    let set_words = bulk_payloads(set_items);
    let get_words = bulk_payloads(get_items);
    assert(set_words =~= seq![set_name, k, v, "EX".spec_bytes(), one]);
    assert(get_words =~= seq![get_name, k]);
    assert(set_words.drop_first() =~= seq![k, v, "EX".spec_bytes(), one]);
    assert(get_words.drop_first() =~= seq![k]);
    lemma_expiration_honored(m, k, v, one, 1, set_at, get_at.millis);
}

/// Reaping at `now` changes nothing that a read at `now` or later observes.
pub proof fn lemma_reap_unobservable(m: Map<Seq<u8>, Slot>, now: u64, later: u64, k: Seq<u8>)
    requires
        now <= later,
    ensures
        lookup(live_part(m, now), k, later) == lookup(m, k, later),
{
    if m.contains_key(k) && is_live(m[k], later) {
        assert(is_live(m[k], now));
    }
}

} // verus!
