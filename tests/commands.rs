use redis_lite::commands::{handle_decr, handle_echo, handle_incr, handle_set, serialize_error, throw_err_if_num_of_args_wrong, Clock};
use redis_lite::dispatch::{handle_command, handle_request};
use redis_lite::encode::{encode, serialize, InputVariants, Reply};
use redis_lite::store::Cache;

fn at(millis: u64) -> Clock {
    Clock { millis, unix_millis: 1_700_000_000_000 + millis }
}

#[test]
fn should_return_serialized_pong() {
    let input = b"*1\r\n$4\r\nPING\r\n";
    assert_eq!(b"$4\r\npong\r\n".to_vec(), handle_command(input, &mut Cache::new(), at(0)))
}

#[test]
fn should_echo_hello_world() {
    let input = b"*2\r\n$4\r\nECHO\r\n$11\r\nHELLO WORLD\r\n";
    assert_eq!(b"$11\r\nHELLO WORLD\r\n".to_vec(), handle_command(input, &mut Cache::new(), at(0)));
}

#[test]
fn should_return_error_when_echo_have_too_many_args() {
    let input = b"*3\r\n$4\r\nECHO\r\n$4\r\nHEHE\r\n$4\r\nHEHE\r\n";
    assert_eq!(
        encode(&throw_err_if_num_of_args_wrong("echo")),
        handle_command(input, &mut Cache::new(), at(0))
    );
}

#[test]
fn should_return_error_when_fail_to_deserialize() {
    let input = b"*1\r\nSILLY";
    assert_eq!(b"-failed to deserialize\r\n".to_vec(), handle_command(input, &mut Cache::new(), at(0)));
}

#[test]
fn should_return_error_when_unknown_command() {
    let input = b"*2\r\n$5\r\nECHOO\r\n$2\r\nRT\r\n";
    assert_eq!(
        format!("-unknown command '{}'\r\n", "echoo").into_bytes(),
        handle_command(input, &mut Cache::new(), at(0))
    );
}

#[test]
fn should_return_set_to_cache() {
    let input = b"*3\r\n$3\r\nset\r\n$4\r\nname\r\n$12\r\nWizard of Oz\r\n";
    assert_eq!(
        serialize(InputVariants::SimpleStringVariant(b"OK".to_vec())),
        handle_command(input, &mut Cache::new(), at(0))
    );
}

#[test]
fn should_return_get_to_cache() {
    let (key, value) = (b"name".to_vec(), b"Wizard of Oz".to_vec());
    let mut cache = Cache::new();
    cache.set(key, value);
    let input = b"*2\r\n$3\r\nget\r\n$4\r\nname\r\n";
    assert_eq!(
        serialize(InputVariants::StringVariant(b"Wizard of Oz".to_vec())),
        handle_command(input, &mut cache, at(0))
    );
}

// The last payload of these requests lacks its CRLF, so the request cannot
// be decoded; the same requests with the CRLF follow.
#[test]
fn should_set_with_unknown_expiration_variant() {
    let mut cache = Cache::new();
    let set_input = b"*5\r\n$3\r\nset\r\n$4\r\nname\r\n$12\r\nWizard of Oz\r\n$6\r\nEXATAT\r\n$1\r\n3";
    assert_eq!(b"-failed to deserialize\r\n".to_vec(), handle_command(set_input, &mut cache, at(0)));
    let whole = b"*5\r\n$3\r\nset\r\n$4\r\nname\r\n$12\r\nWizard of Oz\r\n$6\r\nEXATAT\r\n$1\r\n3\r\n";
    assert_eq!(b"-unknown SET variant\r\n".to_vec(), handle_command(whole, &mut cache, at(0)));
}

#[test]
fn should_set_with_unparseable_value() {
    let mut cache = Cache::new();
    let set_input = b"*5\r\n$3\r\nset\r\n$4\r\nname\r\n$12\r\nWizard of Oz\r\n$6\r\nEXATAT\r\n$3\r\nAAA";
    assert_eq!(b"-failed to deserialize\r\n".to_vec(), handle_command(set_input, &mut cache, at(0)));
    let whole = b"*5\r\n$3\r\nset\r\n$4\r\nname\r\n$12\r\nWizard of Oz\r\n$6\r\nEXATAT\r\n$3\r\nAAA\r\n";
    assert_eq!(b"-invalid SET expiration\r\n".to_vec(), handle_command(whole, &mut cache, at(0)));
}

#[test]
fn expiration_may_carry_a_plus_sign() {
    let mut cache = Cache::new();
    assert_eq!(run(&mut cache, at(0), &[b"SET", b"k", b"v", b"EX", b"+5"]), b"+OK\r\n".to_vec());
    assert_eq!(run(&mut cache, at(4999), &[b"GET", b"k"]), b"$1\r\nv\r\n".to_vec());
    assert_eq!(run(&mut cache, at(5000), &[b"GET", b"k"]), b"$-1\r\n".to_vec());
    let clock = Clock { millis: 100, unix_millis: 50_000 };
    assert_eq!(run(&mut cache, clock, &[b"SET", b"k", b"v", b"EXAT", b"+1"]), b"+OK\r\n".to_vec());
    assert_eq!(run(&mut cache, clock, &[b"GET", b"k"]), b"$-1\r\n".to_vec());
    assert_eq!(run(&mut cache, clock, &[b"SET", b"k", b"v", b"PX", b"+"]), b"-invalid SET expiration\r\n".to_vec());
    assert_eq!(run(&mut cache, clock, &[b"SET", b"k", b"v", b"PX", b"-1"]), b"-invalid SET expiration\r\n".to_vec());
}

#[test]
fn pipelined_requests_are_answered_in_turn() {
    let mut cache = Cache::new();
    let input = b"*3\r\n$3\r\nSET\r\n$1\r\na\r\n$1\r\n1\r\n*2\r\n$3\r\nGET\r\n$1\r\na\r\n";
    let (first, rest) = handle_request(input, &mut cache, at(0));
    assert_eq!(first, b"+OK\r\n".to_vec());
    assert_eq!(rest, b"*2\r\n$3\r\nGET\r\n$1\r\na\r\n".to_vec());
    let (second, rest) = handle_request(&rest, &mut cache, at(0));
    assert_eq!(second, b"$1\r\n1\r\n".to_vec());
    assert!(rest.is_empty());
    let (bad, rest) = handle_request(b"?junk", &mut cache, at(0));
    assert_eq!(bad, b"-failed to deserialize\r\n".to_vec());
    assert!(rest.is_empty());
}

#[test]
fn should_return_existing_values() {
    let mut cache = Cache::new();
    cache.set(b"name".to_vec(), b"name_val".to_vec());
    cache.set(b"name1".to_vec(), b"name_val_1".to_vec());
    cache.set(b"name2".to_vec(), b"name_val_2".to_vec());
    let input = b"*4\r\n$6\r\nexists\r\n$4\r\nname\r\n$5\r\nname1\r\n$5\r\nname2\r\n";
    assert_eq!(serialize(InputVariants::NumberVariant(3)), handle_command(input, &mut cache, at(0)))
}

#[test]
fn should_return_zero_if_not_exists() {
    let mut cache = Cache::new();
    let input = b"*2\r\n$6\r\nexists\r\n$4\r\nname\r\n";
    assert_eq!(serialize(InputVariants::NumberVariant(0)), handle_command(input, &mut cache, at(0)))
}

#[test]
fn should_del_values() {
    let mut cache = Cache::new();
    cache.set(b"name".to_vec(), b"name_val".to_vec());
    cache.set(b"name1".to_vec(), b"name_val_1".to_vec());
    cache.set(b"name2".to_vec(), b"name_val_2".to_vec());
    let input = b"*4\r\n$3\r\ndel\r\n$4\r\nname\r\n$5\r\nname1\r\n$5\r\nname2\r\n";
    assert_eq!(serialize(InputVariants::NumberVariant(3)), handle_command(input, &mut cache, at(0)))
}

#[test]
fn should_return_zero_if_cant_remove() {
    let mut cache = Cache::new();
    let input = b"*2\r\n$3\r\ndel\r\n$4\r\nname\r\n";
    assert_eq!(serialize(InputVariants::NumberVariant(0)), handle_command(input, &mut cache, at(0)))
}

#[test]
fn should_create_when_incr_if_not_exists() {
    let mut cache = Cache::new();
    let input = b"*2\r\n$4\r\nincr\r\n$5\r\nmykey\r\n";
    assert_eq!(serialize(InputVariants::NumberVariant(1)), handle_command(input, &mut cache, at(0)))
}

#[test]
fn should_create_incr_if_exists() {
    let mut cache = Cache::new();
    cache.set(b"mykey".to_vec(), 11.to_string().into_bytes());
    let input = b"*2\r\n$4\r\nincr\r\n$5\r\nmykey\r\n";
    assert_eq!(serialize(InputVariants::NumberVariant(12)), handle_command(input, &mut cache, at(0)))
}

#[test]
fn should_create_when_decr_if_not_exists() {
    let mut cache = Cache::new();
    let input = b"*2\r\n$4\r\ndecr\r\n$5\r\nmykey\r\n";
    assert_eq!(serialize(InputVariants::NumberVariant(-1)), handle_command(input, &mut cache, at(0)))
}

#[test]
fn should_create_decr_if_exists() {
    let mut cache = Cache::new();
    cache.set(b"mykey".to_vec(), 11.to_string().into_bytes());
    let input = b"*2\r\n$4\r\ndecr\r\n$5\r\nmykey\r\n";
    assert_eq!(serialize(InputVariants::NumberVariant(10)), handle_command(input, &mut cache, at(0)))
}

fn args(items: &[&[u8]]) -> Vec<Vec<u8>> {
    items.iter().map(|s| s.to_vec()).collect()
}

fn run(cache: &mut Cache, clock: Clock, items: &[&[u8]]) -> Vec<u8> {
    let mut input = format!("*{}\r\n", items.len()).into_bytes();
    for item in items {
        input.extend_from_slice(format!("${}\r\n", item.len()).as_bytes());
        input.extend_from_slice(item);
        input.extend_from_slice(b"\r\n");
    }
    handle_command(&input, cache, clock)
}

#[test]
fn set_then_get_scenario() {
    let mut cache = Cache::new();
    assert_eq!(
        handle_command(b"*3\r\n$3\r\nSET\r\n$4\r\nname\r\n$12\r\nWizard of Oz\r\n", &mut cache, at(0)),
        b"+OK\r\n".to_vec()
    );
    assert_eq!(
        handle_command(b"*2\r\n$3\r\nGET\r\n$4\r\nname\r\n", &mut cache, at(10)),
        b"$12\r\nWizard of Oz\r\n".to_vec()
    );
}

// A missing or expired key reads as the null bulk string `$-1\r\n`, the
// standard RESP form, not as a bulk string holding `+(nil)`.
#[test]
fn get_after_expiry_is_null_bulk() {
    let mut cache = Cache::new();
    let set = b"*5\r\n$3\r\nSET\r\n$1\r\nk\r\n$1\r\nv\r\n$2\r\nEX\r\n$1\r\n1\r\n";
    assert_eq!(handle_command(set, &mut cache, at(0)), b"+OK\r\n".to_vec());
    assert_eq!(run(&mut cache, at(999), &[b"GET", b"k"]), b"$1\r\nv\r\n".to_vec());
    assert_eq!(run(&mut cache, at(2000), &[b"GET", b"k"]), b"$-1\r\n".to_vec());
}

#[test]
fn exists_counts_duplicate_keys() {
    let mut cache = Cache::new();
    run(&mut cache, at(0), &[b"SET", b"a", b"1"]);
    let input = b"*4\r\n$6\r\nEXISTS\r\n$1\r\na\r\n$1\r\nb\r\n$1\r\na\r\n";
    assert_eq!(handle_command(input, &mut cache, at(0)), b":2\r\n".to_vec());
    assert_eq!(run(&mut cache, at(0), &[b"EXISTS", b"a", b"a"]), b":2\r\n".to_vec());
    assert_eq!(run(&mut cache, at(0), &[b"EXISTS", b"z", b"z"]), b":0\r\n".to_vec());
}

#[test]
fn incr_scenario_with_unparseable_value() {
    let mut cache = Cache::new();
    let incr = b"*2\r\n$4\r\nINCR\r\n$1\r\nc\r\n";
    assert_eq!(handle_command(incr, &mut cache, at(0)), b":1\r\n".to_vec());
    assert_eq!(handle_command(incr, &mut cache, at(0)), b":2\r\n".to_vec());
    run(&mut cache, at(0), &[b"SET", b"c", b"abc"]);
    assert_eq!(handle_command(incr, &mut cache, at(0)), b"-could not parse stored number\r\n".to_vec());
}

#[test]
fn ping_in_any_case() {
    for name in [&b"PING"[..], b"ping", b"PiNg"] {
        assert_eq!(run(&mut Cache::new(), at(0), &[name]), b"$4\r\npong\r\n".to_vec());
    }
}

#[test]
fn del_counts_keys_that_existed() {
    let mut cache = Cache::new();
    run(&mut cache, at(0), &[b"SET", b"a", b"1"]);
    run(&mut cache, at(0), &[b"SET", b"c", b"3"]);
    assert_eq!(run(&mut cache, at(0), &[b"DEL", b"a", b"b", b"c"]), b":2\r\n".to_vec());
    assert_eq!(run(&mut cache, at(0), &[b"EXISTS", b"a", b"c"]), b":0\r\n".to_vec());
}

#[test]
fn del_of_repeated_key_counts_once() {
    let mut cache = Cache::new();
    run(&mut cache, at(0), &[b"SET", b"a", b"1"]);
    assert_eq!(run(&mut cache, at(0), &[b"DEL", b"a", b"a"]), b":1\r\n".to_vec());
}

#[test]
fn many_increments_count_exactly() {
    let mut cache = Cache::new();
    for i in 1..=100 {
        assert_eq!(run(&mut cache, at(i), &[b"INCR", b"n"]), format!(":{}\r\n", i).into_bytes());
    }
    assert_eq!(run(&mut cache, at(200), &[b"GET", b"n"]), b"$3\r\n100\r\n".to_vec());
}

#[test]
fn set_without_expiry_makes_key_persistent() {
    let mut cache = Cache::new();
    run(&mut cache, at(0), &[b"SET", b"k", b"v", b"EX", b"1"]);
    run(&mut cache, at(10), &[b"SET", b"k", b"v2"]);
    assert_eq!(run(&mut cache, at(5000), &[b"GET", b"k"]), b"$2\r\nv2\r\n".to_vec());
}

#[test]
fn set_with_px_exat_pxat() {
    let mut cache = Cache::new();
    let clock = Clock { millis: 100, unix_millis: 50_000 };
    run(&mut cache, clock, &[b"SET", b"p", b"1", b"PX", b"20"]);
    run(&mut cache, clock, &[b"SET", b"e", b"2", b"EXAT", b"60"]);
    run(&mut cache, clock, &[b"SET", b"q", b"3", b"PXAT", b"50500"]);
    let probe = |c: &mut Cache, millis: u64, key: &[u8]| run(c, Clock { millis, unix_millis: 0 }, &[b"GET", key]);
    assert_eq!(probe(&mut cache, 119, b"p"), b"$1\r\n1\r\n".to_vec());
    assert_eq!(probe(&mut cache, 120, b"p"), b"$-1\r\n".to_vec());
    assert_eq!(probe(&mut cache, 10_099, b"e"), b"$1\r\n2\r\n".to_vec());
    assert_eq!(probe(&mut cache, 10_100, b"e"), b"$-1\r\n".to_vec());
    assert_eq!(probe(&mut cache, 599, b"q"), b"$1\r\n3\r\n".to_vec());
    assert_eq!(probe(&mut cache, 600, b"q"), b"$-1\r\n".to_vec());
}

#[test]
fn absolute_expiry_in_the_past_hides_key() {
    let mut cache = Cache::new();
    let clock = Clock { millis: 100, unix_millis: 50_000 };
    assert_eq!(run(&mut cache, clock, &[b"SET", b"k", b"v", b"EXAT", b"10"]), b"+OK\r\n".to_vec());
    assert_eq!(run(&mut cache, clock, &[b"GET", b"k"]), b"$-1\r\n".to_vec());
    assert_eq!(run(&mut cache, clock, &[b"SET", b"k", b"v", b"PXAT", b"49999"]), b"+OK\r\n".to_vec());
    assert_eq!(run(&mut cache, clock, &[b"GET", b"k"]), b"$-1\r\n".to_vec());
}

#[test]
fn ex_zero_expires_at_once() {
    let mut cache = Cache::new();
    run(&mut cache, at(7), &[b"SET", b"k", b"v", b"EX", b"0"]);
    assert_eq!(run(&mut cache, at(7), &[b"GET", b"k"]), b"$-1\r\n".to_vec());
}

#[test]
fn wrong_argument_counts() {
    let mut cache = Cache::new();
    assert_eq!(run(&mut cache, at(0), &[b"GET"]), b"-wrong number of arguments for get command\r\n".to_vec());
    assert_eq!(run(&mut cache, at(0), &[b"SET", b"k"]), b"-wrong number of arguments for set command\r\n".to_vec());
    assert_eq!(run(&mut cache, at(0), &[b"SET", b"k", b"v", b"EX"]), b"-wrong number of arguments for set command\r\n".to_vec());
    assert_eq!(run(&mut cache, at(0), &[b"EXISTS"]), b"-wrong number of arguments for exists command\r\n".to_vec());
    assert_eq!(run(&mut cache, at(0), &[b"DEL"]), b"-wrong number of arguments for del command\r\n".to_vec());
    assert_eq!(run(&mut cache, at(0), &[b"INCR", b"a", b"b"]), b"-wrong number of arguments for incr command\r\n".to_vec());
    assert_eq!(run(&mut cache, at(0), &[b"DECR"]), b"-wrong number of arguments for decr command\r\n".to_vec());
    assert_eq!(run(&mut cache, at(0), &[b"ECHO"]), b"-wrong number of arguments for echo command\r\n".to_vec());
}

#[test]
fn command_stub_and_request_shapes() {
    let mut cache = Cache::new();
    assert_eq!(run(&mut cache, at(0), &[b"COMMAND", b"DOCS"]), b"$-1\r\n".to_vec());
    assert_eq!(handle_command(b"*0\r\n", &mut cache, at(0)), b"-commands array is empty\r\n".to_vec());
    assert_eq!(handle_command(b"+PING\r\n", &mut cache, at(0)), b"-unsupported RESP type\r\n".to_vec());
    assert_eq!(handle_command(b"", &mut cache, at(0)), b"-failed to deserialize\r\n".to_vec());
}

#[test]
fn incr_and_decr_limits() {
    let mut cache = Cache::new();
    cache.set(b"big".to_vec(), b"9223372036854775807".to_vec());
    assert_eq!(handle_incr(&args(&[b"big"]), &mut cache, 0), Reply::Error(b"could not parse stored number".to_vec()));
    assert_eq!(handle_decr(&args(&[b"big"]), &mut cache, 0), Reply::Integer(9223372036854775806));
    cache.set(b"small".to_vec(), b"-9223372036854775808".to_vec());
    assert_eq!(handle_decr(&args(&[b"small"]), &mut cache, 0), Reply::Error(b"could not parse stored number".to_vec()));
    cache.set(b"signed".to_vec(), b"+41".to_vec());
    assert_eq!(handle_incr(&args(&[b"signed"]), &mut cache, 0), Reply::Integer(42));
    assert_eq!(cache.get(b"signed", 0), Some(b"42".to_vec()));
}

#[test]
fn incr_keeps_deadline_and_resets_expired() {
    let mut cache = Cache::new();
    handle_set(&args(&[b"k", b"5", b"PX", b"100"]), &mut cache, at(0));
    assert_eq!(handle_incr(&args(&[b"k"]), &mut cache, 50), Reply::Integer(6));
    assert_eq!(cache.get(b"k", 99), Some(b"6".to_vec()));
    assert_eq!(cache.get(b"k", 100), None);
    assert_eq!(handle_incr(&args(&[b"k"]), &mut cache, 100), Reply::Integer(1));
    assert_eq!(cache.get(b"k", 10_000), Some(b"1".to_vec()));
}

#[test]
fn error_line_from_message() {
    assert_eq!(serialize_error(b"internal error"), b"-internal error\r\n".to_vec());
}

#[test]
fn echo_keeps_arguments_as_bulk() {
    assert_eq!(handle_echo(&args(&[b"+hi"])), Reply::BulkString(b"+hi".to_vec()));
}

#[test]
fn arguments_are_not_case_folded() {
    let mut cache = Cache::new();
    run(&mut cache, at(0), &[b"set", b"Key", b"Value"]);
    assert_eq!(run(&mut cache, at(0), &[b"get", b"key"]), b"$-1\r\n".to_vec());
    assert_eq!(run(&mut cache, at(0), &[b"GET", b"Key"]), b"$5\r\nValue\r\n".to_vec());
}
