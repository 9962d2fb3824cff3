use redis_lite::decode::{deserialize, RespResponse};
use redis_lite::encode::{encode, serialize, InputVariants, Reply};
use redis_lite::error::ErrMessages;

#[test]
fn should_serialize_null_to_bulk() {
    assert_eq!(serialize(InputVariants::Nullish), b"$-1\r\n".to_vec())
}

#[test]
fn should_serialize_bulk_string() {
    assert_eq!(serialize(InputVariants::StringVariant(b"PING".to_vec())), b"$4\r\nPING\r\n".to_vec())
}

#[test]
fn should_serialize_arr_of_bulk_string() {
    assert_eq!(
        serialize(InputVariants::StringVariantArr(vec![b"echo".to_vec(), b"hello world".to_vec()])),
        b"*2\r\n$4\r\necho\r\n$11\r\nhello world\r\n".to_vec()
    )
}

// A string variant is always a bulk string, whatever its first byte;
// simple strings have a variant of their own.
#[test]
fn should_serialize_simple_string() {
    assert_eq!(serialize(InputVariants::StringVariant(b"+PONG".to_vec())), b"$5\r\n+PONG\r\n".to_vec());
    assert_eq!(serialize(InputVariants::SimpleStringVariant(b"PONG".to_vec())), b"+PONG\r\n".to_vec())
}

#[test]
fn should_serialize_integer() {
    assert_eq!(serialize(InputVariants::NumberVariant(1)), b":1\r\n".to_vec())
}

#[test]
fn error_variant_gets_its_dash() {
    assert_eq!(serialize(InputVariants::ErrorVariant(b"boom".to_vec())), b"-boom\r\n".to_vec());
}

#[test]
fn encodes_negative_and_extreme_integers() {
    assert_eq!(encode(&Reply::Integer(-42)), b":-42\r\n".to_vec());
    assert_eq!(encode(&Reply::Integer(0)), b":0\r\n".to_vec());
    assert_eq!(encode(&Reply::Integer(i64::MIN)), b":-9223372036854775808\r\n".to_vec());
    assert_eq!(encode(&Reply::Integer(i64::MAX)), b":9223372036854775807\r\n".to_vec());
}

#[test]
fn bulk_header_uses_byte_length() {
    let s = "h\u{e9}llo".as_bytes().to_vec();
    let out = encode(&Reply::BulkString(s));
    assert!(out.starts_with(b"$6\r\n"));
}

#[test]
fn encodes_each_reply_kind() {
    assert_eq!(encode(&Reply::SimpleString(b"OK".to_vec())), b"+OK\r\n".to_vec());
    assert_eq!(encode(&Reply::Error(b"bad".to_vec())), b"-bad\r\n".to_vec());
    assert_eq!(encode(&Reply::BulkString(Vec::new())), b"$0\r\n\r\n".to_vec());
    assert_eq!(encode(&Reply::Array(Vec::new())), b"*0\r\n".to_vec());
    assert_eq!(encode(&Reply::NullBulk), b"$-1\r\n".to_vec());
}

#[test]
fn round_trip_of_each_reply_kind() {
    assert_eq!(
        deserialize(&encode(&Reply::Integer(-7))).unwrap(),
        RespResponse::IntegerVariant(-7, Vec::new())
    );
    assert_eq!(
        deserialize(&encode(&Reply::BulkString(b"a\r\nb".to_vec()))).unwrap(),
        RespResponse::TupleVariant(b"a\r\nb".to_vec(), Vec::new())
    );
    assert_eq!(
        deserialize(&encode(&Reply::SimpleString(b"OK".to_vec()))).unwrap(),
        RespResponse::SimpleVariant(b"OK".to_vec(), Vec::new())
    );
    assert_eq!(
        deserialize(&encode(&Reply::Error(b"oops".to_vec()))).unwrap(),
        RespResponse::ErrorVariant(b"oops".to_vec(), Vec::new())
    );
    let items = vec![
        Reply::BulkString(b"x".to_vec()),
        Reply::BulkString(Vec::new()),
        Reply::BulkString(b"yz".to_vec()),
    ];
    assert_eq!(
        deserialize(&encode(&Reply::Array(items))).unwrap(),
        RespResponse::VecVariant(vec![b"x".to_vec(), Vec::new(), b"yz".to_vec()], Vec::new())
    );
    assert_eq!(deserialize(&encode(&Reply::NullBulk)).unwrap_err(), ErrMessages::MissingBulkString);
}

#[test]
fn round_trip_keeps_following_bytes() {
    let mut bytes = encode(&Reply::BulkString(b"v".to_vec()));
    bytes.extend_from_slice(b"+next\r\n");
    assert_eq!(
        deserialize(&bytes).unwrap(),
        RespResponse::TupleVariant(b"v".to_vec(), b"+next\r\n".to_vec())
    );
}

#[test]
fn string_array_elements_follow_the_single_string_rule() {
    let xs = vec![b"+a".to_vec(), b"b".to_vec()];
    let mut expected = b"*2\r\n".to_vec();
    for x in &xs {
        expected.extend(serialize(InputVariants::StringVariant(x.clone())));
    }
    assert_eq!(expected, b"*2\r\n$2\r\n+a\r\n$1\r\nb\r\n".to_vec());
    assert_eq!(serialize(InputVariants::StringVariantArr(xs)), expected);
}

#[test]
fn nested_arrays_encode_each_element() {
    let reply = Reply::Array(vec![
        Reply::Integer(1),
        Reply::Array(vec![Reply::SimpleString(b"OK".to_vec()), Reply::NullBulk]),
        Reply::Error(b"e".to_vec()),
    ]);
    assert_eq!(encode(&reply), b"*3\r\n:1\r\n*2\r\n+OK\r\n$-1\r\n-e\r\n".to_vec());
}
