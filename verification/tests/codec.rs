use crabdis::error::{Error, Malformed};
use crabdis::storage::decode::Reader;
use crabdis::storage::value::Value;
use std::collections::VecDeque;

fn written2(value: &Value) -> Vec<u8> {
    let mut buff = Vec::new();
    value.to_resp2(&mut buff, 0);
    buff
}

fn written3(value: &Value) -> Vec<u8> {
    let mut buff = Vec::new();
    value.to_resp3(&mut buff, 0);
    buff
}

fn read(data: &[u8]) -> Option<Value> {
    let mut reader = Reader::new(data.to_vec());
    Value::from_resp(&mut reader).unwrap()
}

fn read_error(data: &[u8]) -> Malformed {
    let mut reader = Reader::new(data.to_vec());
    match Value::from_resp(&mut reader) {
        Err(Error::Protocol(m)) => m,
        other => panic!("no protocol error: {:?}", other),
    }
}

fn text(s: &str) -> Value {
    Value::String(s.to_string())
}

#[test]
fn test_value_to_resp() {
    let value = Value::String("Hello, World!".to_string());
    assert_eq!(written2(&value), b"$13\r\nHello, World!\r\n");

    let value = Value::Integer(42);
    assert_eq!(written2(&value), b":42\r\n");

    let value = Value::Nil;
    assert_eq!(written2(&value), b"$-1\r\n");

    let value = Value::Multi(VecDeque::from([
        Value::String("Hello, World!".to_string()),
        Value::Integer(42),
        Value::Nil,
    ]));
    assert_eq!(
        written2(&value),
        b"*3\r\n$13\r\nHello, World!\r\n:42\r\n$-1\r\n"
    );

    let value = Value::Multi(VecDeque::from([
        Value::String("key".to_string()),
        Value::String("value".to_string()),
    ]));
    assert_eq!(written2(&value), b"*2\r\n$3\r\nkey\r\n$5\r\nvalue\r\n");
}

#[test]
fn test_value_from_resp() {
    let value = read(b"$13\r\nHello, World!\r\n");
    assert_eq!(value, Some(Value::String("Hello, World!".to_string())));

    let value = read(b":42\r\n");
    assert_eq!(value, Some(Value::Integer(42)));

    let value = read(b"$-1\r\n");
    assert_eq!(value, Some(Value::Nil));

    let value = read(b"*3\r\n$13\r\nHello, World!\r\n:42\r\n$-1\r\n");
    assert_eq!(
        value,
        Some(Value::Multi(VecDeque::from([
            Value::String("Hello, World!".to_string()),
            Value::Integer(42),
            Value::Nil
        ])))
    );

    let value = read(b"*2\r\n$3\r\nkey\r\n$5\r\nvalue\r\n");
    assert_eq!(
        value,
        Some(Value::Multi(VecDeque::from([
            Value::String("key".to_string()),
            Value::String("value".to_string())
        ])))
    );
}

#[test]
fn writes_fixed_replies() {
    assert_eq!(written2(&Value::Okay), b"+OK\r\n");
    assert_eq!(written2(&Value::Pong), b"+PONG\r\n");
    assert_eq!(written3(&Value::Okay), b"+OK\r\n");
    assert_eq!(written3(&Value::Pong), b"+PONG\r\n");
}

#[test]
fn writes_simple_and_error() {
    assert_eq!(written2(&Value::Simple("hi there".to_string())), b"+hi there\r\n");
    assert_eq!(written2(&Value::Error("Invalid key".to_string())), b"-Invalid key\r\n");
    assert_eq!(written3(&Value::Error("Invalid key".to_string())), b"-Invalid key\r\n");
}

#[test]
fn writes_integers_at_the_limits() {
    assert_eq!(written2(&Value::Integer(0)), b":0\r\n");
    assert_eq!(written2(&Value::Integer(-7)), b":-7\r\n");
    assert_eq!(written2(&Value::Integer(i64::MAX)), b":9223372036854775807\r\n");
    assert_eq!(written2(&Value::Integer(i64::MIN)), b":-9223372036854775808\r\n");
    assert_eq!(written2(&Value::Integer(1000)), b":1000\r\n");
}

#[test]
fn writes_the_length_of_a_string_in_bytes() {
    assert_eq!(written2(&text("")), b"$0\r\n\r\n");
    assert_eq!(written2(&text("h\u{e9}")), b"$3\r\nh\xc3\xa9\r\n");
    assert_eq!(written2(&text("a\r\nb")), b"$4\r\na\r\nb\r\n");
}

#[test]
fn writes_nil_of_each_version() {
    assert_eq!(written2(&Value::Nil), b"$-1\r\n");
    assert_eq!(written3(&Value::Nil), b"$_\r\n");
}

#[test]
fn writes_hash_flat_in_the_older_syntax() {
    let hash = Value::Hashmap(vec![
        (text("f1"), text("v1")),
        (text("f2"), Value::Integer(2)),
    ]);
    assert_eq!(
        written2(&hash),
        b"*4\r\n$2\r\nf1\r\n$2\r\nv1\r\n$2\r\nf2\r\n:2\r\n"
    );
    assert_eq!(
        written3(&hash),
        b"%2\r\n$2\r\nf1\r\n$2\r\nv1\r\n$2\r\nf2\r\n:2\r\n"
    );
}

#[test]
fn writes_set_as_array_in_the_older_syntax() {
    let set = Value::Hashset(vec![text("a"), Value::Integer(1)]);
    assert_eq!(written2(&set), b"*2\r\n$1\r\na\r\n:1\r\n");
    assert_eq!(written3(&set), b"~2\r\n$1\r\na\r\n:1\r\n");
}

#[test]
fn writes_nil_inside_a_hash_of_the_newer_syntax() {
    let hash = Value::Hashmap(vec![(text("f"), Value::Nil)]);
    assert_eq!(written3(&hash), b"%1\r\n$1\r\nf\r\n$_\r\n");
    let array = Value::Multi(VecDeque::from([Value::Nil]));
    assert_eq!(written3(&array), b"*1\r\n$-1\r\n");
}

#[test]
fn writes_a_value_with_a_deadline_until_it_has_passed() {
    let value = Value::Expire(Box::new(text("v")), 100);
    let mut at = Vec::new();
    value.to_resp2(&mut at, 100);
    assert_eq!(at, b"$1\r\nv\r\n");
    let mut past = Vec::new();
    value.to_resp2(&mut past, 101);
    assert_eq!(past, b"$-1\r\n");
    let mut newer = Vec::new();
    value.to_resp3(&mut newer, 101);
    assert_eq!(newer, b"$-1\r\n");
    assert!(!value.expired(100));
    assert!(value.expired(101));
    assert!(!text("v").expired(u64::MAX));
}

#[test]
fn appends_to_what_the_writer_holds() {
    let mut buff = b"abc".to_vec();
    Value::Integer(5).to_resp2(&mut buff, 0);
    Value::Okay.to_resp(&mut buff, 3, 0);
    Value::Nil.to_resp(&mut buff, 3, 0);
    Value::Nil.to_resp(&mut buff, 2, 0);
    assert_eq!(buff, b"abc:5\r\n+OK\r\n$_\r\n$-1\r\n");
}

#[test]
fn reads_fixed_replies() {
    assert_eq!(read(b"+OK\r\n"), Some(Value::Okay));
    assert_eq!(read(b"+PONG\r\n"), Some(Value::Pong));
    assert_eq!(read(b"+ OK \r\n"), Some(Value::Okay));
}

#[test]
fn refuses_other_simple_strings() {
    assert_eq!(read_error(b"+HELLO\r\n"), Malformed::SimpleString);
    assert_eq!(read_error(b"+\r\n"), Malformed::SimpleString);
    assert_eq!(read_error(b"+ok\r\n"), Malformed::SimpleString);
}

#[test]
fn reads_errors_as_values() {
    assert_eq!(
        read(b"-ERR something\r\n"),
        Some(Value::Error("ERR something".to_string()))
    );
    assert_eq!(read(b"-\r\n"), Some(Value::Error(String::new())));
}

#[test]
fn refuses_error_text_that_is_not_utf8() {
    assert_eq!(read_error(b"-\xff\xfe\r\n"), Malformed::Encoding);
}

#[test]
fn reads_integers() {
    assert_eq!(read(b":0\r\n"), Some(Value::Integer(0)));
    assert_eq!(read(b":-12\r\n"), Some(Value::Integer(-12)));
    assert_eq!(read(b":+12\r\n"), Some(Value::Integer(12)));
    assert_eq!(read(b":007\r\n"), Some(Value::Integer(7)));
    assert_eq!(read(b": 5 \r\n"), Some(Value::Integer(5)));
    assert_eq!(read(b":5\n"), Some(Value::Integer(5)));
    assert_eq!(
        read(b":9223372036854775807\r\n"),
        Some(Value::Integer(i64::MAX))
    );
    assert_eq!(
        read(b":-9223372036854775808\r\n"),
        Some(Value::Integer(i64::MIN))
    );
}

#[test]
fn reads_a_number_that_cannot_be_read_as_an_error_value() {
    let bad = Some(Value::Error("Could not parse integer".to_string()));
    assert_eq!(read(b":abc\r\n"), bad);
    assert_eq!(read(b":\r\n"), bad);
    assert_eq!(read(b":-\r\n"), bad);
    assert_eq!(read(b":1 2\r\n"), bad);
    assert_eq!(read(b":9223372036854775808\r\n"), bad);
    assert_eq!(read(b":-9223372036854775809\r\n"), bad);
    assert_eq!(read(b"$abc\r\n"), bad);
    assert_eq!(read(b"$-2\r\n"), bad);
    assert_eq!(read(b"$-1\n"), bad);
    assert_eq!(read(b"*x\r\n"), bad);
    assert_eq!(read(b"*-1\r\n"), bad);
    assert_eq!(read(b"%\r\n"), bad);
    assert_eq!(read(b"~1.5\r\n"), bad);
}

#[test]
fn reads_null_of_the_newer_syntax_as_an_error_value() {
    assert_eq!(
        read(b"$_\r\n"),
        Some(Value::Error("Could not parse integer".to_string()))
    );
}

#[test]
fn reads_unknown_first_byte_as_an_error_value() {
    let bad = Some(Value::Error("Invalid response".to_string()));
    assert_eq!(read(b"hello\r\n"), bad);
    assert_eq!(read(b"\r\n"), bad);
    assert_eq!(read(b"\n"), bad);
    assert_eq!(read(b"_\r\n"), bad);
}

#[test]
fn reads_bulk_strings() {
    assert_eq!(read(b"$0\r\n\r\n"), Some(text("")));
    assert_eq!(read(b"$4\r\na\r\nb\r\n"), Some(text("a\r\nb")));
    assert_eq!(read(b"$3\r\nh\xc3\xa9\r\n"), Some(text("h\u{e9}")));
    assert_eq!(read(b"$+2\r\nhi\r\n"), Some(text("hi")));
    assert_eq!(read(b"$2\r\nhiXY"), Some(text("hi")));
}

#[test]
fn reads_a_bulk_string_that_is_not_utf8_as_an_error_value() {
    assert_eq!(
        read(b"$2\r\n\xff\xfe\r\n"),
        Some(Value::Error("Invalid string".to_string()))
    );
    assert_eq!(
        read(b"$1\r\n\xc3\r\n"),
        Some(Value::Error("Invalid string".to_string()))
    );
}

#[test]
fn finds_no_value_where_the_bytes_end_early() {
    assert_eq!(read(b""), None);
    assert_eq!(read(b"$5"), None);
    assert_eq!(read(b"$5\r"), None);
    assert_eq!(read(b"$5\r\nhel"), None);
    assert_eq!(read(b"$5\r\nhello"), None);
    assert_eq!(read(b"$5\r\nhello\r"), None);
    assert_eq!(read(b":12"), None);
    assert_eq!(read(b"*2\r\n:1\r\n"), None);
    assert_eq!(read(b"*1\r\n"), None);
    assert_eq!(read(b"%1\r\n$1\r\nk\r\n"), None);
    assert_eq!(read(b"*9223372036854775807\r\n:1\r\n"), None);
}

#[test]
fn reads_empty_aggregates() {
    assert_eq!(read(b"*0\r\n"), Some(Value::Multi(VecDeque::new())));
    assert_eq!(read(b"%0\r\n"), Some(Value::Hashmap(Vec::new())));
    assert_eq!(read(b"~0\r\n"), Some(Value::Hashset(Vec::new())));
}

#[test]
fn reads_nested_arrays() {
    assert_eq!(
        read(b"*2\r\n*1\r\n:1\r\n*0\r\n"),
        Some(Value::Multi(VecDeque::from([
            Value::Multi(VecDeque::from([Value::Integer(1)])),
            Value::Multi(VecDeque::new()),
        ])))
    );
}

#[test]
fn reads_maps_and_keeps_the_last_value_of_a_key() {
    assert_eq!(
        read(b"%2\r\n$1\r\na\r\n:1\r\n$1\r\nb\r\n:2\r\n"),
        Some(Value::Hashmap(vec![
            (text("a"), Value::Integer(1)),
            (text("b"), Value::Integer(2)),
        ]))
    );
    assert_eq!(
        read(b"%3\r\n$1\r\na\r\n:1\r\n$1\r\nb\r\n:2\r\n$1\r\na\r\n:3\r\n"),
        Some(Value::Hashmap(vec![
            (text("a"), Value::Integer(3)),
            (text("b"), Value::Integer(2)),
        ]))
    );
}

#[test]
fn reads_sets_and_drops_a_member_that_occurs_again() {
    assert_eq!(
        read(b"~3\r\n:1\r\n:2\r\n:1\r\n"),
        Some(Value::Hashset(vec![Value::Integer(1), Value::Integer(2)]))
    );
}

#[test]
fn refuses_aggregates_as_keys_and_members() {
    assert_eq!(read_error(b"%1\r\n*0\r\n:1\r\n"), Malformed::Member);
    assert_eq!(read_error(b"~1\r\n%0\r\n"), Malformed::Member);
    assert_eq!(read_error(b"~2\r\n:1\r\n~0\r\n"), Malformed::Member);
}

#[test]
fn refuses_aggregates_nested_too_deep() {
    let mut deep = Vec::new();
    for _ in 0..32 {
        deep.extend_from_slice(b"*1\r\n");
    }
    deep.extend_from_slice(b":1\r\n");
    assert!(read(&deep).is_some());
    let mut deeper = Vec::new();
    for _ in 0..33 {
        deeper.extend_from_slice(b"*1\r\n");
    }
    deeper.extend_from_slice(b":1\r\n");
    assert_eq!(read_error(&deeper), Malformed::Nesting);
    assert_eq!(crabdis::storage::decode::MAX_DEPTH, 32);
}

#[test]
fn moves_the_reader_past_each_frame() {
    let mut reader = Reader::new(b":1\r\n$2\r\nhi\r\n+OK\r\n$5\r\nhe".to_vec());
    assert_eq!(reader.consumed(), 0);
    assert_eq!(Value::from_resp(&mut reader).unwrap(), Some(Value::Integer(1)));
    assert_eq!(reader.consumed(), 4);
    assert_eq!(Value::from_resp(&mut reader).unwrap(), Some(text("hi")));
    assert_eq!(reader.consumed(), 12);
    assert_eq!(Value::from_resp(&mut reader).unwrap(), Some(Value::Okay));
    assert_eq!(reader.consumed(), 17);
    assert_eq!(Value::from_resp(&mut reader).unwrap(), None);
    assert_eq!(reader.consumed(), 17);
    assert_eq!(reader.remaining(), 6);
    reader.feed(b"llo\r\n");
    assert_eq!(Value::from_resp(&mut reader).unwrap(), Some(text("hello")));
    assert_eq!(reader.remaining(), 0);
    reader.compact();
    assert_eq!(reader.consumed(), 0);
    assert_eq!(reader.remaining(), 0);
    assert_eq!(Value::from_resp(&mut reader).unwrap(), None);
}

#[test]
fn leaves_the_reader_where_it_was_on_an_error() {
    let mut reader = Reader::new(b":1\r\n+NO\r\n".to_vec());
    assert_eq!(Value::from_resp(&mut reader).unwrap(), Some(Value::Integer(1)));
    assert!(matches!(
        Value::from_resp(&mut reader),
        Err(Error::Protocol(Malformed::SimpleString))
    ));
    assert_eq!(reader.consumed(), 4);
}

#[test]
fn compacts_to_the_bytes_not_read() {
    let mut reader = Reader::new(b":1\r\n:2\r\n".to_vec());
    assert_eq!(Value::from_resp(&mut reader).unwrap(), Some(Value::Integer(1)));
    reader.compact();
    assert_eq!(reader.consumed(), 0);
    assert_eq!(reader.remaining(), 4);
    assert_eq!(Value::from_resp(&mut reader).unwrap(), Some(Value::Integer(2)));
}

fn comes_back2(value: Value) {
    let mut bytes = written2(&value);
    let len = bytes.len();
    bytes.extend_from_slice(b":99\r\n");
    let mut reader = Reader::new(bytes);
    assert_eq!(Value::from_resp(&mut reader).unwrap(), Some(value));
    assert_eq!(reader.consumed(), len);
}

fn comes_back3(value: Value) {
    let mut bytes = written3(&value);
    let len = bytes.len();
    bytes.extend_from_slice(b":99\r\n");
    let mut reader = Reader::new(bytes);
    assert_eq!(Value::from_resp(&mut reader).unwrap(), Some(value));
    assert_eq!(reader.consumed(), len);
}

#[test]
fn round_trip_in_the_older_syntax() {
    comes_back2(Value::Okay);
    comes_back2(Value::Pong);
    comes_back2(Value::Nil);
    comes_back2(Value::Integer(-5));
    comes_back2(Value::Integer(i64::MIN));
    comes_back2(text("hello"));
    comes_back2(text("with\r\nbreak \u{1F600}"));
    comes_back2(Value::Multi(VecDeque::from([
        text("SET"),
        Value::Nil,
        Value::Multi(VecDeque::from([Value::Integer(1), Value::Okay])),
    ])));
}

#[test]
fn round_trip_in_the_newer_syntax() {
    comes_back3(Value::Okay);
    comes_back3(Value::Integer(7));
    comes_back3(text("hello"));
    comes_back3(Value::Multi(VecDeque::from([text("a"), Value::Nil])));
    comes_back3(Value::Hashmap(vec![
        (text("f1"), text("v1")),
        (Value::Integer(2), Value::Hashset(vec![text("x"), Value::Pong])),
        (
            Value::Okay,
            Value::Hashmap(vec![(text("in"), Value::Multi(VecDeque::new()))]),
        ),
    ]));
    comes_back3(Value::Hashset(vec![text("a"), Value::Integer(1), Value::Okay]));
}

#[test]
fn what_does_not_come_back() {
    assert_eq!(
        read(&written3(&Value::Nil)),
        Some(Value::Error("Could not parse integer".to_string()))
    );
    assert_eq!(read(&written2(&Value::Simple("OK".to_string()))), Some(Value::Okay));
    assert_eq!(
        read(&written2(&Value::Hashmap(vec![(text("f"), text("v"))]))),
        Some(Value::Multi(VecDeque::from([text("f"), text("v")])))
    );
}

#[test]
fn scalars_are_told_apart() {
    assert!(text("a").is_scalar());
    assert!(Value::Nil.is_scalar());
    assert!(!Value::Multi(VecDeque::new()).is_scalar());
    assert!(!Value::Expire(Box::new(Value::Nil), 1).is_scalar());
    assert!(text("a").same_scalar(&text("a")));
    assert!(!text("a").same_scalar(&text("b")));
    assert!(!text("1").same_scalar(&Value::Integer(1)));
    assert!(Value::Integer(1).same_scalar(&Value::Integer(1)));
    assert!(!Value::Simple("a".to_string()).same_scalar(&text("a")));
    assert!(!Value::Multi(VecDeque::new()).same_scalar(&Value::Multi(VecDeque::new())));
}

#[test]
fn values_are_made_from_plain_values() {
    assert_eq!(Value::from(Some(Value::Integer(1))), Value::Integer(1));
    assert_eq!(Value::from(None), Value::Nil);
    assert_eq!(Value::from("a".to_string()), text("a"));
    assert_eq!(Value::from(5i64), Value::Integer(5));
    assert_eq!(
        Value::from(VecDeque::from([Value::Nil])),
        Value::Multi(VecDeque::from([Value::Nil]))
    );
}

#[test]
fn copies_are_equal_to_what_they_were_made_of() {
    let value = Value::Hashmap(vec![(
        text("k"),
        Value::Expire(
            Box::new(Value::Multi(VecDeque::from([
                Value::Hashset(vec![Value::Integer(1)]),
                Value::Error("e".to_string()),
                Value::Simple("s".to_string()),
            ]))),
            9,
        ),
    )]);
    assert_eq!(value.clone(), value);
    assert_eq!(value.clone().into_plain(), value);
    let wrapped = Value::Expire(Box::new(text("v")), 3);
    assert_eq!(wrapped.as_plain(), &text("v"));
    assert_eq!(wrapped.into_plain(), text("v"));
}
