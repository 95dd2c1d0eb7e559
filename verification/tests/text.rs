use crabdis::storage::encode::push_bytes;
use crabdis::storage::hash::{add_member, find_key, find_member, put_entry};
use crabdis::storage::value::Value;
use crabdis::text::{
    find_line_end, int_of_text, is_blank_byte, owned, push_count, push_decimal, push_digits,
    read_count, read_int, same_text, trim_range,
};

fn text(v: &str) -> Value {
    Value::String(v.to_string())
}

#[test]
fn integers_are_read_as_rust_reads_them() {
    for s in [
        "0", "7", "-7", "+7", "007", "-0", "+0", "9223372036854775807", "-9223372036854775808",
        "9223372036854775808", "-9223372036854775809", "99999999999999999999", "", "-", "+",
        "1a", "a1", " 1", "1 ", "--1", "+-1", "1_000", "0x10", "١",
    ] {
        assert_eq!(int_of_text(s), s.parse::<i64>().ok(), "{:?}", s);
    }
}

#[test]
fn integers_are_read_in_the_middle_of_bytes() {
    let bytes = b"xx-123yy";
    assert_eq!(read_int(bytes, 2, 6), Some(-123));
    assert_eq!(read_int(bytes, 3, 6), Some(123));
    assert_eq!(read_int(bytes, 2, 7), None);
    assert_eq!(read_int(bytes, 2, 2), None);
    assert_eq!(read_int(bytes, 2, 3), None);
    assert_eq!(read_count(bytes, 2, 6), None);
    assert_eq!(read_count(bytes, 3, 6), Some(123));
    assert_eq!(read_count(b"+5", 0, 2), Some(5));
    assert_eq!(read_count(b"-0", 0, 2), None);
}

#[test]
fn numbers_are_written_in_decimal() {
    let mut out = Vec::new();
    push_decimal(&mut out, 0);
    out.push(b' ');
    push_decimal(&mut out, -10);
    out.push(b' ');
    push_decimal(&mut out, i64::MIN);
    out.push(b' ');
    push_digits(&mut out, u128::MAX);
    out.push(b' ');
    push_count(&mut out, 1_000_000);
    out.push(b' ');
    push_bytes(&mut out, b"end");
    assert_eq!(
        String::from_utf8(out).unwrap(),
        "0 -10 -9223372036854775808 340282366920938463463374607431768211455 1000000 end"
    );
}

#[test]
fn blanks_are_trimmed_at_both_ends() {
    let bytes = b"x \t\r\n 12 3 \x0b\x0c\r\ny";
    assert_eq!(trim_range(bytes, 1, bytes.len() - 1), (6, 10));
    assert_eq!(trim_range(bytes, 6, 10), (6, 10));
    assert_eq!(trim_range(bytes, 1, 6), (1, 1));
    assert_eq!(trim_range(bytes, 3, 3), (3, 3));
    assert_eq!(trim_range(bytes, 0, bytes.len()), (0, bytes.len()));
    for b in 0..=255u8 {
        assert_eq!(is_blank_byte(b), b == b' ' || (9..=13).contains(&b));
    }
}

#[test]
fn lines_end_at_the_first_line_feed() {
    let bytes = b"ab\ncd\r\n\nef";
    assert_eq!(find_line_end(bytes, 0), 2);
    assert_eq!(find_line_end(bytes, 2), 2);
    assert_eq!(find_line_end(bytes, 3), 6);
    assert_eq!(find_line_end(bytes, 7), 7);
    assert_eq!(find_line_end(bytes, 8), 10);
    assert_eq!(find_line_end(bytes, 10), 10);
}

#[test]
fn texts_are_compared_and_copied() {
    assert!(same_text("", ""));
    assert!(same_text("h\u{e9}", "h\u{e9}"));
    assert!(!same_text("a", "b"));
    assert!(!same_text("a", "ab"));
    assert!(!same_text("A", "a"));
    assert_eq!(owned("abc"), "abc".to_string());
}

#[test]
fn entries_are_put_in_place_or_at_the_end() {
    let mut hash = Vec::new();
    put_entry(&mut hash, text("a"), Value::Integer(1));
    put_entry(&mut hash, Value::Integer(1), Value::Integer(2));
    put_entry(&mut hash, text("1"), Value::Integer(3));
    put_entry(&mut hash, text("a"), Value::Integer(4));
    assert_eq!(
        hash,
        vec![
            (text("a"), Value::Integer(4)),
            (Value::Integer(1), Value::Integer(2)),
            (text("1"), Value::Integer(3)),
        ]
    );
    assert_eq!(find_key(&hash, &text("a")), 0);
    assert_eq!(find_key(&hash, &text("1")), 2);
    assert_eq!(find_key(&hash, &text("z")), 3);
}

#[test]
fn members_are_added_once() {
    let mut set = Vec::new();
    add_member(&mut set, text("a"));
    add_member(&mut set, Value::Nil);
    add_member(&mut set, text("a"));
    add_member(&mut set, Value::Okay);
    add_member(&mut set, Value::Nil);
    assert_eq!(set, vec![text("a"), Value::Nil, Value::Okay]);
    assert_eq!(find_member(&set, &Value::Okay), 2);
    assert_eq!(find_member(&set, &Value::Pong), 3);
}
