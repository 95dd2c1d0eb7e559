//! Writing values in the two wire syntaxes.

use crate::storage::value::{Data, Value};
use crate::text::{decimal, push_count, push_decimal, CR, LF};
use vstd::prelude::*;
use vstd::utf8::encode_utf8;

verus! {

/// The byte that opens a bulk string, `$`.
pub const BULK: u8 = 36;

/// The byte that opens a simple string, `+`.
pub const SIMPLE: u8 = 43;

/// The byte that opens an error, `-`.
pub const ERROR: u8 = 45;

/// The byte that opens an integer, `:`.
pub const INTEGER: u8 = 58;

/// The byte that opens an array, `*`.
pub const ARRAY: u8 = 42;

/// The byte that opens a map of the newer syntax, `%`.
pub const MAP: u8 = 37;

/// The byte that opens a set of the newer syntax, `~`.
pub const SET: u8 = 126;

/// A line: its first byte, what follows it, and the line's end.
pub open spec fn line(tag: u8, body: Seq<u8>) -> Seq<u8> {
    seq![tag] + body + seq![CR, LF]
}

/// A bulk string: the number of its bytes on a line, then the bytes and a
/// line's end.
pub open spec fn bulk(text: Seq<char>) -> Seq<u8> {
    line(BULK, decimal(encode_utf8(text).len() as int)) + encode_utf8(text) + seq![CR, LF]
}

/// The line `+OK`.
pub open spec fn okay_line() -> Seq<u8> {
    line(SIMPLE, seq![79u8, 75u8])
}

/// The line `+PONG`.
pub open spec fn pong_line() -> Seq<u8> {
    line(SIMPLE, seq![80u8, 79u8, 78u8, 71u8])
}

/// The line `$-1`, which stands for `Nil` in the older syntax.
pub open spec fn nil_line() -> Seq<u8> {
    line(BULK, seq![45u8, 49u8])
}

/// The line `$_`, which stands for `Nil` in the newer syntax.
pub open spec fn null_line() -> Seq<u8> {
    line(BULK, seq![95u8])
}

/// The older syntax of a value, read at `now`: a hash is written as the
/// array of its keys and values in turn, a set as the array of its members,
/// and a value with a deadline as `Nil` once the deadline has passed and as
/// the value itself before.
pub open spec fn resp2(v: Data, now: u64) -> Seq<u8>
    decreases v, 0nat,
{
    match v {
        Data::Okay => okay_line(),
        Data::Pong => pong_line(),
        Data::Nil => nil_line(),
        Data::Simple(s) => line(SIMPLE, encode_utf8(s)),
        Data::Error(e) => line(ERROR, encode_utf8(e)),
        Data::Integer(i) => line(INTEGER, decimal(i as int)),
        Data::String(s) => bulk(s),
        Data::Multi(items) => line(ARRAY, decimal(items.len() as int)) + resp2_items(items, 0, now),
        Data::Expire(inner, at) => if now > at {
            nil_line()
        } else {
            resp2(*inner, now)
        },
        Data::Hashmap(pairs) => line(ARRAY, decimal(2 * pairs.len() as int)) + resp2_pairs(pairs, 0, now),
        Data::Hashset(items) => line(ARRAY, decimal(items.len() as int)) + resp2_items(
            items,
            0,
            now,
        ),
    }
}

/// The older syntax of the values from index `k` on, one after the other.
pub open spec fn resp2_items(items: Seq<Data>, k: int, now: u64) -> Seq<u8>
    decreases items, items.len() - k,
{
    if 0 <= k < items.len() {
        resp2(items[k], now) + resp2_items(items, k + 1, now)
    } else {
        Seq::empty()
    }
}

/// The older syntax of the entries from index `k` on: each key, then its
/// value.
pub open spec fn resp2_pairs(pairs: Seq<(Data, Data)>, k: int, now: u64) -> Seq<u8>
    decreases pairs, pairs.len() - k,
{
    if 0 <= k < pairs.len() {
        let e = pairs[k];
        resp2(e.0, now) + resp2(e.1, now) + resp2_pairs(pairs, k + 1, now)
    } else {
        Seq::empty()
    }
}

/// The newer syntax of a value, read at `now`: `Nil`, a hash and a set have
/// forms of their own, and every other value is written in the older syntax.
pub open spec fn resp3(v: Data, now: u64) -> Seq<u8>
    decreases v, 0nat,
{
    match v {
        Data::Nil => null_line(),
        Data::Hashmap(pairs) => line(MAP, decimal(pairs.len() as int)) + resp3_pairs(pairs, 0, now),
        Data::Hashset(items) => line(SET, decimal(items.len() as int)) + resp3_items(items, 0, now),
        _ => resp2(v, now),
    }
}

/// The newer syntax of the values from index `k` on, one after the other.
pub open spec fn resp3_items(items: Seq<Data>, k: int, now: u64) -> Seq<u8>
    decreases items, items.len() - k,
{
    if 0 <= k < items.len() {
        resp3(items[k], now) + resp3_items(items, k + 1, now)
    } else {
        Seq::empty()
    }
}

/// The newer syntax of the entries from index `k` on: each key, then its
/// value.
pub open spec fn resp3_pairs(pairs: Seq<(Data, Data)>, k: int, now: u64) -> Seq<u8>
    decreases pairs, pairs.len() - k,
{
    if 0 <= k < pairs.len() {
        let e = pairs[k];
        resp3(e.0, now) + resp3(e.1, now) + resp3_pairs(pairs, k + 1, now)
    } else {
        Seq::empty()
    }
}

/// The syntax of a value in the given version of the protocol.
pub open spec fn resp(v: Data, version: int, now: u64) -> Seq<u8> {
    if version == 3 {
        resp3(v, now)
    } else {
        resp2(v, now)
    }
}

/// Appends a copy of `bytes` to `out`.
pub fn push_bytes(out: &mut Vec<u8>, bytes: &[u8])
    ensures
        final(out)@ == old(out)@ + bytes@,
{
    let mut i: usize = 0;
    while i < bytes.len()
        invariant
            i <= bytes@.len(),
            out@ == old(out)@ + bytes@.take(i as int),
        decreases bytes@.len() - i,
    {
        out.push(bytes[i]);
        i += 1;
        assert(bytes@.take(i as int) =~= bytes@.take(i - 1).push(bytes@[i - 1]));
        assert(out@ =~= old(out)@ + bytes@.take(i as int));
    }
    assert(bytes@.take(bytes@.len() as int) =~= bytes@);
}

/// Appends the end of a line to `out`.
fn push_end(out: &mut Vec<u8>)
    ensures
        final(out)@ == old(out)@ + seq![CR, LF],
{
    out.push(CR);
    out.push(LF);
    assert(final(out)@ =~= old(out)@ + seq![CR, LF]);
}

/// Appends the line that announces `n` items of an aggregate.
fn push_header(out: &mut Vec<u8>, tag: u8, n: u128)
    ensures
        final(out)@ == old(out)@ + line(tag, decimal(n as int)),
{
    out.push(tag);
    push_count(out, n);
    push_end(out);
    assert(final(out)@ =~= old(out)@ + line(tag, decimal(n as int)));
}

/// Appends a line that holds a text.
fn push_text_line(out: &mut Vec<u8>, tag: u8, s: &str)
    ensures
        final(out)@ == old(out)@ + line(tag, encode_utf8(s@)),
{
    out.push(tag);
    push_bytes(out, s.as_bytes());
    push_end(out);
    assert(final(out)@ =~= old(out)@ + line(tag, encode_utf8(s@)));
}

/// Appends a bulk string.
fn push_bulk(out: &mut Vec<u8>, s: &str)
    ensures
        final(out)@ == old(out)@ + bulk(s@),
{
    let bytes = s.as_bytes();
    push_header(out, BULK, bytes.len() as u128);
    push_bytes(out, bytes);
    push_end(out);
    assert(final(out)@ =~= old(out)@ + bulk(s@));
}

impl Value {
    /// Writes the value to `writer` in the older syntax, as a reader at
    /// `now` sees it.
    #[verifier::loop_isolation(false)]
    pub fn to_resp2(&self, writer: &mut Vec<u8>, now: u64)
        ensures
            final(writer)@ == old(writer)@ + resp2(self@, now),
        decreases self,
    {
        let ghost target = old(writer)@ + resp2(self@, now);
        match self {
            Value::Okay => {
                writer.push(SIMPLE);
                writer.push(79);
                writer.push(75);
                push_end(writer);
                assert(writer@ =~= old(writer)@ + okay_line());
            },
            Value::Pong => {
                writer.push(SIMPLE);
                writer.push(80);
                writer.push(79);
                writer.push(78);
                writer.push(71);
                push_end(writer);
                assert(writer@ =~= old(writer)@ + pong_line());
            },
            Value::Nil => {
                push_nil(writer);
            },
            Value::Simple(s) => push_text_line(writer, SIMPLE, s.as_str()),
            Value::Error(e) => push_text_line(writer, ERROR, e.as_str()),
            Value::Integer(i) => {
                writer.push(INTEGER);
                push_decimal(writer, *i);
                push_end(writer);
                assert(writer@ =~= old(writer)@ + line(INTEGER, decimal(*i as int)));
            },
            Value::String(s) => push_bulk(writer, s.as_str()),
            Value::Multi(v) => {
                push_header(writer, ARRAY, v.len() as u128);
                let ghost items = self@->Multi_0;
                assert(writer@ + resp2_items(items, 0, now) =~= target);
                let mut i: usize = 0;
                while i < v.len()
                    invariant
                        i <= v@.len(),
                        writer@ + resp2_items(items, i as int, now) == target,
                    decreases v@.len() - i,
                {
                    let ghost before = writer@;
                    v[i].to_resp2(writer, now);
                    proof {
                        assert(items[i as int] == v@[i as int]@);
                        assert(writer@ + resp2_items(items, i + 1, now) =~= before + resp2_items(
                            items,
                            i as int,
                            now,
                        ));
                    }
                    i += 1;
                }
                assert(writer@ =~= writer@ + resp2_items(items, i as int, now));
            },
            Value::Expire(inner, at) => {
                if now > *at {
                    push_nil(writer);
                } else {
                    (&**inner).to_resp2(writer, now);
                }
            },
            Value::Hashmap(m) => {
                push_header(writer, ARRAY, m.len() as u128 * 2);
                let ghost pairs = self@->Hashmap_0;
                assert(writer@ + resp2_pairs(pairs, 0, now) =~= target);
                let mut i: usize = 0;
                while i < m.len()
                    invariant
                        i <= m@.len(),
                        writer@ + resp2_pairs(pairs, i as int, now) == target,
                    decreases m@.len() - i,
                {
                    let ghost before = writer@;
                    m[i].0.to_resp2(writer, now);
                    m[i].1.to_resp2(writer, now);
                    proof {
                        assert(pairs[i as int] == (m@[i as int].0@, m@[i as int].1@));
                        assert(writer@ + resp2_pairs(pairs, i + 1, now) =~= before + resp2_pairs(
                            pairs,
                            i as int,
                            now,
                        ));
                    }
                    i += 1;
                }
                assert(writer@ =~= writer@ + resp2_pairs(pairs, i as int, now));
            },
            Value::Hashset(s) => {
                push_header(writer, ARRAY, s.len() as u128);
                let ghost items = self@->Hashset_0;
                assert(writer@ + resp2_items(items, 0, now) =~= target);
                let mut i: usize = 0;
                while i < s.len()
                    invariant
                        i <= s@.len(),
                        writer@ + resp2_items(items, i as int, now) == target,
                    decreases s@.len() - i,
                {
                    let ghost before = writer@;
                    s[i].to_resp2(writer, now);
                    proof {
                        assert(items[i as int] == s@[i as int]@);
                        assert(writer@ + resp2_items(items, i + 1, now) =~= before + resp2_items(
                            items,
                            i as int,
                            now,
                        ));
                    }
                    i += 1;
                }
                assert(writer@ =~= writer@ + resp2_items(items, i as int, now));
            },
        }
    }

    /// Writes the value to `writer` in the newer syntax, as a reader at
    /// `now` sees it.
    #[verifier::loop_isolation(false)]
    pub fn to_resp3(&self, writer: &mut Vec<u8>, now: u64)
        ensures
            final(writer)@ == old(writer)@ + resp3(self@, now),
        decreases self,
    {
        let ghost target = old(writer)@ + resp3(self@, now);
        match self {
            Value::Nil => {
                writer.push(BULK);
                writer.push(95);
                push_end(writer);
                assert(writer@ =~= old(writer)@ + null_line());
            },
            Value::Hashmap(m) => {
                push_header(writer, MAP, m.len() as u128);
                let ghost pairs = self@->Hashmap_0;
                assert(writer@ + resp3_pairs(pairs, 0, now) =~= target);
                let mut i: usize = 0;
                while i < m.len()
                    invariant
                        i <= m@.len(),
                        writer@ + resp3_pairs(pairs, i as int, now) == target,
                    decreases m@.len() - i,
                {
                    let ghost before = writer@;
                    m[i].0.to_resp3(writer, now);
                    m[i].1.to_resp3(writer, now);
                    proof {
                        assert(pairs[i as int] == (m@[i as int].0@, m@[i as int].1@));
                        assert(writer@ + resp3_pairs(pairs, i + 1, now) =~= before + resp3_pairs(
                            pairs,
                            i as int,
                            now,
                        ));
                    }
                    i += 1;
                }
                assert(writer@ =~= writer@ + resp3_pairs(pairs, i as int, now));
            },
            Value::Hashset(s) => {
                push_header(writer, SET, s.len() as u128);
                let ghost items = self@->Hashset_0;
                assert(writer@ + resp3_items(items, 0, now) =~= target);
                let mut i: usize = 0;
                while i < s.len()
                    invariant
                        i <= s@.len(),
                        writer@ + resp3_items(items, i as int, now) == target,
                    decreases s@.len() - i,
                {
                    let ghost before = writer@;
                    s[i].to_resp3(writer, now);
                    proof {
                        assert(items[i as int] == s@[i as int]@);
                        assert(writer@ + resp3_items(items, i + 1, now) =~= before + resp3_items(
                            items,
                            i as int,
                            now,
                        ));
                    }
                    i += 1;
                }
                assert(writer@ =~= writer@ + resp3_items(items, i as int, now));
            },
            _ => self.to_resp2(writer, now),
        }
    }

    /// Writes the value to `writer` in the syntax of the given version of
    /// the protocol: the newer one for 3, the older one otherwise.
    pub fn to_resp(&self, writer: &mut Vec<u8>, version: u8, now: u64)
        ensures
            final(writer)@ == old(writer)@ + resp(self@, version as int, now),
    {
        if version == 3 {
            self.to_resp3(writer, now)
        } else {
            self.to_resp2(writer, now)
        }
    }
}

/// Appends the line that stands for `Nil` in the older syntax.
fn push_nil(out: &mut Vec<u8>)
    ensures
        final(out)@ == old(out)@ + nil_line(),
{
    out.push(BULK);
    out.push(45);
    out.push(49);
    push_end(out);
    assert(final(out)@ =~= old(out)@ + nil_line());
}

} // verus!
