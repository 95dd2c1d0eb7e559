//! Reading values off a stream of bytes.

use crate::error::{Error, Malformed};
use crate::storage::encode::{nil_line, ARRAY, BULK, ERROR, INTEGER, MAP, SET, SIMPLE};
use crate::storage::hash::{
    add_member, entries, lemma_hashmap_view, lemma_hashset_view, lemma_multi_view,
    lemma_upsert_wf, lemma_with_member_wf, members, put_entry, upsert, with_member,
};
use crate::storage::value::{valid, valid_entries, valid_items, valid_members, views, Data, Value};
use crate::text::{
    find_line_end, line_end, owned, parse_count, parse_int, read_count, read_int, text_of, trim,
    trim_range, LF,
};
use std::collections::VecDeque;
use vstd::prelude::*;
use vstd::utf8::{decode_utf8, valid_utf8};

verus! {

/// How deep aggregates may nest in what is read: an aggregate at this depth
/// is not read, as it would let a peer grow the stack without bound.
pub const MAX_DEPTH: usize = 32;

/// What reading one frame gives.
#[verifier::ext_equal]
pub enum Parse {
    /// A value, and the index of the first byte after its frame.
    Frame(Data, int),
    /// The bytes end before the frame does: the peer has not sent all of it,
    /// or has gone.
    NoValue,
    /// The bytes are no frame of the protocol.
    Fatal(Malformed),
}

/// What reading several frames in a row gives.
#[verifier::ext_equal]
pub enum ParseItems {
    /// The values, and the index of the first byte after the last frame.
    Items(Seq<Data>, int),
    /// The bytes end before the last frame does.
    NoValue,
    /// One of the frames is no frame of the protocol.
    Fatal(Malformed),
}

/// The value that stands for a number that cannot be read.
pub open spec fn bad_integer() -> Data {
    Data::Error("Could not parse integer"@)
}

/// The value that stands for a bulk string that is not valid UTF-8.
pub open spec fn bad_text() -> Data {
    Data::Error("Invalid string"@)
}

/// The value that stands for a line that opens with no byte of the protocol.
pub open spec fn bad_frame() -> Data {
    Data::Error("Invalid response"@)
}

/// What a line says after its first byte, without the blanks around it: the
/// line starts at `pos` and ends with the `LF` at `lf`.
pub open spec fn body_of(s: Seq<u8>, pos: int, lf: int) -> Seq<u8> {
    if pos < lf {
        trim(s.subrange(pos + 1, lf))
    } else {
        Seq::empty()
    }
}

/// A bulk string whose line starts at `pos` and ends with the `LF` at `lf`:
/// `Nil` for the line `$-1`, and otherwise as many bytes as the line says,
/// followed by two bytes that are not looked at.
pub open spec fn bulk_frame(s: Seq<u8>, pos: int, lf: int) -> Parse {
    if s.subrange(pos, lf + 1) == nil_line() {
        Parse::Frame(Data::Nil, lf + 1)
    } else {
        match parse_count(body_of(s, pos, lf)) {
            None => Parse::Frame(bad_integer(), lf + 1),
            Some(n) => if lf + 1 + n + 2 > s.len() {
                Parse::NoValue
            } else {
                let payload = s.subrange(lf + 1, lf + 1 + n);
                if valid_utf8(payload) {
                    Parse::Frame(Data::String(decode_utf8(payload)), lf + 1 + n + 2)
                } else {
                    Parse::Frame(bad_text(), lf + 1 + n + 2)
                }
            },
        }
    }
}

/// A simple string: only `OK` and `PONG` are read.
pub open spec fn simple_frame(body: Seq<u8>, next: int) -> Parse {
    if body == seq![79u8, 75u8] {
        Parse::Frame(Data::Okay, next)
    } else if body == seq![80u8, 79u8, 78u8, 71u8] {
        Parse::Frame(Data::Pong, next)
    } else {
        Parse::Fatal(Malformed::SimpleString)
    }
}

/// The hash that the first `k` pairs of `items` make, each pair a key and its
/// value, a later pair replacing the value of an earlier one with the same
/// key; nothing where one of the keys is no scalar.
pub open spec fn pair_up(items: Seq<Data>, k: nat) -> Option<Seq<(Data, Data)>>
    decreases k,
{
    if k == 0 {
        Some(Seq::empty())
    } else {
        match pair_up(items, (k - 1) as nat) {
            None => None,
            Some(acc) => if items[2 * k - 2].is_scalar() {
                Some(upsert(acc, items[2 * k - 2], items[2 * k - 1]))
            } else {
                None
            },
        }
    }
}

/// The set that the first `k` of `items` make, a member that occurs again
/// being dropped; nothing where one of them is no scalar.
pub open spec fn collect(items: Seq<Data>, k: nat) -> Option<Seq<Data>>
    decreases k,
{
    if k == 0 {
        Some(Seq::empty())
    } else {
        match collect(items, (k - 1) as nat) {
            None => None,
            Some(acc) => if items[k - 1].is_scalar() {
                Some(with_member(acc, items[k - 1]))
            } else {
                None
            },
        }
    }
}

/// The aggregate that the items read after a line with the first byte `tag`
/// make.
pub open spec fn aggregate(tag: u8, items: Seq<Data>, end: int) -> Parse {
    if tag == MAP {
        match pair_up(items, items.len() / 2) {
            Some(pairs) => Parse::Frame(Data::Hashmap(pairs), end),
            None => Parse::Fatal(Malformed::Member),
        }
    } else if tag == SET {
        match collect(items, items.len()) {
            Some(all) => Parse::Frame(Data::Hashset(all), end),
            None => Parse::Fatal(Malformed::Member),
        }
    } else {
        Parse::Frame(Data::Multi(items), end)
    }
}

/// The number of frames that follow the line of an aggregate of `n` items.
pub open spec fn frames_of(tag: u8, n: int) -> int {
    if tag == MAP {
        2 * n
    } else {
        n
    }
}

/// The frame that starts at `pos` in `s`, where aggregates may still nest
/// `fuel` deep.
///
/// The frame's first line ends at the first `LF`; its first byte says what
/// the frame is. A number that cannot be read, and a first byte that the
/// protocol does not know, give an `Error` value. The frame is not there
/// where the bytes end before it does.
pub open spec fn frame(s: Seq<u8>, pos: int, fuel: nat) -> Parse
    decreases fuel, 0nat,
{
    let lf = line_end(s, pos);
    if pos < 0 || lf >= s.len() {
        Parse::NoValue
    } else {
        let tag = s[pos];
        let body = body_of(s, pos, lf);
        if tag == BULK {
            bulk_frame(s, pos, lf)
        } else if tag == INTEGER {
            match parse_int(body) {
                Some(v) => Parse::Frame(Data::Integer(v as i64), lf + 1),
                None => Parse::Frame(bad_integer(), lf + 1),
            }
        } else if tag == ARRAY || tag == MAP || tag == SET {
            match parse_count(body) {
                None => Parse::Frame(bad_integer(), lf + 1),
                Some(n) => if fuel == 0 {
                    Parse::Fatal(Malformed::Nesting)
                } else {
                    match items(s, lf + 1, frames_of(tag, n), (fuel - 1) as nat) {
                        ParseItems::Items(all, end) => aggregate(tag, all, end),
                        ParseItems::NoValue => Parse::NoValue,
                        ParseItems::Fatal(m) => Parse::Fatal(m),
                    }
                },
            }
        } else if tag == SIMPLE {
            simple_frame(body, lf + 1)
        } else if tag == ERROR {
            if valid_utf8(body) {
                Parse::Frame(Data::Error(decode_utf8(body)), lf + 1)
            } else {
                Parse::Fatal(Malformed::Encoding)
            }
        } else {
            Parse::Frame(bad_frame(), lf + 1)
        }
    }
}

/// The `n` frames that start at `pos` in `s`, one after the other.
pub open spec fn items(s: Seq<u8>, pos: int, n: int, fuel: nat) -> ParseItems
    decreases fuel, (if n > 0 { n + 1 } else { 1 }) as nat,
{
    if n <= 0 {
        ParseItems::Items(Seq::empty(), pos)
    } else {
        match frame(s, pos, fuel) {
            Parse::Frame(d, end) => prepend(seq![d], items(s, end, n - 1, fuel)),
            Parse::NoValue => ParseItems::NoValue,
            Parse::Fatal(m) => ParseItems::Fatal(m),
        }
    }
}

/// The items read later, after those read before.
pub open spec fn prepend(before: Seq<Data>, rest: ParseItems) -> ParseItems {
    match rest {
        ParseItems::Items(later, end) => ParseItems::Items(before + later, end),
        ParseItems::NoValue => ParseItems::NoValue,
        ParseItems::Fatal(m) => ParseItems::Fatal(m),
    }
}

/// Whether `r` is what a reader returns for the outcome `p`.
pub open spec fn decoded(p: Parse, r: Result<Option<(Value, usize)>, Error>) -> bool {
    match p {
        Parse::Frame(d, end) => r matches Ok(Some(x)) && x.0@ == d && x.1 == end,
        Parse::NoValue => r matches Ok(None),
        Parse::Fatal(m) => r matches Err(Error::Protocol(e)) && e == m,
    }
}

/// Whether `r` is what a reader returns for the outcome `p` of several
/// frames.
pub open spec fn decoded_items(
    p: ParseItems,
    r: Result<Option<(VecDeque<Value>, usize)>, Error>,
) -> bool {
    match p {
        ParseItems::Items(all, end) => r matches Ok(Some(x)) && views(x.0@) == all && x.1 == end,
        ParseItems::NoValue => r matches Ok(None),
        ParseItems::Fatal(m) => r matches Err(Error::Protocol(e)) && e == m,
    }
}

/// An error value with the given message.
fn error_value(message: &str) -> (v: Value)
    ensures
        v@ == Data::Error(message@),
{
    Value::Error(owned(message))
}

/// A copy of the bytes from `start` up to `end`.
fn copy_range(bytes: &[u8], start: usize, end: usize) -> (out: Vec<u8>)
    requires
        start <= end <= bytes@.len(),
    ensures
        out@ == bytes@.subrange(start as int, end as int),
{
    let mut out: Vec<u8> = Vec::new();
    let mut i: usize = start;
    while i < end
        invariant
            start <= i <= end <= bytes@.len(),
            out@ == bytes@.subrange(start as int, i as int),
        decreases end - i,
    {
        out.push(bytes[i]);
        i += 1;
        assert(out@ =~= bytes@.subrange(start as int, i as int));
    }
    out
}

/// Reads the bulk string whose line starts at `pos` and ends at `lf`.
fn read_bulk(bytes: &[u8], pos: usize, lf: usize) -> (r: Result<Option<(Value, usize)>, Error>)
    requires
        pos <= lf < bytes@.len(),
        bytes@[lf as int] == LF,
    ensures
        decoded(bulk_frame(bytes@, pos as int, lf as int), r),
        r matches Ok(Some(x)) ==> pos < x.1 <= bytes@.len() && valid(x.0@),
{
    let len = bytes.len();
    let next = lf + 1;
    if lf - pos == 4 && bytes[pos] == BULK && bytes[pos + 1] == 45 && bytes[pos + 2] == 49
        && bytes[pos + 3] == 13 {
        assert(bytes@.subrange(pos as int, lf + 1) =~= nil_line());
        return Ok(Some((Value::Nil, next)));
    }
    proof {
        let whole = bytes@.subrange(pos as int, lf + 1);
        if whole == nil_line() {
            assert(whole.len() == 5);
            assert(whole[0] == BULK && whole[1] == 45 && whole[2] == 49 && whole[3] == 13);
        }
    }
    let (lo, hi) = if pos < lf {
        trim_range(bytes, pos + 1, lf)
    } else {
        (lf, lf)
    };
    assert(bytes@.subrange(lo as int, hi as int) =~= body_of(bytes@, pos as int, lf as int));
    match read_count(bytes, lo, hi) {
        None => Ok(Some((error_value("Could not parse integer"), next))),
        Some(n) => {
            let rest: usize = len - next;
            if n as u128 + 2 > rest as u128 {
                return Ok(None);
            }
            let size: usize = n as usize;
            let payload = copy_range(bytes, next, next + size);
            let end: usize = next + size + 2;
            match text_of(payload) {
                Some(s) => Ok(Some((Value::String(s), end))),
                None => Ok(Some((error_value("Invalid string"), end))),
            }
        },
    }
}

/// Makes a hash of the values read after the line of a map.
#[verifier::loop_isolation(false)]
fn build_hashmap(list: VecDeque<Value>) -> (r: Result<Value, Error>)
    requires
        valid_items(views(list@)),
        list@.len() % 2 == 0,
    ensures
        match pair_up(views(list@), list@.len() / 2) {
            Some(pairs) => r matches Ok(v) && v@ == Data::Hashmap(pairs) && valid(v@),
            None => r matches Err(Error::Protocol(e)) && e == Malformed::Member,
        },
{
    let ghost all = views(list@);
    let mut rest = list;
    let mut m: Vec<(Value, Value)> = Vec::new();
    let total: usize = rest.len() / 2;
    let mut i: usize = 0;
    assert(entries(m@) =~= Seq::<(Data, Data)>::empty());
    while i < total
        invariant
            i <= total,
            all.len() == 2 * total,
            valid_items(all),
            rest@.len() == 2 * (total - i),
            views(rest@) == all.skip(2 * i),
            pair_up(all, i as nat) == Some(entries(m@)),
            valid_entries(entries(m@)),
        decreases total - i,
    {
        let ghost before = rest@;
        let key = rest.pop_front().unwrap();
        let value = rest.pop_front().unwrap();
        proof {
            assert(key@ == views(before)[0]);
            assert(value@ == views(before)[1]);
            assert(views(before)[0] == all[2 * i]);
            assert(views(before)[1] == all[2 * i + 1]);
            assert forall|j: int| 0 <= j < rest@.len() implies rest@[j] == before[j + 2] by {
                assert(rest@[j] == before.subrange(1, before.len() as int)[j + 1]);
            }
            assert forall|j: int| 0 <= j < rest@.len() implies #[trigger] views(rest@)[j]
                == all.skip(2 * (i + 1))[j] by {
                assert(views(before)[j + 2] == all.skip(2 * i)[j + 2]);
            }
            assert(views(rest@) =~= all.skip(2 * (i + 1)));
            assert(valid(all[2 * i + 1]));
        }
        if !key.is_scalar() {
            proof {
                assert(pair_up(all, (i + 1) as nat) is None);
                lemma_pair_up_stays_none(all, (i + 1) as nat, total as nat);
            }
            return Err(Error::Protocol(Malformed::Member));
        }
        proof {
            lemma_upsert_wf(entries(m@), key@, value@);
        }
        put_entry(&mut m, key, value);
        i += 1;
    }
    proof {
        lemma_hashmap_view(m);
    }
    Ok(Value::Hashmap(m))
}

/// Once a key is no scalar, no hash is made, however many pairs follow.
pub proof fn lemma_pair_up_stays_none(items: Seq<Data>, k: nat, n: nat)
    requires
        k <= n,
        pair_up(items, k) is None,
    ensures
        pair_up(items, n) is None,
    decreases n - k,
{
    if k < n {
        lemma_pair_up_stays_none(items, k, (n - 1) as nat);
    }
}

/// Once a member is no scalar, no set is made, however many follow.
pub proof fn lemma_collect_stays_none(items: Seq<Data>, k: nat, n: nat)
    requires
        k <= n,
        collect(items, k) is None,
    ensures
        collect(items, n) is None,
    decreases n - k,
{
    if k < n {
        lemma_collect_stays_none(items, k, (n - 1) as nat);
    }
}

/// Makes a set of the values read after the line of a set.
#[verifier::loop_isolation(false)]
fn build_hashset(list: VecDeque<Value>) -> (r: Result<Value, Error>)
    ensures
        match collect(views(list@), list@.len()) {
            Some(all) => r matches Ok(v) && v@ == Data::Hashset(all) && valid(v@),
            None => r matches Err(Error::Protocol(e)) && e == Malformed::Member,
        },
{
    let ghost all = views(list@);
    let mut rest = list;
    let mut s: Vec<Value> = Vec::new();
    let total: usize = rest.len();
    let mut i: usize = 0;
    assert(members(s@) =~= Seq::<Data>::empty());
    while i < total
        invariant
            i <= total,
            all.len() == total,
            rest@.len() == total - i,
            views(rest@) == all.skip(i as int),
            collect(all, i as nat) == Some(members(s@)),
            valid_members(members(s@)),
        decreases total - i,
    {
        let ghost before = rest@;
        let member = rest.pop_front().unwrap();
        proof {
            assert(member@ == views(before)[0]);
            assert(views(before)[0] == all[i as int]);
            assert forall|j: int| 0 <= j < rest@.len() implies #[trigger] views(rest@)[j]
                == all.skip(i + 1)[j] by {
                assert(rest@[j] == before[j + 1]);
                assert(views(before)[j + 1] == all.skip(i as int)[j + 1]);
            }
            assert(views(rest@) =~= all.skip(i + 1));
        }
        if !member.is_scalar() {
            proof {
                assert(collect(all, (i + 1) as nat) is None);
                lemma_collect_stays_none(all, (i + 1) as nat, total as nat);
            }
            return Err(Error::Protocol(Malformed::Member));
        }
        proof {
            lemma_with_member_wf(members(s@), member@);
        }
        add_member(&mut s, member);
        i += 1;
    }
    proof {
        lemma_hashset_view(s);
    }
    Ok(Value::Hashset(s))
}

/// Reads the frame that starts at `pos`.
fn read_frame(bytes: &[u8], pos: usize, fuel: usize) -> (r: Result<Option<(Value, usize)>, Error>)
    requires
        pos <= bytes@.len(),
    ensures
        decoded(frame(bytes@, pos as int, fuel as nat), r),
        r matches Ok(Some(x)) ==> pos < x.1 <= bytes@.len() && valid(x.0@),
    decreases fuel, 0nat,
{
    let lf = find_line_end(bytes, pos);
    if lf >= bytes.len() {
        return Ok(None);
    }
    let next = lf + 1;
    let tag = bytes[pos];
    if tag == BULK {
        return read_bulk(bytes, pos, lf);
    }
    let (lo, hi) = if pos < lf {
        trim_range(bytes, pos + 1, lf)
    } else {
        (lf, lf)
    };
    assert(bytes@.subrange(lo as int, hi as int) =~= body_of(bytes@, pos as int, lf as int));
    let ghost body = body_of(bytes@, pos as int, lf as int);
    if tag == INTEGER {
        match read_int(bytes, lo, hi) {
            Some(v) => Ok(Some((Value::Integer(v), next))),
            None => Ok(Some((error_value("Could not parse integer"), next))),
        }
    } else if tag == ARRAY || tag == MAP || tag == SET {
        match read_count(bytes, lo, hi) {
            None => Ok(Some((error_value("Could not parse integer"), next))),
            Some(n) => {
                if fuel == 0 {
                    return Err(Error::Protocol(Malformed::Nesting));
                }
                let count: u64 = if tag == MAP {
                    n as u64 * 2
                } else {
                    n as u64
                };
                match read_items(bytes, next, count, fuel - 1) {
                    Err(e) => Err(e),
                    Ok(None) => Ok(None),
                    Ok(Some((list, end))) => {
                        if tag == MAP {
                            match build_hashmap(list) {
                                Ok(v) => Ok(Some((v, end))),
                                Err(e) => Err(e),
                            }
                        } else if tag == SET {
                            match build_hashset(list) {
                                Ok(v) => Ok(Some((v, end))),
                                Err(e) => Err(e),
                            }
                        } else {
                            proof {
                                lemma_multi_view(list);
                            }
                            Ok(Some((Value::Multi(list), end)))
                        }
                    },
                }
            },
        }
    } else if tag == SIMPLE {
        if hi - lo == 2 && bytes[lo] == 79 && bytes[lo + 1] == 75 {
            assert(body =~= seq![79u8, 75u8]);
            Ok(Some((Value::Okay, next)))
        } else if hi - lo == 4 && bytes[lo] == 80 && bytes[lo + 1] == 79 && bytes[lo + 2] == 78
            && bytes[lo + 3] == 71 {
            assert(body =~= seq![80u8, 79u8, 78u8, 71u8]);
            Ok(Some((Value::Pong, next)))
        } else {
            proof {
                if body == seq![79u8, 75u8] {
                    assert(body.len() == 2 && body[0] == 79 && body[1] == 75);
                }
                if body == seq![80u8, 79u8, 78u8, 71u8] {
                    assert(body.len() == 4 && body[0] == 80 && body[1] == 79 && body[2] == 78
                        && body[3] == 71);
                }
            }
            Err(Error::Protocol(Malformed::SimpleString))
        }
    } else if tag == ERROR {
        match text_of(copy_range(bytes, lo, hi)) {
            Some(s) => Ok(Some((Value::Error(s), next))),
            None => Err(Error::Protocol(Malformed::Encoding)),
        }
    } else {
        Ok(Some((error_value("Invalid response"), next)))
    }
}

/// Reads `count` frames in a row, the first of which starts at `pos`.
#[verifier::loop_isolation(false)]
fn read_items(bytes: &[u8], pos: usize, count: u64, fuel: usize) -> (r: Result<
    Option<(VecDeque<Value>, usize)>,
    Error,
>)
    requires
        pos <= bytes@.len(),
    ensures
        decoded_items(items(bytes@, pos as int, count as int, fuel as nat), r),
        r matches Ok(Some(x)) ==> pos <= x.1 <= bytes@.len() && valid_items(views(x.0@))
            && x.0@.len() == count,
    decreases fuel, 1nat,
{
    let ghost whole = items(bytes@, pos as int, count as int, fuel as nat);
    let mut list: VecDeque<Value> = VecDeque::new();
    let mut cur: usize = pos;
    let mut i: u64 = 0;
    assert(views(list@) =~= Seq::<Data>::empty());
    assert(prepend(Seq::empty(), whole) == whole);
    while i < count
        invariant
            i <= count,
            pos <= cur <= bytes@.len(),
            list@.len() == i,
            valid_items(views(list@)),
            whole == prepend(views(list@), items(bytes@, cur as int, count - i, fuel as nat)),
        decreases count - i,
    {
        let ghost before = views(list@);
        let ghost rest = items(bytes@, cur as int, count - i, fuel as nat);
        match read_frame(bytes, cur, fuel) {
            Err(e) => {
                assert(rest is Fatal);
                return Err(e);
            },
            Ok(None) => {
                assert(rest is NoValue);
                return Ok(None);
            },
            Ok(Some((value, end))) => {
                proof {
                    let later = items(bytes@, end as int, count - i - 1, fuel as nat);
                    assert(rest == prepend(seq![value@], later));
                    assert(views(list@.push(value)) =~= before + seq![value@]);
                    match later {
                        ParseItems::Items(tail, e) => {
                            assert(before + (seq![value@] + tail) =~= (before + seq![value@])
                                + tail);
                        },
                        _ => {},
                    }
                }
                list.push_back(value);
                cur = end;
                i += 1;
            },
        }
    }
    proof {
        assert(views(list@) + Seq::<Data>::empty() =~= views(list@));
    }
    Ok(Some((list, cur)))
}

/// The bytes that have come from a peer, and how far they have been read.
pub struct Reader {
    bytes: Vec<u8>,
    position: usize,
}

impl Reader {
    /// All the bytes that the reader holds, read or not.
    pub closed spec fn bytes(self) -> Seq<u8> {
        self.bytes@
    }

    /// The index of the first byte that has not been read.
    pub closed spec fn position(self) -> int {
        if self.position <= self.bytes@.len() {
            self.position as int
        } else {
            self.bytes@.len() as int
        }
    }

    /// A reader at the start of `bytes`.
    pub fn new(bytes: Vec<u8>) -> (r: Reader)
        ensures
            r.bytes() == bytes@,
            r.position() == 0,
    {
        Reader { bytes, position: 0 }
    }

    /// Takes in bytes that came after those the reader holds.
    pub fn feed(&mut self, more: &[u8])
        ensures
            final(self).bytes() == old(self).bytes() + more@,
            final(self).position() == old(self).position(),
    {
        self.position = self.consumed();
        crate::storage::encode::push_bytes(&mut self.bytes, more);
    }

    /// How many bytes have been read.
    pub fn consumed(&self) -> (n: usize)
        ensures
            n == self.position(),
            n <= self.bytes().len(),
    {
        if self.position <= self.bytes.len() {
            self.position
        } else {
            self.bytes.len()
        }
    }

    /// How many bytes have not been read.
    pub fn remaining(&self) -> (n: usize)
        ensures
            n == self.bytes().len() - self.position(),
    {
        self.bytes.len() - self.consumed()
    }

    /// Forgets the bytes that have been read.
    pub fn compact(&mut self)
        ensures
            final(self).bytes() == old(self).bytes().subrange(
                old(self).position(),
                old(self).bytes().len() as int,
            ),
            final(self).position() == 0,
    {
        let start = self.consumed();
        let mut rest: Vec<u8> = Vec::new();
        crate::storage::encode::push_bytes(
            &mut rest,
            vstd::slice::slice_subrange(self.bytes.as_slice(), start, self.bytes.len()),
        );
        assert(rest@ =~= self.bytes@.subrange(start as int, self.bytes@.len() as int));
        self.bytes = rest;
        self.position = 0;
    }
}

impl Value {
    /// Reads one value off `reader`.
    ///
    /// On a value the reader moves past its frame. Where the bytes end before
    /// the frame does, there is no value, and where they are no frame of the
    /// protocol, there is an error: in both cases the reader stays where it
    /// was.
    pub fn from_resp(reader: &mut Reader) -> (r: Result<Option<Value>, Error>)
        ensures
            final(reader).bytes() == old(reader).bytes(),
            match frame(old(reader).bytes(), old(reader).position(), MAX_DEPTH as nat) {
                Parse::Frame(d, end) => {
                    &&& r matches Ok(Some(v)) && v@ == d && v@.wf()
                    &&& final(reader).position() == end
                },
                Parse::NoValue => {
                    &&& r matches Ok(None)
                    &&& final(reader).position() == old(reader).position()
                },
                Parse::Fatal(m) => {
                    &&& r matches Err(Error::Protocol(e)) && e == m
                    &&& final(reader).position() == old(reader).position()
                },
            },
    {
        let start = reader.consumed();
        match read_frame(reader.bytes.as_slice(), start, MAX_DEPTH) {
            Err(e) => Err(e),
            Ok(None) => Ok(None),
            Ok(Some((value, end))) => {
                reader.position = end;
                Ok(Some(value))
            },
        }
    }
}

} // verus!
