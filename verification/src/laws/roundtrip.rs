//! What is written is read back: the values that return unchanged from each
//! of the two syntaxes.

use crate::storage::decode::{
    body_of, collect, frame, items, pair_up, prepend, Parse, ParseItems, MAX_DEPTH,
};
use crate::storage::encode::{
    bulk, line, nil_line, resp, resp2, resp2_items, resp3, resp3_items, resp3_pairs, ARRAY, BULK,
    INTEGER, MAP, SET, SIMPLE,
};
use crate::storage::hash::{key_index, lemma_key_index, lemma_member_index, member_index};
use crate::storage::value::{Data, Value};
use crate::text::{
    decimal, is_blank, lemma_parse_decimal, line_end, parse_count, parse_int, trim, trim_end, CR,
    LF,
};
use vstd::prelude::*;
use vstd::utf8::{encode_utf8, encode_utf8_decode_utf8, encode_utf8_valid_utf8};

verus! {

/// A text short enough for its length to be read back.
pub open spec fn fits(text: Seq<char>) -> bool {
    encode_utf8(text).len() <= i64::MAX
}

/// The values that are read back from the older syntax as they were written,
/// where aggregates may nest `fuel` deep: `OK`, `PONG`, `Nil`, integers,
/// bulk strings, and arrays of such values.
pub open spec fn returns2(v: Data, fuel: nat) -> bool
    decreases v,
{
    match v {
        Data::Okay | Data::Pong | Data::Nil | Data::Integer(_) => true,
        Data::String(s) => fits(s),
        Data::Multi(all) => fuel > 0 && all.len() <= i64::MAX && returns2_items(
            all,
            (fuel - 1) as nat,
        ),
        _ => false,
    }
}

/// Every value of the sequence is read back from the older syntax.
pub open spec fn returns2_items(all: Seq<Data>, fuel: nat) -> bool
    decreases all,
{
    forall|i: int| 0 <= i < all.len() ==> returns2(#[trigger] all[i], fuel)
}

/// The scalars that are read back from the newer syntax as they were
/// written.
pub open spec fn returns_scalar(v: Data) -> bool {
    match v {
        Data::Okay | Data::Pong | Data::Integer(_) => true,
        Data::String(s) => fits(s),
        _ => false,
    }
}

/// The values that are read back from the newer syntax as they were written,
/// where aggregates may nest `fuel` deep: `OK`, `PONG`, integers, bulk
/// strings, the arrays that the older syntax gives back, and hashes and sets
/// of such values in which no key and no member occurs twice.
pub open spec fn returns3(v: Data, fuel: nat) -> bool
    decreases v,
{
    match v {
        Data::Multi(_) => returns2(v, fuel),
        Data::Hashmap(pairs) => fuel > 0 && pairs.len() <= i64::MAX && returns3_pairs(
            pairs,
            (fuel - 1) as nat,
        ),
        Data::Hashset(all) => fuel > 0 && all.len() <= i64::MAX && returns_members(all),
        _ => returns_scalar(v),
    }
}

/// The entries of a hash that is read back from the newer syntax.
pub open spec fn returns3_pairs(pairs: Seq<(Data, Data)>, fuel: nat) -> bool
    decreases pairs,
{
    &&& forall|i: int|
        0 <= i < pairs.len() ==> returns_scalar((#[trigger] pairs[i]).0) && returns3(
            pairs[i].1,
            fuel,
        )
    &&& forall|i: int, j: int|
        0 <= i < j < pairs.len() ==> (#[trigger] pairs[i]).0 != (#[trigger] pairs[j]).0
}

/// The members of a set that is read back from the newer syntax.
pub open spec fn returns_members(all: Seq<Data>) -> bool {
    &&& forall|i: int| 0 <= i < all.len() ==> returns_scalar(#[trigger] all[i])
    &&& forall|i: int, j: int| 0 <= i < j < all.len() ==> #[trigger] all[i] != #[trigger] all[j]
}

/// Whether `enc` stands in `s` from `pos` on.
pub open spec fn holds(s: Seq<u8>, pos: int, enc: Seq<u8>) -> bool {
    0 <= pos && pos + enc.len() <= s.len() && s.subrange(pos, pos + enc.len()) == enc
}

/// Where one text stands and is followed by another, each of the two stands.
proof fn lemma_holds_split(s: Seq<u8>, pos: int, a: Seq<u8>, b: Seq<u8>)
    requires
        holds(s, pos, a + b),
    ensures
        holds(s, pos, a),
        holds(s, pos + a.len(), b),
{
    let whole = s.subrange(pos, pos + (a + b).len());
    assert(s.subrange(pos, pos + a.len()) =~= whole.subrange(0, a.len() as int));
    assert(whole.subrange(0, a.len() as int) =~= a);
    assert(s.subrange(pos + a.len(), pos + a.len() + b.len()) =~= whole.subrange(
        a.len() as int,
        (a + b).len() as int,
    ));
    assert(whole.subrange(a.len() as int, (a + b).len() as int) =~= b);
}

/// A line's end is not before the first `LF`.
proof fn lemma_line_end_skip(s: Seq<u8>, pos: int, k: int)
    requires
        0 <= pos <= k <= s.len(),
        forall|j: int| pos <= j < k ==> s[j] != LF,
    ensures
        line_end(s, pos) == line_end(s, k),
    decreases k - pos,
{
    if pos < k {
        lemma_line_end_skip(s, pos + 1, k);
    }
}

/// Blanks are trimmed off a text that neither starts nor ends with one up to
/// the `CR` that follows it.
proof fn lemma_trim_body(body: Seq<u8>)
    requires
        body.len() >= 1,
        !is_blank(body[0]),
        !is_blank(body.last()),
    ensures
        trim(body.push(CR)) == body,
{
    assert(body.push(CR).drop_last() =~= body);
    assert(trim_end(body.push(CR)) == trim_end(body));
}

/// How the first line of a frame is read where it stands as it was written.
proof fn lemma_header(s: Seq<u8>, pos: int, tag: u8, body: Seq<u8>)
    requires
        holds(s, pos, line(tag, body)),
        tag != LF,
        forall|j: int| 0 <= j < body.len() ==> #[trigger] body[j] != LF,
    ensures
        line_end(s, pos) == pos + body.len() + 2,
        line_end(s, pos) < s.len(),
        s[pos] == tag,
        s.subrange(pos, pos + body.len() + 3) == line(tag, body),
        body.len() >= 1 && !is_blank(body[0]) && !is_blank(body.last()) ==> body_of(
            s,
            pos,
            pos + body.len() + 2,
        ) == body,
{
    let h = line(tag, body);
    let lf = pos + body.len() + 2;
    assert(h.len() == body.len() + 3);
    assert forall|j: int| pos <= j < pos + h.len() implies s[j] == h[j - pos] by {
        assert(s.subrange(pos, pos + h.len())[j - pos] == s[j]);
    }
    assert(h[0] == tag);
    assert(h[body.len() as int + 1] == CR);
    assert(h[body.len() as int + 2] == LF);
    assert forall|j: int| pos <= j < lf implies s[j] != LF by {
        if j > pos && j < lf - 1 {
            assert(h[j - pos] == body[j - pos - 1]);
        }
    }
    lemma_line_end_skip(s, pos, lf);
    assert(s.subrange(pos + 1, lf) =~= body.push(CR)) by {
        assert forall|j: int| 0 <= j < body.len() + 1 implies s.subrange(pos + 1, lf)[j]
            == body.push(CR)[j] by {
            if j < body.len() {
                assert(h[j + 1] == body[j]);
            }
        }
    }
    if body.len() >= 1 && !is_blank(body[0]) && !is_blank(body.last()) {
        lemma_trim_body(body);
    }
}

/// The line that announces a count is read back as that count.
proof fn lemma_count_header(s: Seq<u8>, pos: int, tag: u8, n: int)
    requires
        0 <= n <= i64::MAX,
        tag != LF,
        holds(s, pos, line(tag, decimal(n))),
    ensures
        line_end(s, pos) == pos + decimal(n).len() + 2,
        line_end(s, pos) < s.len(),
        s[pos] == tag,
        parse_count(body_of(s, pos, line_end(s, pos))) == Some(n),
        parse_int(body_of(s, pos, line_end(s, pos))) == Some(n),
        s.subrange(pos, pos + decimal(n).len() + 3) == line(tag, decimal(n)),
{
    lemma_parse_decimal(n);
    let d = decimal(n);
    assert forall|j: int| 0 <= j < d.len() implies #[trigger] d[j] != LF by {
        assert(!is_blank(d[j]));
    }
    assert(!is_blank(d[0]));
    assert(!is_blank(d.last()));
    lemma_header(s, pos, tag, d);
}

/// A scalar, or `Nil`, that stands in the older syntax is read back.
proof fn lemma_scalar2(s: Seq<u8>, pos: int, v: Data, now: u64, fuel: nat)
    requires
        returns2(v, fuel),
        !(v is Multi),
        holds(s, pos, resp2(v, now)),
    ensures
        frame(s, pos, fuel) == Parse::Frame(v, pos + resp2(v, now).len()),
{
    match v {
        Data::Okay => {
            let body = seq![79u8, 75u8];
            lemma_header(s, pos, SIMPLE, body);
            assert(resp2(v, now).len() == 5);
        },
        Data::Pong => {
            let body = seq![80u8, 79u8, 78u8, 71u8];
            lemma_header(s, pos, SIMPLE, body);
            assert(resp2(v, now).len() == 7);
        },
        Data::Nil => {
            let body = seq![45u8, 49u8];
            lemma_header(s, pos, BULK, body);
            assert(resp2(v, now).len() == 5);
        },
        Data::Integer(i) => {
            lemma_parse_decimal(i as int);
            let d = decimal(i as int);
            assert forall|j: int| 0 <= j < d.len() implies #[trigger] d[j] != LF by {
                assert(!is_blank(d[j]));
            }
            assert(!is_blank(d[0]));
            assert(!is_blank(d.last()));
            lemma_header(s, pos, INTEGER, d);
        },
        Data::String(t) => {
            let bytes = encode_utf8(t);
            let n = bytes.len() as int;
            let head = line(BULK, decimal(n));
            assert(bulk(t) =~= head + (bytes + seq![CR, LF]));
            lemma_holds_split(s, pos, head, bytes + seq![CR, LF]);
            lemma_holds_split(s, pos + head.len(), bytes, seq![CR, LF]);
            lemma_count_header(s, pos, BULK, n);
            lemma_parse_decimal(n);
            let lf = line_end(s, pos);
            assert(s.subrange(pos, lf + 1) != nil_line()) by {
                assert(s.subrange(pos, lf + 1)[1] == decimal(n)[0]);
                assert(nil_line()[1] == 45);
                crate::text::lemma_digits(n as nat);
                assert(crate::text::is_digit(decimal(n)[0]));
            }
            encode_utf8_valid_utf8(t);
            encode_utf8_decode_utf8(t);
            assert(s.subrange(lf + 1, lf + 1 + n) == bytes);
        },
        _ => {},
    }
}

/// A value that stands in the older syntax is read back.
pub proof fn lemma_frame2(s: Seq<u8>, pos: int, v: Data, now: u64, fuel: nat)
    requires
        returns2(v, fuel),
        holds(s, pos, resp2(v, now)),
    ensures
        frame(s, pos, fuel) == Parse::Frame(v, pos + resp2(v, now).len()),
    decreases v, 0nat,
{
    match v {
        Data::Multi(all) => {
            let n = all.len() as int;
            let head = line(ARRAY, decimal(n));
            let tail = resp2_items(all, 0, now);
            lemma_holds_split(s, pos, head, tail);
            lemma_count_header(s, pos, ARRAY, n);
            lemma_items2(s, pos + head.len(), all, 0, now, (fuel - 1) as nat);
            assert(all.skip(0) =~= all);
        },
        _ => {
            lemma_scalar2(s, pos, v, now, fuel);
        },
    }
}

/// The values from index `k` on that stand in the older syntax are read
/// back.
pub proof fn lemma_items2(s: Seq<u8>, pos: int, all: Seq<Data>, k: int, now: u64, fuel: nat)
    requires
        0 <= k <= all.len(),
        returns2_items(all, fuel),
        holds(s, pos, resp2_items(all, k, now)),
    ensures
        items(s, pos, all.len() - k, fuel) == ParseItems::Items(
            all.skip(k),
            pos + resp2_items(all, k, now).len(),
        ),
    decreases all, all.len() - k,
{
    if k == all.len() {
        assert(all.skip(k) =~= Seq::<Data>::empty());
    } else {
        let first = resp2(all[k], now);
        let later = resp2_items(all, k + 1, now);
        lemma_holds_split(s, pos, first, later);
        lemma_frame2(s, pos, all[k], now, fuel);
        lemma_items2(s, pos + first.len(), all, k + 1, now, fuel);
        assert(seq![all[k]] + all.skip(k + 1) =~= all.skip(k));
    }
}

/// What is read back from the older syntax is read back from the newer one,
/// where it is no `Nil`.
proof fn lemma_resp3_is_resp2(v: Data, now: u64)
    requires
        !(v is Nil || v is Hashmap || v is Hashset),
    ensures
        resp3(v, now) == resp2(v, now),
{
}

/// The members from index `k` on that stand in the newer syntax are read
/// back.
proof fn lemma_members3(s: Seq<u8>, pos: int, all: Seq<Data>, k: int, now: u64, fuel: nat)
    requires
        0 <= k <= all.len(),
        returns_members(all),
        holds(s, pos, resp3_items(all, k, now)),
    ensures
        items(s, pos, all.len() - k, fuel) == ParseItems::Items(
            all.skip(k),
            pos + resp3_items(all, k, now).len(),
        ),
    decreases all.len() - k,
{
    if k == all.len() {
        assert(all.skip(k) =~= Seq::<Data>::empty());
    } else {
        let first = resp3(all[k], now);
        let later = resp3_items(all, k + 1, now);
        lemma_holds_split(s, pos, first, later);
        assert(returns_scalar(all[k]));
        lemma_resp3_is_resp2(all[k], now);
        lemma_scalar2(s, pos, all[k], now, fuel);
        lemma_members3(s, pos + first.len(), all, k + 1, now, fuel);
        assert(seq![all[k]] + all.skip(k + 1) =~= all.skip(k));
    }
}

/// The keys and values of a hash in turn.
pub open spec fn flatten(pairs: Seq<(Data, Data)>) -> Seq<Data> {
    Seq::new(
        2 * pairs.len(),
        |i: int|
            if i % 2 == 0 {
                pairs[i / 2].0
            } else {
                pairs[i / 2].1
            },
    )
}

/// A value that stands in the newer syntax is read back.
pub proof fn lemma_frame3(s: Seq<u8>, pos: int, v: Data, now: u64, fuel: nat)
    requires
        returns3(v, fuel),
        holds(s, pos, resp3(v, now)),
    ensures
        frame(s, pos, fuel) == Parse::Frame(v, pos + resp3(v, now).len()),
    decreases v, 0nat,
{
    match v {
        Data::Hashmap(pairs) => {
            let n = pairs.len() as int;
            let head = line(MAP, decimal(n));
            let tail = resp3_pairs(pairs, 0, now);
            lemma_holds_split(s, pos, head, tail);
            lemma_count_header(s, pos, MAP, n);
            lemma_pairs3(s, pos + head.len(), pairs, 0, now, (fuel - 1) as nat);
            assert(flatten(pairs).skip(0) =~= flatten(pairs));
            lemma_pair_up(pairs, pairs.len());
            assert(pairs.take(n) =~= pairs);
            assert(flatten(pairs).len() / 2 == n);
        },
        Data::Hashset(all) => {
            let n = all.len() as int;
            let head = line(SET, decimal(n));
            let tail = resp3_items(all, 0, now);
            lemma_holds_split(s, pos, head, tail);
            lemma_count_header(s, pos, SET, n);
            lemma_members3(s, pos + head.len(), all, 0, now, (fuel - 1) as nat);
            assert(all.skip(0) =~= all);
            lemma_collect(all, all.len());
            assert(all.take(n) =~= all);
        },
        Data::Multi(_) => {
            lemma_frame2(s, pos, v, now, fuel);
        },
        _ => {
            lemma_resp3_is_resp2(v, now);
            lemma_scalar2(s, pos, v, now, fuel);
        },
    }
}

/// The entries from index `k` on that stand in the newer syntax are read
/// back, each as its key and then its value.
pub proof fn lemma_pairs3(
    s: Seq<u8>,
    pos: int,
    pairs: Seq<(Data, Data)>,
    k: int,
    now: u64,
    fuel: nat,
)
    requires
        0 <= k <= pairs.len(),
        returns3_pairs(pairs, fuel),
        holds(s, pos, resp3_pairs(pairs, k, now)),
    ensures
        items(s, pos, 2 * (pairs.len() - k), fuel) == ParseItems::Items(
            flatten(pairs).skip(2 * k),
            pos + resp3_pairs(pairs, k, now).len(),
        ),
    decreases pairs, pairs.len() - k,
{
    if k == pairs.len() {
        assert(flatten(pairs).skip(2 * k) =~= Seq::<Data>::empty());
    } else {
        let e = pairs[k];
        let first = resp3(e.0, now);
        let second = resp3(e.1, now);
        let later = resp3_pairs(pairs, k + 1, now);
        assert(resp3_pairs(pairs, k, now) =~= first + (second + later));
        lemma_holds_split(s, pos, first, second + later);
        lemma_holds_split(s, pos + first.len(), second, later);
        assert(returns_scalar(e.0));
        lemma_resp3_is_resp2(e.0, now);
        lemma_scalar2(s, pos, e.0, now, fuel);
        lemma_frame3(s, pos + first.len(), e.1, now, fuel);
        lemma_pairs3(s, pos + first.len() + second.len(), pairs, k + 1, now, fuel);
        let n = 2 * (pairs.len() - k);
        let mid = items(s, pos + first.len(), n - 1, fuel);
        let last = items(s, pos + first.len() + second.len(), n - 2, fuel);
        assert(mid == prepend(seq![e.1], last));
        assert(items(s, pos, n, fuel) == prepend(seq![e.0], mid));
        assert(seq![e.0] + (seq![e.1] + flatten(pairs).skip(2 * (k + 1))) =~= flatten(pairs).skip(
            2 * k,
        ));
    }
}

/// Keys and values in turn, of which no key occurs twice, make the hash
/// that they came from.
proof fn lemma_pair_up(pairs: Seq<(Data, Data)>, k: nat)
    requires
        k <= pairs.len(),
        forall|i: int| 0 <= i < pairs.len() ==> (#[trigger] pairs[i]).0.is_scalar(),
        forall|i: int, j: int|
            0 <= i < j < pairs.len() ==> (#[trigger] pairs[i]).0 != (#[trigger] pairs[j]).0,
    ensures
        pair_up(flatten(pairs), k) == Some(pairs.take(k as int)),
    decreases k,
{
    if k == 0 {
        assert(pairs.take(0) =~= Seq::<(Data, Data)>::empty());
    } else {
        lemma_pair_up(pairs, (k - 1) as nat);
        let acc = pairs.take(k - 1);
        let e = pairs[k - 1];
        assert(flatten(pairs)[2 * k - 2] == e.0);
        assert(flatten(pairs)[2 * k - 1] == e.1);
        lemma_key_index(acc, e.0, 0);
        let i = key_index(acc, e.0, 0);
        if i < acc.len() {
            assert(acc[i] == pairs[i]);
            assert(pairs[i].0 != pairs[k - 1].0);
        }
        assert(acc.push((e.0, e.1)) =~= pairs.take(k as int));
    }
}

/// Members of which none occurs twice make the set that they came from.
proof fn lemma_collect(all: Seq<Data>, k: nat)
    requires
        k <= all.len(),
        forall|i: int| 0 <= i < all.len() ==> (#[trigger] all[i]).is_scalar(),
        forall|i: int, j: int| 0 <= i < j < all.len() ==> #[trigger] all[i] != #[trigger] all[j],
    ensures
        collect(all, k) == Some(all.take(k as int)),
    decreases k,
{
    if k == 0 {
        assert(all.take(0) =~= Seq::<Data>::empty());
    } else {
        lemma_collect(all, (k - 1) as nat);
        let acc = all.take(k - 1);
        let e = all[k - 1];
        lemma_member_index(acc, e, 0);
        let i = member_index(acc, e, 0);
        if i < acc.len() {
            assert(acc[i] == all[i]);
            assert(all[i] != all[k - 1]);
        }
        assert(acc.push(e) =~= all.take(k as int));
    }
}

/// The law of the round trip: a value that `returns2` or `returns3` admits
/// for the version in which it is written is read back from what was
/// written, whatever follows it, as the value that it was, and the reader
/// stops where the frame ends.
pub proof fn round_trip(v: Value, version: int, now: u64, rest: Seq<u8>)
    requires
        version == 2 || version == 3,
        version == 2 ==> returns2(v@, MAX_DEPTH as nat),
        version == 3 ==> returns3(v@, MAX_DEPTH as nat),
    ensures
        frame(resp(v@, version, now) + rest, 0, MAX_DEPTH as nat) == Parse::Frame(
            v@,
            resp(v@, version, now).len() as int,
        ),
{
    let enc = resp(v@, version, now);
    let s = enc + rest;
    assert(s.subrange(0, enc.len() as int) =~= enc);
    if version == 2 {
        lemma_frame2(s, 0, v@, now, MAX_DEPTH as nat);
    } else {
        lemma_frame3(s, 0, v@, now, MAX_DEPTH as nat);
    }
}

} // verus!
