//! Bytes and text: decimal numbers, surrounding blanks, lines, letter case
//! and UTF-8.

use vstd::prelude::*;
use vstd::utf8::*;

verus! {

/// The byte that ends a line.
pub const LF: u8 = 10;

/// The byte that precedes `LF` at the end of every line this server writes.
pub const CR: u8 = 13;

/// The digits `0` to `9`.
pub open spec fn is_digit(b: u8) -> bool {
    48 <= b <= 57
}

/// Space, tab, line feed, vertical tab, form feed and carriage return.
pub open spec fn is_blank(b: u8) -> bool {
    b == 32 || 9 <= b <= 13
}

/// The decimal digits of `n`, most significant first, without leading zeros.
pub open spec fn digits(n: nat) -> Seq<u8>
    decreases n,
{
    if n < 10 {
        seq![(48 + n) as u8]
    } else {
        digits(n / 10).push((48 + n % 10) as u8)
    }
}

/// The decimal text of `i`: a minus sign for a negative number, then its digits.
pub open spec fn decimal(i: int) -> Seq<u8> {
    if i < 0 {
        seq![45u8] + digits((-i) as nat)
    } else {
        digits(i as nat)
    }
}

/// Every byte of `s` is a digit.
pub open spec fn all_digits(s: Seq<u8>) -> bool {
    forall|i: int| 0 <= i < s.len() ==> is_digit(#[trigger] s[i])
}

/// The number that a string of digits stands for.
pub open spec fn number(s: Seq<u8>) -> nat
    decreases s.len(),
{
    if s.len() == 0 {
        0
    } else {
        number(s.drop_last()) * 10 + (s.last() - 48) as nat
    }
}

/// The integer that `s` spells: an optional `+` or `-`, then at least one
/// digit and nothing else, if the number fits in 64 signed bits.
pub open spec fn parse_int(s: Seq<u8>) -> Option<int> {
    let signed = s.len() > 0 && (s[0] == 45 || s[0] == 43);
    let body = if signed { s.subrange(1, s.len() as int) } else { s };
    if body.len() == 0 || !all_digits(body) {
        None
    } else {
        let v = if s[0] == 45 { -(number(body) as int) } else { number(body) as int };
        if i64::MIN <= v <= i64::MAX {
            Some(v)
        } else {
            None
        }
    }
}

/// The count that `s` spells: as `parse_int`, but no minus sign is taken.
pub open spec fn parse_count(s: Seq<u8>) -> Option<int> {
    if s.len() > 0 && s[0] == 45 {
        None
    } else {
        parse_int(s)
    }
}

/// `s` without the blanks at its end.
pub open spec fn trim_end(s: Seq<u8>) -> Seq<u8>
    decreases s.len(),
{
    if s.len() > 0 && is_blank(s.last()) {
        trim_end(s.drop_last())
    } else {
        s
    }
}

/// `s` without the blanks at its start.
pub open spec fn trim_start(s: Seq<u8>) -> Seq<u8>
    decreases s.len(),
{
    if s.len() > 0 && is_blank(s[0]) {
        trim_start(s.drop_first())
    } else {
        s
    }
}

/// `s` without the blanks at either end.
pub open spec fn trim(s: Seq<u8>) -> Seq<u8> {
    trim_start(trim_end(s))
}

/// The index of the first `LF` at or after `pos`, or the length of `s` where
/// there is none.
pub open spec fn line_end(s: Seq<u8>, pos: int) -> int
    decreases s.len() - pos,
{
    if pos < 0 || pos >= s.len() {
        s.len() as int
    } else if s[pos] == LF {
        pos
    } else {
        line_end(s, pos + 1)
    }
}

/// A letter `a` to `z` becomes `A` to `Z`; every other character stays.
pub open spec fn upper_char(c: char) -> char {
    if 97 <= c as u32 <= 122 {
        ((c as u32 - 32) as u8) as char
    } else {
        c
    }
}

/// `s` with each of its characters in upper case, as `upper_char` has it.
pub open spec fn ascii_upper(s: Seq<char>) -> Seq<char> {
    Seq::new(s.len(), |i: int| upper_char(s[i]))
}

/// Calls `str::to_ascii_uppercase`, which copies the text and replaces the
/// ASCII letters `a` to `z` by `A` to `Z`, leaving all other characters as
/// they are.
#[verifier::external_body]
pub(crate) fn to_upper(s: &str) -> (r: String)
    ensures
        r@ == ascii_upper(s@),
{
    s.to_ascii_uppercase()
}

/// Calls `String::from_utf8`, which takes the bytes as text where they are
/// valid UTF-8 and fails where they are not.
#[verifier::external_body]
pub(crate) fn text_of(bytes: Vec<u8>) -> (r: Option<String>)
    ensures
        match r {
            Some(s) => valid_utf8(bytes@) && s@ == decode_utf8(bytes@),
            None => !valid_utf8(bytes@),
        },
{
    match String::from_utf8(bytes) {
        Ok(s) => Some(s),
        Err(_) => None,
    }
}

/// Two texts with the same UTF-8 bytes are the same text.
pub proof fn lemma_bytes_fix_text(a: Seq<char>, b: Seq<char>)
    requires
        encode_utf8(a) == encode_utf8(b),
    ensures
        a == b,
{
    encode_utf8_decode_utf8(a);
    encode_utf8_decode_utf8(b);
}

/// Whether two texts are equal, character for character.
pub fn same_text(a: &str, b: &str) -> (r: bool)
    ensures
        r == (a@ == b@),
{
    let x = a.as_bytes();
    let y = b.as_bytes();
    if x.len() != y.len() {
        return false;
    }
    let mut i: usize = 0;
    while i < x.len()
        invariant
            i <= x@.len(),
            x@.len() == y@.len(),
            x@ == encode_utf8(a@),
            y@ == encode_utf8(b@),
            forall|j: int| 0 <= j < i ==> x@[j] == y@[j],
        decreases x@.len() - i,
    {
        if x[i] != y[i] {
            return false;
        }
        i += 1;
    }
    proof {
        assert(x@ =~= y@);
        lemma_bytes_fix_text(a@, b@);
    }
    true
}

/// A text of the library's own, taken from a literal.
pub fn owned(s: &str) -> (r: String)
    ensures
        r@ == s@,
{
    s.to_owned()
}

/// Appends the digits of `n` to `out`.
pub fn push_digits(out: &mut Vec<u8>, n: u128)
    ensures
        final(out)@ == old(out)@ + digits(n as nat),
    decreases n,
{
    if n >= 10 {
        push_digits(out, n / 10);
        out.push(48 + (n % 10) as u8);
        assert(final(out)@ =~= old(out)@ + digits(n as nat));
    } else {
        out.push(48 + n as u8);
        assert(final(out)@ =~= old(out)@ + digits(n as nat));
    }
}

/// Appends the decimal text of `i` to `out`.
pub fn push_decimal(out: &mut Vec<u8>, i: i64)
    ensures
        final(out)@ == old(out)@ + decimal(i as int),
{
    if i < 0 {
        out.push(45);
        let magnitude: u128 = (-(i + 1)) as u128 + 1;
        push_digits(out, magnitude);
        assert(final(out)@ =~= old(out)@ + decimal(i as int));
    } else {
        push_digits(out, i as u128);
    }
}

/// Appends the decimal text of the count `n` to `out`.
pub fn push_count(out: &mut Vec<u8>, n: u128)
    ensures
        final(out)@ == old(out)@ + decimal(n as int),
{
    push_digits(out, n);
}

/// A longer string of digits stands for a number at least as large as any of
/// its prefixes does.
pub proof fn lemma_number_grows(s: Seq<u8>, k: int)
    requires
        0 <= k <= s.len(),
    ensures
        number(s.take(k)) <= number(s),
    decreases s.len() - k,
{
    if k < s.len() {
        lemma_number_grows(s, k + 1);
        assert(s.take(k + 1).drop_last() =~= s.take(k));
        assert(number(s.take(k + 1)) >= number(s.take(k)) * 10) by {
            assert(number(s.take(k + 1)) == number(s.take(k)) * 10 + (s.take(k + 1).last() - 48) as nat);
        }
    } else {
        assert(s.take(k) =~= s);
    }
}

/// Reads the integer that the bytes from `start` up to `end` spell.
#[verifier::loop_isolation(false)]
pub fn read_int(bytes: &[u8], start: usize, end: usize) -> (r: Option<i64>)
    requires
        start <= end <= bytes@.len(),
    ensures
        match r {
            Some(v) => parse_int(bytes@.subrange(start as int, end as int)) == Some(v as int),
            None => parse_int(bytes@.subrange(start as int, end as int)) is None,
        },
{
    let ghost s = bytes@.subrange(start as int, end as int);
    if start == end {
        return None;
    }
    let negative = bytes[start] == 45;
    let signed = negative || bytes[start] == 43;
    let first: usize = if signed { start + 1 } else { start };
    let ghost body = if signed { s.subrange(1, s.len() as int) } else { s };
    assert(body =~= bytes@.subrange(first as int, end as int));
    if first == end {
        return None;
    }
    let limit: u64 = 0x8000_0000_0000_0000;
    let mut acc: u64 = 0;
    let mut i: usize = first;
    while i < end
        invariant
            first <= i <= end <= bytes@.len(),
            body == bytes@.subrange(first as int, end as int),
            all_digits(body.take(i - first)),
            acc == number(body.take(i - first)),
            acc <= limit,
            limit == 0x8000_0000_0000_0000,
        decreases end - i,
    {
        let b = bytes[i];
        assert(b == body[i - first]);
        if b < 48 || b > 57 {
            assert(!all_digits(body));
            return None;
        }
        let d: u64 = (b - 48) as u64;
        proof {
            assert(body.take(i - first + 1).drop_last() =~= body.take(i - first));
            assert(body.take(i - first + 1).last() == b);
            assert(number(body.take(i - first + 1)) == acc * 10 + d);
            assert forall|j: int| 0 <= j < i - first + 1 implies is_digit(
                #[trigger] body.take(i - first + 1)[j],
            ) by {
                if j < i - first {
                    assert(body.take(i - first + 1)[j] == body.take(i - first)[j]);
                }
            }
        }
        if acc > (limit - d) / 10 {
            proof {
                lemma_number_grows(body, i - first + 1);
                assert(number(body) > limit);
            }
            return None;
        }
        acc = acc * 10 + d;
        i += 1;
    }
    proof {
        assert(body.take(end - first) =~= body);
    }
    if negative {
        if acc == limit {
            Some(i64::MIN)
        } else {
            Some(-(acc as i64))
        }
    } else if acc == limit {
        None
    } else {
        Some(acc as i64)
    }
}

/// Reads the count that the bytes from `start` up to `end` spell.
pub fn read_count(bytes: &[u8], start: usize, end: usize) -> (r: Option<i64>)
    requires
        start <= end <= bytes@.len(),
    ensures
        match r {
            Some(v) => parse_count(bytes@.subrange(start as int, end as int)) == Some(v as int),
            None => parse_count(bytes@.subrange(start as int, end as int)) is None,
        },
{
    if start < end && bytes[start] == 45 {
        None
    } else {
        read_int(bytes, start, end)
    }
}

/// The integer that a text spells, as `parse_int` reads its UTF-8 bytes.
pub fn int_of_text(s: &str) -> (r: Option<i64>)
    ensures
        match r {
            Some(v) => parse_int(encode_utf8(s@)) == Some(v as int),
            None => parse_int(encode_utf8(s@)) is None,
        },
{
    let bytes = s.as_bytes();
    assert(bytes@.subrange(0, bytes@.len() as int) =~= bytes@);
    read_int(bytes, 0, bytes.len())
}

/// Finds the blanks at either end of the bytes from `start` up to `end`:
/// what lies between the two indices returned is the trimmed text.
pub fn trim_range(bytes: &[u8], start: usize, end: usize) -> (r: (usize, usize))
    requires
        start <= end <= bytes@.len(),
    ensures
        start <= r.0 <= r.1 <= end,
        bytes@.subrange(r.0 as int, r.1 as int) == trim(bytes@.subrange(start as int, end as int)),
{
    let mut hi: usize = end;
    while hi > start && is_blank_byte(bytes[hi - 1])
        invariant
            start <= hi <= end <= bytes@.len(),
            trim_end(bytes@.subrange(start as int, end as int)) == trim_end(
                bytes@.subrange(start as int, hi as int),
            ),
        decreases hi,
    {
        proof {
            let cur = bytes@.subrange(start as int, hi as int);
            assert(cur.last() == bytes@[hi - 1]);
            assert(cur.drop_last() =~= bytes@.subrange(start as int, hi - 1));
        }
        hi -= 1;
    }
    proof {
        let cur = bytes@.subrange(start as int, hi as int);
        if hi > start {
            assert(cur.last() == bytes@[hi - 1]);
        }
        assert(trim_end(cur) == cur);
    }
    let mut lo: usize = start;
    while lo < hi && is_blank_byte(bytes[lo])
        invariant
            start <= lo <= hi <= end <= bytes@.len(),
            trim_start(bytes@.subrange(start as int, hi as int)) == trim_start(
                bytes@.subrange(lo as int, hi as int),
            ),
        decreases hi - lo,
    {
        proof {
            let cur = bytes@.subrange(lo as int, hi as int);
            assert(cur[0] == bytes@[lo as int]);
            assert(cur.drop_first() =~= bytes@.subrange(lo + 1, hi as int));
        }
        lo += 1;
    }
    proof {
        let cur = bytes@.subrange(lo as int, hi as int);
        if lo < hi {
            assert(cur[0] == bytes@[lo as int]);
        }
        assert(trim_start(cur) == cur);
    }
    (lo, hi)
}

/// Whether `b` is a blank.
pub fn is_blank_byte(b: u8) -> (r: bool)
    ensures
        r == is_blank(b),
{
    b == 32 || (9 <= b && b <= 13)
}

/// Finds the end of the line that starts at `pos`.
pub fn find_line_end(bytes: &[u8], pos: usize) -> (r: usize)
    requires
        pos <= bytes@.len(),
    ensures
        r == line_end(bytes@, pos as int),
        pos <= r <= bytes@.len(),
        r < bytes@.len() ==> bytes@[r as int] == LF,
{
    let mut i: usize = pos;
    while i < bytes.len() && bytes[i] != LF
        invariant
            pos <= i <= bytes@.len(),
            line_end(bytes@, pos as int) == line_end(bytes@, i as int),
        decreases bytes@.len() - i,
    {
        i += 1;
    }
    i
}

/// The digits of a number are digits, at least one of them, and stand for it.
pub proof fn lemma_digits(n: nat)
    ensures
        digits(n).len() >= 1,
        all_digits(digits(n)),
        number(digits(n)) == n,
    decreases n,
{
    if n >= 10 {
        lemma_digits(n / 10);
        let d = digits(n / 10);
        let last = (48 + n % 10) as u8;
        assert(digits(n) == d.push(last));
        assert(d.push(last).drop_last() =~= d);
        assert forall|i: int| 0 <= i < digits(n).len() implies is_digit(#[trigger] digits(n)[i]) by {
            if i < d.len() {
                assert(digits(n)[i] == d[i]);
            }
        }
    } else {
        assert(seq![(48 + n) as u8].drop_last() =~= Seq::<u8>::empty());
        assert(number(Seq::<u8>::empty()) == 0);
    }
}

/// What `decimal` writes, `parse_int` reads back.
pub proof fn lemma_parse_decimal(i: int)
    requires
        i64::MIN <= i <= i64::MAX,
    ensures
        parse_int(decimal(i)) == Some(i),
        decimal(i).len() >= 1,
        forall|k: int| 0 <= k < decimal(i).len() ==> !is_blank(#[trigger] decimal(i)[k]),
        i >= 0 ==> parse_count(decimal(i)) == Some(i),
{
    if i < 0 {
        let n = (-i) as nat;
        lemma_digits(n);
        let s = decimal(i);
        assert(s.subrange(1, s.len() as int) =~= digits(n));
        assert(s[0] == 45);
        assert forall|k: int| 0 <= k < s.len() implies !is_blank(#[trigger] s[k]) by {
            if k > 0 {
                assert(s[k] == digits(n)[k - 1]);
                assert(is_digit(digits(n)[k - 1]));
            }
        }
    } else {
        let n = i as nat;
        lemma_digits(n);
        let s = decimal(i);
        assert(is_digit(s[0]));
        assert forall|k: int| 0 <= k < s.len() implies !is_blank(#[trigger] s[k]) by {
            assert(is_digit(s[k]));
        }
    }
}

} // verus!
