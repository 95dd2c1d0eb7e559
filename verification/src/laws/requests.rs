//! What holds of the commands, one after the other.

use crate::clock::{after, Reading};
use crate::commands::expire::expire::Expire;
use crate::commands::expire::ttl::Ttl;
use crate::commands::general::del::Del;
use crate::commands::general::get::Get;
use crate::commands::general::keys::Keys;
use crate::commands::general::set::{span_of, Options, SetKey};
use crate::commands::hash::hgetall::HGetAll;
use crate::commands::hash::hset::HSet;
use crate::commands::{answer, refusal};
use crate::context::World;
use crate::storage::encode::{resp, resp2};
use crate::storage::hash::{key_index, upsert};
use crate::storage::store::{lemma_position, position, without};
use crate::storage::value::Data;
use crate::text::ascii_upper;
use vstd::prelude::*;

verus! {

/// The four words of time differ from the other options.
proof fn lemma_words()
    ensures
        "EX"@ != "NX"@ && "EX"@ != "XX"@ && "EX"@ != "GET"@ && "EX"@ != "KEEPTTL"@,
        "PX"@ != "NX"@ && "PX"@ != "XX"@ && "PX"@ != "GET"@ && "PX"@ != "KEEPTTL"@,
        "EXAT"@ != "NX"@ && "EXAT"@ != "XX"@ && "EXAT"@ != "GET"@ && "EXAT"@ != "KEEPTTL"@,
        "PXAT"@ != "NX"@ && "PXAT"@ != "XX"@ && "PXAT"@ != "GET"@ && "PXAT"@ != "KEEPTTL"@,
        "NX"@ != "XX"@ && "NX"@ != "GET"@ && "NX"@ != "KEEPTTL"@,
        "XX"@ != "GET"@ && "XX"@ != "KEEPTTL"@,
        ascii_upper("NX"@) == "NX"@,
        ascii_upper("XX"@) == "XX"@,
{
    reveal_strlit("EX");
    reveal_strlit("PX");
    reveal_strlit("EXAT");
    reveal_strlit("PXAT");
    reveal_strlit("NX");
    reveal_strlit("XX");
    reveal_strlit("GET");
    reveal_strlit("KEEPTTL");
    assert("EXAT"@.len() == 4 && "PXAT"@.len() == 4 && "GET"@.len() == 3 && "NX"@.len() == 2);
    assert("XX"@.len() == 2 && "KEEPTTL"@.len() == 7 && "EX"@.len() == 2 && "PX"@.len() == 2);
    assert("EX"@[0] != "NX"@[0] && "EX"@[0] != "XX"@[0]);
    assert("PX"@[0] != "NX"@[0] && "PX"@[0] != "XX"@[0]);
    assert("NX"@[0] != "XX"@[0]);
    assert(ascii_upper("NX"@) =~= "NX"@);
    assert(ascii_upper("XX"@) =~= "XX"@);
}

/// `SET k v` and then `GET k`: the reply to the second is `v`, whenever it
/// is asked for, and `v` without its deadline where it came with one.
pub proof fn set_then_get(
    k: Seq<char>,
    v: Data,
    pre: World,
    proto: u8,
    now: Reading,
    later: Reading,
)
    ensures
        ({
            let set = SetKey::outcome(seq![Data::String(k), v], pre, proto, now);
            let get = Get::outcome(seq![Data::String(k)], set.world, set.proto, later);
            &&& set.reply == resp2(Data::Okay, now.now)
            &&& set.world.store == pre.store.insert(k, v.plain())
            &&& get.reply == resp2(v.plain(), later.now)
            &&& get.world == set.world
        }),
{
    let args = seq![Data::String(k), v];
    assert(SetKey::options(args, 2, SetKey::plain()) == Options::Taken(SetKey::plain()));
}

/// `SET k v EX n`, and likewise with `PX`, `EXAT` and `PXAT`, where `n` is
/// nothing or less, or no number: the request is refused, and nothing
/// changes.
pub proof fn set_refuses_empty_span(
    k: Seq<char>,
    v: Data,
    word: Seq<char>,
    n: Data,
    pre: World,
    proto: u8,
    now: Reading,
)
    requires
        crate::commands::general::set::is_time_word(ascii_upper(word)),
        span_of(n) is None,
    ensures
        SetKey::outcome(seq![Data::String(k), v, Data::String(word), n], pre, proto, now)
            == refusal(pre, proto, now, "Invalid expire time"@),
        n matches Data::Integer(i) && i <= 0 ==> span_of(n) is None,
{
    lemma_words();
    let args = seq![Data::String(k), v, Data::String(word), n];
    assert(args[2] == Data::String(word));
    assert(args[3] == n);
}

/// `DEL k` where `k` holds nothing: the reply is 0, and nothing changes.
pub proof fn del_absent(k: Seq<char>, pre: World, proto: u8, now: Reading)
    requires
        pre.wf(),
        !pre.store.contains_key(k),
    ensures
        Del::outcome(seq![Data::String(k)], pre, proto, now) == answer(
            pre,
            proto,
            now,
            Data::Integer(0),
        ),
{
    let args = seq![Data::String(k)];
    assert(args[0] is String);
    lemma_position(pre.order, k, 0);
    assert(!pre.order.contains(k));
    assert(pre.del(k) =~= pre);
    assert(Del::removed(pre.del(k), args, 1) == pre.del(k));
    assert(Del::count(pre.del(k), args, 1) == 0);
}

/// `DEL k1 k2` where `k1` holds a value and `k2` none: the reply is 1, and
/// only `k1` leaves the store.
pub proof fn del_one_of_two(k1: Seq<char>, k2: Seq<char>, pre: World, proto: u8, now: Reading)
    requires
        pre.wf(),
        pre.store.contains_key(k1),
        !pre.store.contains_key(k2),
    ensures
        Del::outcome(seq![Data::String(k1), Data::String(k2)], pre, proto, now) == answer(
            pre.del(k1),
            proto,
            now,
            Data::Integer(1),
        ),
{
    let args = seq![Data::String(k1), Data::String(k2)];
    assert(args[0] is String && args[1] is String);
    let w1 = pre.del(k1);
    lemma_position(pre.order, k1, 0);
    lemma_position(w1.order, k2, 0);
    if w1.order.contains(k2) {
        let i = position(pre.order, k1, 0);
        let a = choose|a: int| 0 <= a < w1.order.len() && w1.order[a] == k2;
        let b = if a < i { a } else { a + 1 };
        assert(pre.order[b] == k2);
        assert(pre.order.contains(k2));
    }
    assert(w1.del(k2) =~= w1);
    assert(Del::removed(w1.del(k2), args, 2) == w1.del(k2));
    assert(Del::count(w1.del(k2), args, 2) == 0);
    assert(Del::removed(w1, args, 1) == w1);
    assert(Del::count(w1, args, 1) == 0);
}

/// `EXPIRE k s` on a key that holds a value, and then, when the deadline
/// has passed: `GET k` replies `Nil`, and `TTL k` replies -2.
pub proof fn expire_then_read(
    k: Seq<char>,
    seconds: i64,
    pre: World,
    proto: u8,
    now: Reading,
    later: Reading,
)
    requires
        pre.live(k, now.now),
        seconds >= 0,
        later.now > after(now.now, seconds * 1000),
    ensures
        ({
            let set = Expire::outcome(
                seq![Data::String(k), Data::Integer(seconds)],
                pre,
                proto,
                now,
            );
            &&& set.reply == resp2(Data::Okay, now.now)
            &&& Get::outcome(seq![Data::String(k)], set.world, proto, later).reply == resp2(
                Data::Nil,
                later.now,
            )
            &&& Ttl::outcome(seq![Data::String(k)], set.world, proto, later).reply == resp2(
                Data::Integer(-2i64),
                later.now,
            )
        }),
{
}

/// `TTL k`: -1 where the value under `k` has no deadline, and -2 where `k`
/// holds nothing.
pub proof fn ttl_without_deadline(k: Seq<char>, pre: World, proto: u8, now: Reading)
    ensures
        pre.store.contains_key(k) && !(pre.store[k] is Expire) ==> Ttl::outcome(
            seq![Data::String(k)],
            pre,
            proto,
            now,
        ) == answer(pre, proto, now, Data::Integer(-1i64)),
        !pre.store.contains_key(k) ==> Ttl::outcome(seq![Data::String(k)], pre, proto, now)
            == answer(pre, proto, now, Data::Integer(-2i64)),
{
}

/// `SET k v1 NX` where `k` holds nothing, and then `SET k v2 NX`: the
/// second request changes nothing, so that `v1` stays, and its reply is
/// `Nil`.
pub proof fn set_nx_twice(
    k: Seq<char>,
    v1: Data,
    v2: Data,
    pre: World,
    proto: u8,
    now: Reading,
    later: Reading,
)
    requires
        v1.wf(),
        !pre.live(k, now.now),
    ensures
        ({
            let first = SetKey::outcome(
                seq![Data::String(k), v1, Data::String("NX"@)],
                pre,
                proto,
                now,
            );
            let second = SetKey::outcome(
                seq![Data::String(k), v2, Data::String("NX"@)],
                first.world,
                proto,
                later,
            );
            &&& first.world.store == pre.store.insert(k, v1.plain())
            &&& second == answer(first.world, proto, later, Data::Nil)
        }),
{
    lemma_words();
    let a1 = seq![Data::String(k), v1, Data::String("NX"@)];
    let a2 = seq![Data::String(k), v2, Data::String("NX"@)];
    let nx = crate::commands::general::set::Arguments { set_nx: true, ..SetKey::plain() };
    assert(!(v1.plain() is Expire));
    assert(a1[2] == Data::String("NX"@));
    assert(a2[2] == Data::String("NX"@));
    assert(SetKey::options(a1, 3, nx) == Options::Taken(nx));
    assert(SetKey::options(a2, 3, nx) == Options::Taken(nx));
    assert(SetKey::options(a1, 2, SetKey::plain()) == Options::Taken(nx));
    assert(SetKey::options(a2, 2, SetKey::plain()) == Options::Taken(nx));
}

/// `SET k v XX` where `k` holds nothing: the request changes nothing, and
/// its reply is `Nil`.
pub proof fn set_xx_absent(k: Seq<char>, v: Data, pre: World, proto: u8, now: Reading)
    requires
        !pre.live(k, now.now),
    ensures
        SetKey::outcome(seq![Data::String(k), v, Data::String("XX"@)], pre, proto, now) == answer(
            pre,
            proto,
            now,
            Data::Nil,
        ),
{
    lemma_words();
    let a = seq![Data::String(k), v, Data::String("XX"@)];
    let xx = crate::commands::general::set::Arguments { set_xx: true, ..SetKey::plain() };
    assert(a[2] == Data::String("XX"@));
    assert(SetKey::options(a, 3, xx) == Options::Taken(xx));
    assert(SetKey::options(a, 2, SetKey::plain()) == Options::Taken(xx));
}

/// `HSET h f1 v1 f2 v2` where `h` holds nothing and the two fields differ,
/// and then `HGETALL h`: the reply to the second is the hash of `f1` with
/// `v1` and `f2` with `v2`, in the session's version of the protocol.
pub proof fn hset_then_hgetall(
    h: Seq<char>,
    f1: Seq<char>,
    v1: Data,
    f2: Seq<char>,
    v2: Data,
    pre: World,
    proto: u8,
    now: Reading,
    later: Reading,
)
    requires
        !pre.store.contains_key(h),
        f1 != f2,
    ensures
        ({
            let hash = Data::Hashmap(seq![(Data::String(f1), v1), (Data::String(f2), v2)]);
            let set = HSet::outcome(
                seq![Data::String(h), Data::String(f1), v1, Data::String(f2), v2],
                pre,
                proto,
                now,
            );
            let get = HGetAll::outcome(seq![Data::String(h)], set.world, proto, later);
            &&& set.reply == resp2(Data::Integer(2), now.now)
            &&& set.world == pre.put(h, hash)
            &&& get.reply == resp(hash, proto as int, later.now)
            &&& get.world == set.world
        }),
{
    let args = seq![Data::String(h), Data::String(f1), v1, Data::String(f2), v2];
    let empty = Seq::<(Data, Data)>::empty();
    let one = upsert(empty, Data::String(f1), v1);
    assert(one =~= seq![(Data::String(f1), v1)]);
    assert(key_index(one, Data::String(f2), 1) == 1);
    assert(key_index(one, Data::String(f2), 0) == 1);
    let two = upsert(one, Data::String(f2), v2);
    assert(two =~= seq![(Data::String(f1), v1), (Data::String(f2), v2)]);
    assert(args[1] is String && args[3] is String);
    assert(HSet::fields_are_strings(args));
    assert(HSet::filled(two, args, 5) == two);
    assert(HSet::filled(one, args, 3) == two);
    assert(HSet::filled(empty, args, 1) == two);
}

/// `HSET h f v` where `h` holds a bulk string that has not expired: the
/// reply is an error, and nothing changes.
pub proof fn hset_on_string(
    h: Seq<char>,
    f: Seq<char>,
    v: Data,
    pre: World,
    proto: u8,
    now: Reading,
)
    requires
        pre.live(h, now.now),
        pre.store[h].plain() is String,
    ensures
        HSet::outcome(seq![Data::String(h), Data::String(f), v], pre, proto, now) == refusal(
            pre,
            proto,
            now,
            "Key is not a hashmap"@,
        ),
{
    let args = seq![Data::String(h), Data::String(f), v];
    assert(args[1] is String);
    assert(HSet::fields_are_strings(args));
}

/// The keys that `KEYS` replies with are the keys that hold a value which
/// has not expired and that the pattern matches, each once, whatever the
/// order in which the store lists its keys: here `matches` stands for what
/// the pattern says of a key.
pub proof fn keys_are_the_live_matches(
    w: World,
    matches: spec_fn(Seq<char>) -> bool,
    verdicts: Seq<bool>,
    now: u64,
    k: Seq<char>,
)
    requires
        w.wf(),
        verdicts.len() == w.order.len(),
        forall|i: int| 0 <= i < w.order.len() ==> verdicts[i] == matches(#[trigger] w.order[i]),
    ensures
        Keys::chosen(w, verdicts, 0, now).contains(Data::String(k)) <==> w.live(k, now) && matches(
            k,
        ),
        forall|i: int|
            0 <= i < Keys::chosen(w, verdicts, 0, now).len() ==> (#[trigger] Keys::chosen(
                w,
                verdicts,
                0,
                now,
            )[i]) is String,
        forall|i: int, j: int|
            0 <= i < j < Keys::chosen(w, verdicts, 0, now).len() ==> Keys::chosen(
                w,
                verdicts,
                0,
                now,
            )[i] != Keys::chosen(w, verdicts, 0, now)[j],
{
    lemma_chosen(w, matches, verdicts, now, 0);
    let all = Keys::chosen(w, verdicts, 0, now);
    if w.live(k, now) && matches(k) {
        assert(w.order.contains(k));
        let i = choose|i: int| 0 <= i < w.order.len() && w.order[i] == k;
        assert(exists|i: int| 0 <= i < w.order.len() && w.order[i] == k);
    }
}

/// What `chosen` holds from the place `from` on.
proof fn lemma_chosen(
    w: World,
    matches: spec_fn(Seq<char>) -> bool,
    verdicts: Seq<bool>,
    now: u64,
    from: int,
)
    requires
        w.wf(),
        0 <= from <= w.order.len(),
        verdicts.len() == w.order.len(),
        forall|i: int| 0 <= i < w.order.len() ==> verdicts[i] == matches(#[trigger] w.order[i]),
    ensures
        forall|k: Seq<char>| #[trigger]
            Keys::chosen(w, verdicts, from, now).contains(Data::String(k)) <==> (exists|i: int|
                from <= i < w.order.len() && w.order[i] == k) && w.live(k, now) && matches(k),
        forall|i: int|
            0 <= i < Keys::chosen(w, verdicts, from, now).len() ==> (#[trigger] Keys::chosen(
                w,
                verdicts,
                from,
                now,
            )[i]) is String,
        forall|i: int, j: int|
            0 <= i < j < Keys::chosen(w, verdicts, from, now).len() ==> Keys::chosen(
                w,
                verdicts,
                from,
                now,
            )[i] != Keys::chosen(w, verdicts, from, now)[j],
    decreases w.order.len() - from,
{
    if from < w.order.len() {
        lemma_chosen(w, matches, verdicts, now, from + 1);
        let rest = Keys::chosen(w, verdicts, from + 1, now);
        let all = Keys::chosen(w, verdicts, from, now);
        let head = w.order[from];
        let taken = verdicts[from] && w.live(head, now);
        assert(all == if taken { seq![Data::String(head)] + rest } else { rest });
        assert forall|k: Seq<char>| #[trigger]
            all.contains(Data::String(k)) <==> (exists|i: int|
                from <= i < w.order.len() && w.order[i] == k) && w.live(k, now) && matches(
                k,
            ) by {
            if all.contains(Data::String(k)) {
                let a = choose|a: int| 0 <= a < all.len() && all[a] == Data::String(k);
                if taken && a == 0 {
                    assert(w.order[from] == k);
                } else {
                    let b = if taken { a - 1 } else { a };
                    assert(rest[b] == Data::String(k));
                    assert(rest.contains(Data::String(k)));
                    let i = choose|i: int| from + 1 <= i < w.order.len() && w.order[i] == k;
                    assert(from <= i < w.order.len() && w.order[i] == k);
                }
            }
            if (exists|i: int| from <= i < w.order.len() && w.order[i] == k) && w.live(k, now)
                && matches(k) {
                let i = choose|i: int| from <= i < w.order.len() && w.order[i] == k;
                if i == from {
                    assert(taken);
                    assert(all[0] == Data::String(k));
                } else {
                    assert(from + 1 <= i < w.order.len() && w.order[i] == k);
                    assert(rest.contains(Data::String(k)));
                    let b = choose|b: int| 0 <= b < rest.len() && rest[b] == Data::String(k);
                    let a = if taken { b + 1 } else { b };
                    assert(all[a] == Data::String(k));
                }
            }
        }
        assert forall|i: int, j: int| 0 <= i < j < all.len() implies all[i] != all[j] by {
            if taken {
                if i == 0 {
                    assert(all[j] == rest[j - 1]);
                    if all[j] == Data::String(head) {
                        assert(rest.contains(Data::String(head)));
                        let x = choose|x: int| from + 1 <= x < w.order.len() && w.order[x] == head;
                        assert(w.order[from] != w.order[x]);
                    }
                } else {
                    assert(all[i] == rest[i - 1] && all[j] == rest[j - 1]);
                }
            }
        }
        assert forall|i: int| 0 <= i < all.len() implies (#[trigger] all[i]) is String by {
            if taken && i > 0 {
                assert(all[i] == rest[i - 1]);
            }
        }
    } else {
        assert(Keys::chosen(w, verdicts, from, now) =~= Seq::<Data>::empty());
    }
}

} // verus!
