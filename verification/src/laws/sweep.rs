//! The sweep: what it leaves, and that a second one finds nothing to do.

use crate::context::World;
use crate::storage::store::{lemma_position, without};
use vstd::prelude::*;

verus! {

/// What is left of a list after a key has been struck off was in the list.
proof fn lemma_without_subset(order: Seq<Seq<char>>, key: Seq<char>, x: Seq<char>)
    requires
        without(order, key).contains(x),
    ensures
        order.contains(x),
{
    lemma_position(order, key, 0);
    let i = position_of(order, key);
    if i < order.len() {
        let rest = order.remove(i);
        let a = choose|a: int| 0 <= a < rest.len() && rest[a] == x;
        let b = if a < i { a } else { a + 1 };
        assert(order[b] == x);
    }
}

/// The first place of `key` in `order`.
spec fn position_of(order: Seq<Seq<char>>, key: Seq<char>) -> int {
    crate::storage::store::position(order, key, 0)
}

/// What evicting keys leaves: no value changes, a value that leaves was
/// due, none of the keys that were to be evicted is due afterwards, and the
/// index only loses keys.
proof fn lemma_evict_all(w: World, keys: Seq<Seq<char>>, k: int, now: u64)
    requires
        0 <= k <= keys.len(),
    ensures
        forall|x: Seq<char>| #[trigger]
            w.evict_all(keys, k, now).store.contains_key(x) ==> w.store.contains_key(x)
                && w.evict_all(keys, k, now).store[x] == w.store[x],
        forall|j: int| k <= j < keys.len() ==> !w.evict_all(keys, k, now).due(#[trigger] keys[j], now),
        forall|x: Seq<char>| #[trigger]
            w.evict_all(keys, k, now).deadlines.contains(x) ==> w.deadlines.contains(x),
    decreases keys.len() - k,
{
    if k < keys.len() {
        let next = w.evict(keys[k], now);
        lemma_evict_all(next, keys, k + 1, now);
        let last = next.evict_all(keys, k + 1, now);
        assert(last == w.evict_all(keys, k, now));
        assert forall|x: Seq<char>| #[trigger] last.deadlines.contains(x) implies w.deadlines.contains(
            x,
        ) by {
            assert(next.deadlines.contains(x));
            if w.due(keys[k], now) {
                lemma_without_subset(w.deadlines, keys[k], x);
            }
        }
        assert forall|j: int| k <= j < keys.len() implies !last.due(#[trigger] keys[j], now) by {
            if j == k {
                if last.store.contains_key(keys[k]) {
                    assert(next.store.contains_key(keys[k]));
                    assert(last.store[keys[k]] == next.store[keys[k]]);
                }
            }
        }
    }
}

/// Evicting keys of which none is due changes nothing.
proof fn lemma_nothing_due(w: World, keys: Seq<Seq<char>>, k: int, now: u64)
    requires
        0 <= k <= keys.len(),
        forall|j: int| k <= j < keys.len() ==> !w.due(#[trigger] keys[j], now),
    ensures
        w.evict_all(keys, k, now) == w,
    decreases keys.len() - k,
{
    if k < keys.len() {
        assert(!w.due(keys[k], now));
        lemma_nothing_due(w, keys, k + 1, now);
    }
}

/// After a sweep, no key of the deadline index is due.
pub proof fn sweep_leaves_nothing_due(w: World, now: u64)
    ensures
        forall|x: Seq<char>| w.swept(now).deadlines.contains(x) ==> !#[trigger] w.swept(now).due(x, now),
{
    lemma_evict_all(w, w.deadlines, 0, now);
    let s = w.swept(now);
    assert forall|x: Seq<char>| s.deadlines.contains(x) implies !#[trigger] s.due(x, now) by {
        assert(w.deadlines.contains(x));
        let j = choose|j: int| 0 <= j < w.deadlines.len() && w.deadlines[j] == x;
        assert(!s.due(w.deadlines[j], now));
    }
}

/// A sweep never evicts a value that is not due: what is in the store
/// after it was there before, unchanged, and what has left was due.
pub proof fn sweep_spares_the_living(w: World, now: u64, key: Seq<char>)
    ensures
        w.swept(now).store.contains_key(key) ==> w.store.contains_key(key) && w.swept(now).store[key]
            == w.store[key],
        w.live(key, now) ==> w.swept(now).live(key, now),
{
    lemma_evict_all(w, w.deadlines, 0, now);
    if w.live(key, now) {
        lemma_keeps_living(w, w.deadlines, 0, now, key);
    }
}

/// Evicting keys leaves a value that is not due where it is.
proof fn lemma_keeps_living(w: World, keys: Seq<Seq<char>>, k: int, now: u64, key: Seq<char>)
    requires
        0 <= k <= keys.len(),
        w.live(key, now),
    ensures
        w.evict_all(keys, k, now).live(key, now),
        w.evict_all(keys, k, now).store[key] == w.store[key],
    decreases keys.len() - k,
{
    if k < keys.len() {
        let next = w.evict(keys[k], now);
        assert(next.live(key, now) && next.store[key] == w.store[key]);
        lemma_keeps_living(next, keys, k + 1, now, key);
    }
}

/// The law of the sweep: a second sweep at the same moment, with nothing
/// written in between, changes nothing.
pub proof fn sweep_twice(w: World, now: u64)
    ensures
        w.swept(now).swept(now) == w.swept(now),
{
    sweep_leaves_nothing_due(w, now);
    let s = w.swept(now);
    assert forall|j: int| 0 <= j < s.deadlines.len() implies !s.due(#[trigger] s.deadlines[j], now) by {
        assert(s.deadlines.contains(s.deadlines[j]));
    }
    lemma_nothing_due(s, s.deadlines, 0, now);
}

} // verus!
