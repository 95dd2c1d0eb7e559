//! What the commands work on: the store and the deadline index, and the
//! sweep that frees what has expired.

use crate::storage::index::ExpireKey;
use crate::storage::store::{distinct, texts, without, Store};
use crate::storage::value::Data;
use vstd::prelude::*;

verus! {

/// The store and the deadline index, as a model.
#[verifier::ext_equal]
pub struct World {
    /// The values under their keys.
    pub store: Map<Seq<char>, Data>,
    /// The keys of the store in the order in which they are listed.
    pub order: Seq<Seq<char>>,
    /// The keys of the deadline index, in their order.
    pub deadlines: Seq<Seq<char>>,
}

impl World {
    /// The invariant of the model: the keys listed are the keys of the store,
    /// each once, every value meets the invariant of values, and no key
    /// occurs twice in the index.
    pub open spec fn wf(self) -> bool {
        &&& distinct(self.order)
        &&& distinct(self.deadlines)
        &&& forall|k: Seq<char>| self.store.contains_key(k) <==> self.order.contains(k)
        &&& forall|k: Seq<char>| self.store.contains_key(k) ==> (#[trigger] self.store[k]).wf()
    }

    /// Whether `key` holds a value whose deadline, if it has one, `now` has
    /// not passed.
    pub open spec fn live(self, key: Seq<char>, now: u64) -> bool {
        self.store.contains_key(key) && !self.store[key].expired(now)
    }

    /// Whether `key` holds a value whose deadline `now` has passed.
    pub open spec fn due(self, key: Seq<char>, now: u64) -> bool {
        self.store.contains_key(key) && self.store[key].expired(now)
    }

    /// What a reader finds under `key` at `now`: `Nil` where the key holds
    /// nothing or what it holds has expired.
    pub open spec fn read(self, key: Seq<char>, now: u64) -> Data {
        if self.store.contains_key(key) {
            self.store[key].seen(now)
        } else {
            Data::Nil
        }
    }

    /// The world after `value` has been put under `key`.
    pub open spec fn put(self, key: Seq<char>, value: Data) -> World {
        World {
            store: self.store.insert(key, value),
            order: if self.store.contains_key(key) {
                self.order
            } else {
                self.order.push(key)
            },
            deadlines: self.deadlines,
        }
    }

    /// The world after `key` and its value have been taken out of the store.
    pub open spec fn del(self, key: Seq<char>) -> World {
        World {
            store: self.store.remove(key),
            order: without(self.order, key),
            deadlines: self.deadlines,
        }
    }

    /// The world after `key` has been noted in the deadline index.
    pub open spec fn note(self, key: Seq<char>) -> World {
        World {
            store: self.store,
            order: self.order,
            deadlines: if self.deadlines.contains(key) {
                self.deadlines
            } else {
                self.deadlines.push(key)
            },
        }
    }

    /// The world after `key` has been evicted, if what it holds is due at
    /// `now`: out of the store and off the index.
    pub open spec fn evict(self, key: Seq<char>, now: u64) -> World {
        if self.due(key, now) {
            World {
                store: self.store.remove(key),
                order: without(self.order, key),
                deadlines: without(self.deadlines, key),
            }
        } else {
            self
        }
    }

    /// The world after the keys `keys[k..]` have been evicted in turn.
    pub open spec fn evict_all(self, keys: Seq<Seq<char>>, k: int, now: u64) -> World
        decreases keys.len() - k,
    {
        if 0 <= k < keys.len() {
            self.evict(keys[k], now).evict_all(keys, k + 1, now)
        } else {
            self
        }
    }

    /// The world after one sweep at `now`: every key of the deadline index
    /// whose value in the store is due has left the store and the index; a
    /// key of the index that holds a value which is not due, or no value,
    /// stays as it is.
    pub open spec fn swept(self, now: u64) -> World {
        self.evict_all(self.deadlines, 0, now)
    }
}

/// The store and the deadline index that the commands of all sessions work
/// on.
pub struct Context {
    pub store: Store,
    pub expire_keys: ExpireKey,
}

impl View for Context {
    type V = World;

    open spec fn view(&self) -> World {
        World {
            store: self.store@,
            order: self.store.order(),
            deadlines: self.expire_keys.order(),
        }
    }
}

impl Context {
    /// The invariant: those of the store and of the index.
    pub open spec fn wf(&self) -> bool {
        self.store.wf() && self.expire_keys.wf()
    }

    /// The invariant holds of the model as well.
    pub proof fn lemma_wf(&self)
        requires
            self.wf(),
        ensures
            self@.wf(),
    {
        self.store.lemma_wf();
        self.expire_keys.lemma_wf();
    }

    /// An empty store and an empty index.
    pub fn new() -> (c: Context)
        ensures
            c.wf(),
            c@.store == Map::<Seq<char>, Data>::empty(),
            c@.order == Seq::<Seq<char>>::empty(),
            c@.deadlines == Seq::<Seq<char>>::empty(),
    {
        Context { store: Store::new(), expire_keys: ExpireKey::new() }
    }

    /// One sweep of the deadline index at `now`, a reading of the monotonic
    /// clock: evicts what is due, and returns how many keys it evicted.
    pub fn expire_keys_task(&mut self, now: u64) -> (evicted: usize)
        requires
            old(self).wf(),
        ensures
            final(self).wf(),
            final(self)@ == old(self)@.swept(now),
            evicted == old(self)@.order.len() - final(self)@.order.len(),
    {
        let keys = self.expire_keys.keys();
        let ghost all = texts(keys@);
        let before: usize = self.store.len();
        let mut i: usize = 0;
        while i < keys.len()
            invariant
                i <= keys@.len(),
                all == texts(keys@),
                self.wf(),
                self@.evict_all(all, i as int, now) == old(self)@.swept(now),
                self@.order.len() <= before,
            decreases keys@.len() - i,
        {
            let key = keys[i].as_str();
            assert(key@ == all[i as int]);
            let due = match self.store.get(key) {
                Some(v) => v.expired(now),
                None => false,
            };
            if due {
                proof {
                    crate::storage::store::lemma_position(self@.order, key@, 0);
                }
                let _ = self.store.discard(key);
                self.expire_keys.remove(key);
            }
            i += 1;
        }
        before - self.store.len()
    }
}

} // verus!
