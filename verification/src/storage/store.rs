//! The store: values under their keys.

use crate::storage::value::{Data, Value};
use crate::text::same_text;
use vstd::hash_map::StringHashMap;
use vstd::prelude::*;

verus! {

/// The index of the first occurrence of `key` at or after `from`, or the
/// length of `order` where there is none.
pub open spec fn position(order: Seq<Seq<char>>, key: Seq<char>, from: int) -> int
    decreases order.len() - from,
{
    if from < 0 || from >= order.len() {
        order.len() as int
    } else if order[from] == key {
        from
    } else {
        position(order, key, from + 1)
    }
}

/// `order` without `key`.
pub open spec fn without(order: Seq<Seq<char>>, key: Seq<char>) -> Seq<Seq<char>> {
    let i = position(order, key, 0);
    if i < order.len() {
        order.remove(i)
    } else {
        order
    }
}

/// No key occurs twice.
pub open spec fn distinct(order: Seq<Seq<char>>) -> bool {
    forall|i: int, j: int| 0 <= i < j < order.len() ==> order[i] != order[j]
}

/// What `position` returns is the first place of the key, if it has one.
pub proof fn lemma_position(order: Seq<Seq<char>>, key: Seq<char>, from: int)
    requires
        0 <= from <= order.len(),
    ensures
        from <= position(order, key, from) <= order.len(),
        position(order, key, from) < order.len() ==> order[position(order, key, from)] == key,
        forall|j: int| from <= j < position(order, key, from) ==> order[j] != key,
    decreases order.len() - from,
{
    if from < order.len() && order[from] != key {
        lemma_position(order, key, from + 1);
    }
}

/// The texts of a list of keys.
pub open spec fn texts(keys: Seq<String>) -> Seq<Seq<char>> {
    Seq::new(keys.len(), |i: int| keys[i]@)
}

/// A mapping from keys to values.
///
/// Values are found by their key in constant time. The keys are also kept
/// in the order in which they first came in, which is the order in which
/// they are listed.
pub struct Store {
    map: StringHashMap<Value>,
    keys: Vec<String>,
}

impl View for Store {
    type V = Map<Seq<char>, Data>;

    closed spec fn view(&self) -> Map<Seq<char>, Data> {
        Map::new(|k: Seq<char>| self.map@.contains_key(k), |k: Seq<char>| self.map@[k]@)
    }
}

impl Store {
    /// The keys in the order in which they are listed.
    pub closed spec fn order(&self) -> Seq<Seq<char>> {
        texts(self.keys@)
    }

    /// The invariant of the store: the keys listed are the keys that hold a
    /// value, each once, and every value meets the invariant of values.
    pub closed spec fn wf(&self) -> bool {
        &&& distinct(texts(self.keys@))
        &&& forall|k: Seq<char>| self.map@.contains_key(k) <==> texts(self.keys@).contains(k)
        &&& forall|k: Seq<char>| self.map@.contains_key(k) ==> (#[trigger] self.map@[k])@.wf()
    }

    /// What the invariant says of the store's model.
    pub proof fn lemma_wf(&self)
        requires
            self.wf(),
        ensures
            distinct(self.order()),
            forall|k: Seq<char>| self@.contains_key(k) <==> self.order().contains(k),
            forall|k: Seq<char>| self@.contains_key(k) ==> (#[trigger] self@[k]).wf(),
            self@.dom().finite(),
    {
        let order = self.order();
        assert forall|k: Seq<char>| self@.contains_key(k) implies (#[trigger] self@[k]).wf() by {
            assert(self.map@[k]@.wf());
        }
        assert(self@.dom() =~= order.to_set());
        vstd::seq_lib::seq_to_set_is_finite(order);
    }

    /// An empty store.
    pub fn new() -> (s: Store)
        ensures
            s.wf(),
            s@ == Map::<Seq<char>, Data>::empty(),
            s.order() == Seq::<Seq<char>>::empty(),
    {
        let s = Store { map: StringHashMap::new(), keys: Vec::new() };
        assert(s@ =~= Map::<Seq<char>, Data>::empty());
        assert(s.order() =~= Seq::<Seq<char>>::empty());
        s
    }

    /// The number of keys.
    pub fn len(&self) -> (n: usize)
        ensures
            n == self.order().len(),
    {
        self.keys.len()
    }

    /// Whether `key` holds a value.
    pub fn contains(&self, key: &str) -> (r: bool)
        ensures
            r == self@.contains_key(key@),
    {
        self.map.contains_key(key)
    }

    /// The value under `key`, as it is stored: with its deadline where it
    /// has one, passed or not.
    pub fn get(&self, key: &str) -> (r: Option<&Value>)
        ensures
            match r {
                Some(v) => self@.contains_key(key@) && v@ == self@[key@],
                None => !self@.contains_key(key@),
            },
    {
        self.map.get(key)
    }

    /// Finds `key` in the list of keys.
    fn find(&self, key: &str) -> (i: usize)
        ensures
            i == position(self.order(), key@, 0),
            i <= self.keys@.len(),
    {
        let mut i: usize = 0;
        while i < self.keys.len()
            invariant
                i <= self.keys@.len(),
                position(self.order(), key@, 0) == position(self.order(), key@, i as int),
            decreases self.keys@.len() - i,
        {
            if same_text(self.keys[i].as_str(), key) {
                return i;
            }
            i += 1;
        }
        i
    }

    /// Puts `value` under `key`, in place of what was there.
    pub fn insert(&mut self, key: String, value: Value)
        requires
            old(self).wf(),
            value@.wf(),
        ensures
            final(self).wf(),
            final(self)@ == old(self)@.insert(key@, value@),
            final(self).order() == if old(self)@.contains_key(key@) {
                old(self).order()
            } else {
                old(self).order().push(key@)
            },
    {
        let ghost before = texts(self.keys@);
        if !self.map.contains_key(key.as_str()) {
            self.keys.push(key.clone());
            assert(texts(self.keys@) =~= before.push(key@));
        }
        self.map.insert(key, value);
        proof {
            let after = texts(self.keys@);
            assert(self@ =~= old(self)@.insert(key@, value@));
            if old(self)@.contains_key(key@) {
                assert(before.contains(key@));
            } else {
                assert(!before.contains(key@));
                assert forall|i: int, j: int| 0 <= i < j < after.len() implies after[i]
                    != after[j] by {
                    if j == before.len() {
                        assert(before[i] == after[i]);
                        assert(before.contains(after[i]));
                    } else {
                        assert(before[i] == after[i] && before[j] == after[j]);
                    }
                }
            }
            assert forall|k: Seq<char>| self.map@.contains_key(k) <==> after.contains(k) by {
                if k == key@ {
                    if old(self)@.contains_key(key@) {
                        assert(before.contains(k));
                    } else {
                        assert(after[before.len() as int] == k);
                    }
                } else {
                    if before.contains(k) {
                        let i = choose|i: int| 0 <= i < before.len() && before[i] == k;
                        assert(after[i] == k);
                    }
                    if after.contains(k) {
                        let i = choose|i: int| 0 <= i < after.len() && after[i] == k;
                        assert(before[i] == k);
                    }
                }
            }
        }
    }

    /// Puts `value` under `key`, in place of what was there.
    pub fn set(&mut self, key: String, value: Value)
        requires
            old(self).wf(),
            value@.wf(),
        ensures
            final(self).wf(),
            final(self)@ == old(self)@.insert(key@, value@),
            final(self).order() == if old(self)@.contains_key(key@) {
                old(self).order()
            } else {
                old(self).order().push(key@)
            },
    {
        self.insert(key, value)
    }

    /// Puts `default` under `key` unless the key holds a value.
    pub fn entry_or_insert(&mut self, key: String, default: Value)
        requires
            old(self).wf(),
            default@.wf(),
        ensures
            final(self).wf(),
            final(self)@ == if old(self)@.contains_key(key@) {
                old(self)@
            } else {
                old(self)@.insert(key@, default@)
            },
            final(self).order() == if old(self)@.contains_key(key@) {
                old(self).order()
            } else {
                old(self).order().push(key@)
            },
    {
        if !self.contains(key.as_str()) {
            self.insert(key, default);
        }
    }

    /// Takes `key` and its value out of the store, and tells whether the
    /// key held one.
    pub fn discard(&mut self, key: &str) -> (held: bool)
        requires
            old(self).wf(),
        ensures
            final(self).wf(),
            final(self)@ == old(self)@.remove(key@),
            final(self).order() == without(old(self).order(), key@),
            held == old(self)@.contains_key(key@),
    {
        let ghost before = texts(self.keys@);
        proof {
            lemma_position(before, key@, 0);
        }
        if !self.map.contains_key(key) {
            proof {
                let i = position(before, key@, 0);
                if i < before.len() {
                    assert(before.contains(key@));
                }
                assert(self@ =~= old(self)@.remove(key@));
            }
            return false;
        }
        let i = self.find(key);
        assert(before.contains(key@));
        assert(i < before.len());
        self.keys.remove(i);
        self.map.remove(key);
        proof {
            let after = texts(self.keys@);
            assert(after =~= before.remove(i as int));
            assert(self@ =~= old(self)@.remove(key@));
            assert forall|a: int, b: int| 0 <= a < b < after.len() implies after[a] != after[b] by {
                let x = if a < i { a } else { a + 1 };
                let y = if b < i { b } else { b + 1 };
                assert(after[a] == before[x] && after[b] == before[y]);
            }
            assert forall|k: Seq<char>| self.map@.contains_key(k) <==> after.contains(k) by {
                if before.contains(k) && k != key@ {
                    let x = choose|x: int| 0 <= x < before.len() && before[x] == k;
                    let a = if x < i { x } else { x - 1 };
                    assert(after[a] == k);
                }
                if after.contains(k) {
                    let a = choose|a: int| 0 <= a < after.len() && after[a] == k;
                    let x = if a < i { a } else { a + 1 };
                    assert(before[x] == k);
                    assert(before.contains(k));
                    assert(x != i);
                }
            }
        }
        true
    }

    /// Takes `key` and its value out of the store, and returns the value.
    pub fn remove(&mut self, key: &str) -> (r: Option<Value>)
        requires
            old(self).wf(),
        ensures
            final(self).wf(),
            final(self)@ == old(self)@.remove(key@),
            final(self).order() == without(old(self).order(), key@),
            match r {
                Some(v) => old(self)@.contains_key(key@) && v@ == old(self)@[key@],
                None => !old(self)@.contains_key(key@),
            },
    {
        let found = match self.map.get(key) {
            Some(v) => Some(v.clone()),
            None => None,
        };
        let _ = self.discard(key);
        found
    }

    /// Takes every key and value out of the store.
    pub fn clear(&mut self)
        ensures
            final(self).wf(),
            final(self)@ == Map::<Seq<char>, Data>::empty(),
            final(self).order() == Seq::<Seq<char>>::empty(),
    {
        self.map.clear();
        self.keys.clear();
        assert(self@ =~= Map::<Seq<char>, Data>::empty());
        assert(self.order() =~= Seq::<Seq<char>>::empty());
    }

    /// The key at place `i` of the list of keys.
    pub fn key_at(&self, i: usize) -> (key: &String)
        requires
            i < self.order().len(),
        ensures
            key@ == self.order()[i as int],
    {
        &self.keys[i]
    }

    /// The keys, in the order in which they are listed.
    pub fn keys(&self) -> (r: Vec<String>)
        ensures
            texts(r@) == self.order(),
    {
        let mut out: Vec<String> = Vec::new();
        let mut i: usize = 0;
        while i < self.keys.len()
            invariant
                i <= self.keys@.len(),
                out@.len() == i,
                forall|j: int| 0 <= j < i ==> out@[j]@ == self.keys@[j]@,
            decreases self.keys@.len() - i,
        {
            out.push(self.keys[i].clone());
            i += 1;
        }
        assert(texts(out@) =~= self.order());
        out
    }
}

} // verus!
