//! The deadline index: the keys that were given a deadline.

use crate::storage::store::{distinct, texts, without, Store};
use crate::storage::value::Value;
use vstd::prelude::*;

verus! {

/// The keys that were given a deadline, each once, in the order in which
/// they came in.
///
/// The index is a hint for the sweep, not the truth: a key may have lost its
/// deadline, or its value, since it was noted.
pub struct ExpireKey {
    table: Store,
}

impl ExpireKey {
    /// The keys of the index, in their order.
    pub closed spec fn order(&self) -> Seq<Seq<char>> {
        self.table.order()
    }

    /// The invariant of the index: no key occurs twice.
    pub closed spec fn wf(&self) -> bool {
        self.table.wf()
    }

    /// What the invariant says.
    pub proof fn lemma_wf(&self)
        requires
            self.wf(),
        ensures
            distinct(self.order()),
    {
        self.table.lemma_wf();
    }

    /// An empty index.
    pub fn new() -> (r: ExpireKey)
        ensures
            r.wf(),
            r.order() == Seq::<Seq<char>>::empty(),
    {
        ExpireKey { table: Store::new() }
    }

    /// Whether the index holds `key`.
    pub fn contains(&self, key: &str) -> (r: bool)
        requires
            self.wf(),
        ensures
            r == self.order().contains(key@),
    {
        proof {
            self.table.lemma_wf();
        }
        self.table.contains(key)
    }

    /// Notes `key`: at the end of the index, unless the index holds it.
    pub fn insert(&mut self, key: String)
        requires
            old(self).wf(),
        ensures
            final(self).wf(),
            final(self).order() == if old(self).order().contains(key@) {
                old(self).order()
            } else {
                old(self).order().push(key@)
            },
    {
        proof {
            self.table.lemma_wf();
        }
        self.table.entry_or_insert(key, Value::Nil);
    }

    /// Strikes `key` off the index.
    pub fn remove(&mut self, key: &str)
        requires
            old(self).wf(),
        ensures
            final(self).wf(),
            final(self).order() == without(old(self).order(), key@),
    {
        let _ = self.table.discard(key);
    }

    /// The keys of the index, in their order.
    pub fn keys(&self) -> (r: Vec<String>)
        ensures
            texts(r@) == self.order(),
    {
        self.table.keys()
    }
}

} // verus!
