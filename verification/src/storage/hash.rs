//! Hashes and sets as lists without repetition: finding a key, putting an
//! entry, adding a member.

use crate::storage::value::{valid_entries, valid_members, Data, Value};
use vstd::prelude::*;

verus! {

/// The index of the first entry at or after `from` whose key is `key`, or the
/// number of entries where there is none.
pub open spec fn key_index(pairs: Seq<(Data, Data)>, key: Data, from: int) -> int
    decreases pairs.len() - from,
{
    if from < 0 || from >= pairs.len() {
        pairs.len() as int
    } else if pairs[from].0 == key {
        from
    } else {
        key_index(pairs, key, from + 1)
    }
}

/// The entries after `key` has been given `value`: in place where the key was
/// there, at the end where it was not.
pub open spec fn upsert(pairs: Seq<(Data, Data)>, key: Data, value: Data) -> Seq<(Data, Data)> {
    let i = key_index(pairs, key, 0);
    if i < pairs.len() {
        pairs.update(i, (key, value))
    } else {
        pairs.push((key, value))
    }
}

/// The index of the first member at or after `from` that equals `member`, or
/// the number of members where there is none.
pub open spec fn member_index(items: Seq<Data>, member: Data, from: int) -> int
    decreases items.len() - from,
{
    if from < 0 || from >= items.len() {
        items.len() as int
    } else if items[from] == member {
        from
    } else {
        member_index(items, member, from + 1)
    }
}

/// The members after `member` has been added: unchanged where it was there,
/// with it at the end where it was not.
pub open spec fn with_member(items: Seq<Data>, member: Data) -> Seq<Data> {
    if member_index(items, member, 0) < items.len() {
        items
    } else {
        items.push(member)
    }
}

/// What `key_index` returns is the first place of the key, if it has one.
pub proof fn lemma_key_index(pairs: Seq<(Data, Data)>, key: Data, from: int)
    requires
        0 <= from <= pairs.len(),
    ensures
        from <= key_index(pairs, key, from) <= pairs.len(),
        key_index(pairs, key, from) < pairs.len() ==> pairs[key_index(pairs, key, from)].0 == key,
        forall|j: int| from <= j < key_index(pairs, key, from) ==> (#[trigger] pairs[j]).0 != key,
    decreases pairs.len() - from,
{
    if from < pairs.len() && pairs[from].0 != key {
        lemma_key_index(pairs, key, from + 1);
    }
}

/// What `member_index` returns is the first place of the member, if it has
/// one.
pub proof fn lemma_member_index(items: Seq<Data>, member: Data, from: int)
    requires
        0 <= from <= items.len(),
    ensures
        from <= member_index(items, member, from) <= items.len(),
        member_index(items, member, from) < items.len() ==> items[member_index(
            items,
            member,
            from,
        )] == member,
        forall|j: int| from <= j < member_index(items, member, from) ==> #[trigger] items[j] != member,
    decreases items.len() - from,
{
    if from < items.len() && items[from] != member {
        lemma_member_index(items, member, from + 1);
    }
}

/// Putting an entry into a hash that meets the invariant gives one that
/// meets it.
pub proof fn lemma_upsert_wf(pairs: Seq<(Data, Data)>, key: Data, value: Data)
    requires
        valid_entries(pairs),
        key.is_scalar(),
        value.wf(),
    ensures
        valid_entries(upsert(pairs, key, value)),
{
    lemma_key_index(pairs, key, 0);
    let out = upsert(pairs, key, value);
    let i = key_index(pairs, key, 0);
    assert forall|a: int| 0 <= a < out.len() implies (#[trigger] out[a]).0.is_scalar()
        && crate::storage::value::valid(out[a].1) by {
        if a < pairs.len() && a != i {
            assert(out[a] == pairs[a]);
            assert(pairs[a].0.is_scalar() && crate::storage::value::valid(pairs[a].1));
        } else {
            assert(out[a] == (key, value));
        }
    }
    assert forall|a: int, b: int| 0 <= a < b < out.len() implies (#[trigger] out[a]).0 != (
    #[trigger] out[b]).0 by {
        if i < pairs.len() {
            assert(out[a].0 == pairs[a].0);
            assert(out[b].0 == pairs[b].0);
            assert(pairs[a].0 != pairs[b].0);
        } else if b < pairs.len() {
            assert(out[a] == pairs[a]);
            assert(out[b] == pairs[b]);
            assert(pairs[a].0 != pairs[b].0);
        } else {
            assert(out[a] == pairs[a]);
            assert(pairs[a].0 != key);
        }
    }
}

/// Adding a member to a set that meets the invariant gives one that meets it.
pub proof fn lemma_with_member_wf(items: Seq<Data>, member: Data)
    requires
        valid_members(items),
        member.is_scalar(),
    ensures
        valid_members(with_member(items, member)),
{
    lemma_member_index(items, member, 0);
    let out = with_member(items, member);
    assert forall|a: int| 0 <= a < out.len() implies (#[trigger] out[a]).is_scalar() by {
        if a < items.len() {
            assert(out[a] == items[a]);
            assert(items[a].is_scalar());
        }
    }
    assert forall|a: int, b: int| 0 <= a < b < out.len() implies #[trigger] out[a]
        != #[trigger] out[b] by {
        if b < items.len() {
            assert(out[a] == items[a]);
            assert(out[b] == items[b]);
            assert(items[a] != items[b]);
        } else {
            assert(out[a] == items[a]);
            assert(items[a] != member);
        }
    }
}

/// The entries of a hash, as a model.
pub open spec fn entries(m: Seq<(Value, Value)>) -> Seq<(Data, Data)> {
    Seq::new(m.len(), |i: int| (m[i].0@, m[i].1@))
}

/// The members of a set, as a model.
pub open spec fn members(s: Seq<Value>) -> Seq<Data> {
    Seq::new(s.len(), |i: int| s[i]@)
}

/// The model of a hash is the list of the models of its entries.
pub proof fn lemma_hashmap_view(m: Vec<(Value, Value)>)
    ensures
        Value::Hashmap(m)@ == Data::Hashmap(entries(m@)),
{
    assert(Value::Hashmap(m)@->Hashmap_0 =~= entries(m@));
}

/// The model of a set is the list of the models of its members.
pub proof fn lemma_hashset_view(s: Vec<Value>)
    ensures
        Value::Hashset(s)@ == Data::Hashset(members(s@)),
{
    assert(Value::Hashset(s)@->Hashset_0 =~= members(s@));
}

/// The model of an array is the list of the models of its items.
pub proof fn lemma_multi_view(v: std::collections::VecDeque<Value>)
    ensures
        Value::Multi(v)@ == Data::Multi(crate::storage::value::views(v@)),
{
    assert(Value::Multi(v)@->Multi_0 =~= crate::storage::value::views(v@));
}

/// Finds the entry of a scalar key.
pub fn find_key(m: &Vec<(Value, Value)>, key: &Value) -> (i: usize)
    requires
        key@.is_scalar(),
    ensures
        i == key_index(entries(m@), key@, 0),
        i <= m@.len(),
{
    let mut i: usize = 0;
    while i < m.len()
        invariant
            i <= m@.len(),
            key@.is_scalar(),
            key_index(entries(m@), key@, 0) == key_index(entries(m@), key@, i as int),
        decreases m@.len() - i,
    {
        if key.same_scalar(&m[i].0) {
            return i;
        }
        assert(entries(m@)[i as int].0 == m@[i as int].0@);
        i += 1;
    }
    i
}

/// Gives `key` the value `value` in the hash `m`.
pub fn put_entry(m: &mut Vec<(Value, Value)>, key: Value, value: Value)
    requires
        key@.is_scalar(),
    ensures
        entries(final(m)@) == upsert(entries(old(m)@), key@, value@),
{
    let i = find_key(m, &key);
    if i < m.len() {
        m[i] = (key, value);
    } else {
        m.push((key, value));
    }
    assert(entries(m@) =~= upsert(entries(old(m)@), key@, value@));
}

/// Finds a scalar member.
pub fn find_member(s: &Vec<Value>, member: &Value) -> (i: usize)
    requires
        member@.is_scalar(),
    ensures
        i == member_index(members(s@), member@, 0),
        i <= s@.len(),
{
    let mut i: usize = 0;
    while i < s.len()
        invariant
            i <= s@.len(),
            member@.is_scalar(),
            member_index(members(s@), member@, 0) == member_index(members(s@), member@, i as int),
        decreases s@.len() - i,
    {
        if member.same_scalar(&s[i]) {
            return i;
        }
        assert(members(s@)[i as int] == s@[i as int]@);
        i += 1;
    }
    i
}

/// Adds `member` to the set `s`.
pub fn add_member(s: &mut Vec<Value>, member: Value)
    requires
        member@.is_scalar(),
    ensures
        members(final(s)@) == with_member(members(old(s)@), member@),
{
    let i = find_member(s, &member);
    if i == s.len() {
        s.push(member);
    }
    assert(members(s@) =~= with_member(members(old(s)@), member@));
}

} // verus!
