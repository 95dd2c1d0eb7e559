//! The values that cross the wire and live in the store, and their
//! mathematical model.

use crate::text::same_text;
use std::collections::VecDeque;
use vstd::prelude::*;
use vstd::std_specs::convert::FromSpecImpl;

verus! {

/// A datum that crosses the wire or lives under a key.
///
/// `Hashmap` holds its entries, and `Hashset` its members, in the order in
/// which they came in; no key and no member occurs twice. `Expire` wraps a
/// stored value together with the reading of the monotonic clock, in
/// milliseconds, after which the value counts as absent.
#[derive(Debug, PartialEq, Eq, Hash)]
pub enum Value {
    /// The reply `OK`.
    Okay,
    /// The reply `PONG`.
    Pong,
    /// Absence.
    Nil,
    /// A simple string of the protocol.
    Simple(String),
    /// An error reply.
    Error(String),
    /// An integer.
    Integer(i64),
    /// A bulk string: the scalar that is stored under a key.
    String(String),
    /// An array: a request's arguments, or a reply of several values.
    Multi(VecDeque<Value>),
    /// A stored value and its deadline.
    Expire(Box<Value>, u64),
    /// A hash: keys and their values.
    Hashmap(Vec<(Value, Value)>),
    /// A set of members.
    Hashset(Vec<Value>),
}

/// What a `Value` is, as a mathematical term.
#[verifier::ext_equal]
pub enum Data {
    Okay,
    Pong,
    Nil,
    Simple(Seq<char>),
    Error(Seq<char>),
    Integer(i64),
    String(Seq<char>),
    Multi(Seq<Data>),
    Expire(Box<Data>, u64),
    Hashmap(Seq<(Data, Data)>),
    Hashset(Seq<Data>),
}

impl Data {
    /// Neither an aggregate nor a value with a deadline: what may be a key of
    /// a hash or a member of a set.
    pub open spec fn is_scalar(self) -> bool {
        !(self is Multi || self is Expire || self is Hashmap || self is Hashset)
    }

    /// The invariant of every value: a deadline never wraps a deadline, the
    /// keys of a hash and the members of a set are scalars, and none of them
    /// occurs twice.
    pub open spec fn wf(self) -> bool {
        valid(self)
    }

    /// Whether the value carries a deadline that `now` has passed.
    pub open spec fn expired(self, now: u64) -> bool {
        self matches Data::Expire(_, at) && now > at
    }

    /// The value without its deadline.
    pub open spec fn plain(self) -> Data {
        match self {
            Data::Expire(inner, _) => *inner,
            other => other,
        }
    }

    /// What a reader sees at `now`: `Nil` in place of an expired value, and
    /// otherwise the value without its deadline.
    pub open spec fn seen(self, now: u64) -> Data {
        if self.expired(now) {
            Data::Nil
        } else {
            self.plain()
        }
    }
}

/// The invariant of every value, as `Data::wf` states it.
pub open spec fn valid(d: Data) -> bool
    decreases d,
{
    match d {
        Data::Multi(items) => valid_items(items),
        Data::Expire(inner, _) => !(*inner is Expire) && valid(*inner),
        Data::Hashmap(pairs) => valid_entries(pairs),
        Data::Hashset(items) => valid_members(items),
        _ => true,
    }
}

/// Every value of the sequence meets the invariant.
pub open spec fn valid_items(items: Seq<Data>) -> bool
    decreases items,
{
    forall|i: int| 0 <= i < items.len() ==> valid(#[trigger] items[i])
}

/// The entries of a hash: every key is a scalar that occurs once, and every
/// value meets the invariant.
pub open spec fn valid_entries(pairs: Seq<(Data, Data)>) -> bool
    decreases pairs,
{
    &&& forall|i: int|
        0 <= i < pairs.len() ==> (#[trigger] pairs[i]).0.is_scalar() && valid(pairs[i].1)
    &&& forall|i: int, j: int|
        0 <= i < j < pairs.len() ==> (#[trigger] pairs[i]).0 != (#[trigger] pairs[j]).0
}

/// The members of a set: every one is a scalar that occurs once.
pub open spec fn valid_members(items: Seq<Data>) -> bool {
    &&& forall|i: int| 0 <= i < items.len() ==> (#[trigger] items[i]).is_scalar()
    &&& forall|i: int, j: int|
        0 <= i < j < items.len() ==> #[trigger] items[i] != #[trigger] items[j]
}

/// The models of the values of a sequence, one for one.
pub open spec fn views(items: Seq<Value>) -> Seq<Data> {
    Seq::new(items.len(), |i: int| items[i]@)
}

/// Every value of the sequence meets the invariant.
pub open spec fn all_wf(items: Seq<Value>) -> bool {
    forall|i: int| 0 <= i < items.len() ==> (#[trigger] items[i])@.wf()
}

/// The model of a value.
pub open spec fn data(v: Value) -> Data
    decreases v,
{
    match v {
        Value::Okay => Data::Okay,
        Value::Pong => Data::Pong,
        Value::Nil => Data::Nil,
        Value::Simple(s) => Data::Simple(s@),
        Value::Error(s) => Data::Error(s@),
        Value::Integer(i) => Data::Integer(i),
        Value::String(s) => Data::String(s@),
        Value::Multi(v) => Data::Multi(
            Seq::new(v@.len(), |i: int| if 0 <= i < v@.len() { data(v@[i]) } else { Data::Nil }),
        ),
        Value::Expire(inner, at) => Data::Expire(Box::new(data(*inner)), at),
        Value::Hashmap(m) => Data::Hashmap(
            Seq::new(
                m@.len(),
                |i: int|
                    if 0 <= i < m@.len() {
                        let e = m@[i];
                        (data(e.0), data(e.1))
                    } else {
                        (Data::Nil, Data::Nil)
                    },
            ),
        ),
        Value::Hashset(s) => Data::Hashset(
            Seq::new(s@.len(), |i: int| if 0 <= i < s@.len() { data(s@[i]) } else { Data::Nil }),
        ),
    }
}

impl View for Value {
    type V = Data;

    open spec fn view(&self) -> Data {
        data(*self)
    }
}

impl Clone for Value {
    #[verifier::loop_isolation(false)]
    fn clone(&self) -> (res: Self)
        ensures
            res@ == self@,
        decreases self,
    {
        match self {
            Value::Okay => Value::Okay,
            Value::Pong => Value::Pong,
            Value::Nil => Value::Nil,
            Value::Simple(s) => Value::Simple(s.clone()),
            Value::Error(s) => Value::Error(s.clone()),
            Value::Integer(i) => Value::Integer(*i),
            Value::String(s) => Value::String(s.clone()),
            Value::Multi(v) => {
                let mut out: VecDeque<Value> = VecDeque::new();
                let mut i: usize = 0;
                while i < v.len()
                    invariant
                        i <= v@.len(),
                        out@.len() == i,
                        forall|j: int| 0 <= j < i ==> out@[j]@ == v@[j]@,
                    decreases v@.len() - i,
                {
                    out.push_back(v[i].clone());
                    i += 1;
                }
                assert(Value::Multi(out)@->Multi_0 =~= self@->Multi_0);
                Value::Multi(out)
            },
            Value::Expire(inner, at) => Value::Expire(Box::new((&**inner).clone()), *at),
            Value::Hashmap(m) => {
                let mut out: Vec<(Value, Value)> = Vec::new();
                let mut i: usize = 0;
                while i < m.len()
                    invariant
                        i <= m@.len(),
                        out@.len() == i,
                        forall|j: int|
                            0 <= j < i ==> out@[j].0@ == m@[j].0@ && out@[j].1@ == m@[j].1@,
                    decreases m@.len() - i,
                {
                    out.push((m[i].0.clone(), m[i].1.clone()));
                    i += 1;
                }
                assert(Value::Hashmap(out)@->Hashmap_0 =~= self@->Hashmap_0);
                Value::Hashmap(out)
            },
            Value::Hashset(s) => {
                let mut out: Vec<Value> = Vec::new();
                let mut i: usize = 0;
                while i < s.len()
                    invariant
                        i <= s@.len(),
                        out@.len() == i,
                        forall|j: int| 0 <= j < i ==> out@[j]@ == s@[j]@,
                    decreases s@.len() - i,
                {
                    out.push(s[i].clone());
                    i += 1;
                }
                assert(Value::Hashset(out)@->Hashset_0 =~= self@->Hashset_0);
                Value::Hashset(out)
            },
        }
    }
}

impl Value {
    /// Whether the value carries a deadline that `now`, a reading of the
    /// monotonic clock in milliseconds, has passed.
    pub fn expired(&self, now: u64) -> (r: bool)
        ensures
            r == self@.expired(now),
    {
        match self {
            Value::Expire(_, at) => now > *at,
            _ => false,
        }
    }

    /// Whether the value may be a key of a hash or a member of a set.
    pub fn is_scalar(&self) -> (r: bool)
        ensures
            r == self@.is_scalar(),
    {
        match self {
            Value::Multi(_) | Value::Expire(_, _) | Value::Hashmap(_) | Value::Hashset(_) => false,
            _ => true,
        }
    }

    /// Whether two values are the same scalar.
    pub fn same_scalar(&self, other: &Value) -> (r: bool)
        ensures
            r == (self@.is_scalar() && self@ == other@),
    {
        match (self, other) {
            (Value::Okay, Value::Okay) => true,
            (Value::Pong, Value::Pong) => true,
            (Value::Nil, Value::Nil) => true,
            (Value::Simple(a), Value::Simple(b)) => same_text(a.as_str(), b.as_str()),
            (Value::Error(a), Value::Error(b)) => same_text(a.as_str(), b.as_str()),
            (Value::Integer(a), Value::Integer(b)) => *a == *b,
            (Value::String(a), Value::String(b)) => same_text(a.as_str(), b.as_str()),
            _ => false,
        }
    }

    /// A look at the value without its deadline, if it has one.
    pub fn as_plain(&self) -> (r: &Value)
        ensures
            r@ == self@.plain(),
    {
        match self {
            Value::Expire(inner, _) => &**inner,
            other => other,
        }
    }

    /// The value without its deadline, if it has one.
    pub fn into_plain(self) -> (r: Value)
        ensures
            r@ == self@.plain(),
    {
        match self {
            Value::Expire(inner, _) => *inner,
            other => other,
        }
    }
}

impl From<Option<Value>> for Value {
    fn from(value: Option<Value>) -> (r: Self) {
        match value {
            Some(v) => v,
            None => Value::Nil,
        }
    }
}

impl FromSpecImpl<Option<Value>> for Value {
    open spec fn obeys_from_spec() -> bool {
        true
    }

    open spec fn from_spec(value: Option<Value>) -> Self {
        match value {
            Some(v) => v,
            None => Value::Nil,
        }
    }
}

impl From<String> for Value {
    fn from(value: String) -> (r: Self) {
        Value::String(value)
    }
}

impl FromSpecImpl<String> for Value {
    open spec fn obeys_from_spec() -> bool {
        true
    }

    open spec fn from_spec(value: String) -> Self {
        Value::String(value)
    }
}

impl From<VecDeque<Value>> for Value {
    fn from(value: VecDeque<Value>) -> (r: Self) {
        Value::Multi(value)
    }
}

impl FromSpecImpl<VecDeque<Value>> for Value {
    open spec fn obeys_from_spec() -> bool {
        true
    }

    open spec fn from_spec(value: VecDeque<Value>) -> Self {
        Value::Multi(value)
    }
}

impl From<i64> for Value {
    fn from(value: i64) -> (r: Self) {
        Value::Integer(value)
    }
}

impl FromSpecImpl<i64> for Value {
    open spec fn obeys_from_spec() -> bool {
        true
    }

    open spec fn from_spec(value: i64) -> Self {
        Value::Integer(value)
    }
}

} // verus!
