//! The commands that give a key a deadline or tell how far it is.

use crate::storage::value::{Data, Value};
use crate::text::{int_of_text, parse_int};
use vstd::prelude::*;
use vstd::utf8::encode_utf8;

pub mod expire;
pub mod setex;
pub mod ttl;

verus! {

/// The seconds that an argument gives: an integer as it is, a bulk string
/// as the integer that it spells and as -1 where it spells none, and nothing
/// for any other value.
pub open spec fn seconds_of(d: Data) -> Option<int> {
    match d {
        Data::Integer(s) => Some(s as int),
        Data::String(t) => match parse_int(encode_utf8(t)) {
            Some(s) => Some(s),
            None => Some(-1),
        },
        _ => None,
    }
}

/// Reads the seconds that an argument gives.
pub fn read_seconds(v: &Value) -> (r: Option<i64>)
    ensures
        match r {
            Some(s) => seconds_of(v@) == Some(s as int),
            None => seconds_of(v@) is None,
        },
{
    match v {
        Value::Integer(s) => Some(*s),
        Value::String(t) => match int_of_text(t.as_str()) {
            Some(s) => Some(s),
            None => Some(-1),
        },
        _ => None,
    }
}

} // verus!
