//! What a connection has agreed on with its peer.

use crate::storage::encode::resp;
use crate::storage::value::Value;
use vstd::prelude::*;

pub mod state;

verus! {

/// The state of one connection: the version of the protocol in which its
/// replies are written where the two versions differ.
pub struct Session {
    proto_version: u8,
}

impl Session {
    /// The version of the protocol: 2 until the peer asks for 3.
    pub closed spec fn proto(&self) -> u8 {
        if self.proto_version == 3 {
            3
        } else {
            2
        }
    }

    /// A session in version 2 of the protocol.
    pub fn new() -> (s: Session)
        ensures
            s.proto() == 2,
    {
        Session { proto_version: 2 }
    }

    /// The version of the protocol.
    pub fn get_proto_version(&self) -> (v: i64)
        ensures
            v == self.proto(),
    {
        if self.proto_version == 3 {
            3
        } else {
            2
        }
    }

    /// Takes up `version` where it is 2 or 3, and keeps the version that
    /// the session has where it is neither.
    pub fn set_proto_version(&mut self, version: i64)
        ensures
            final(self).proto() == if version == 2 || version == 3 {
                version as u8
            } else {
                old(self).proto()
            },
    {
        if version == 3 {
            self.proto_version = 3;
        } else if version == 2 {
            self.proto_version = 2;
        }
    }

    /// Writes `response` to `writer` in the session's version of the
    /// protocol, as a reader at `now` sees it.
    pub fn versioned_response(&self, response: &Value, writer: &mut Vec<u8>, now: u64)
        ensures
            final(writer)@ == old(writer)@ + resp(response@, self.proto() as int, now),
    {
        response.to_resp(writer, if self.proto_version == 3 { 3 } else { 2 }, now)
    }
}

} // verus!
