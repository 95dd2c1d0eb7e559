//! The commands, and the table that finds them by name.

use crate::clock::Reading;
use crate::context::{Context, World};
use crate::error::Error;
use crate::session::Session;
use crate::storage::encode::resp2;
use crate::storage::value::{all_wf, views, Data, Value};
use crate::text::owned;
use std::collections::VecDeque;
use vstd::prelude::*;

pub mod expire;
pub mod general;
pub mod hash;
pub mod table;

verus! {

/// What a command has done when it returns.
#[verifier::ext_equal]
pub struct Outcome {
    /// The store and the index.
    pub world: World,
    /// The session's version of the protocol.
    pub proto: u8,
    /// What has been written to the peer.
    pub reply: Seq<u8>,
    /// Whether the command ended in an error that closes the connection.
    pub failed: bool,
}

/// The outcome of a command that changes nothing and replies with `value`
/// in the older syntax.
pub open spec fn answer(pre: World, proto: u8, now: Reading, value: Data) -> Outcome {
    Outcome { world: pre, proto, reply: resp2(value, now.now), failed: false }
}

/// The outcome of a command that refuses its arguments: nothing changes, and
/// the reply is an error with the given message.
pub open spec fn refusal(pre: World, proto: u8, now: Reading, message: Seq<char>) -> Outcome {
    answer(pre, proto, now, Data::Error(message))
}

/// What was written to `after` beyond `before`.
pub open spec fn written(before: Seq<u8>, after: Seq<u8>) -> Seq<u8> {
    after.skip(before.len() as int)
}

/// What is appended is what was written.
pub proof fn lemma_written(before: Seq<u8>, bytes: Seq<u8>)
    ensures
        written(before, before + bytes) == bytes,
        before.is_prefix_of(before + bytes),
{
    assert((before + bytes).skip(before.len() as int) =~= bytes);
}

/// A command of the server.
pub trait CommandTrait {
    /// The name by which the command is called, in upper case.
    spec fn spec_name(&self) -> Seq<char>;

    /// Whether `out` is an outcome of the command, called with the
    /// arguments `args`, which follow its name in the request, on the world
    /// `pre` in a session of the version `proto` while the clocks show
    /// `now`.
    spec fn admits(&self, args: Seq<Data>, pre: World, proto: u8, now: Reading, out: Outcome) -> bool;

    /// The name by which the command is called.
    fn name(&self) -> (r: &'static str)
        ensures
            r@ == self.spec_name(),
    ;

    /// Carries the command out: checks the arguments, works on the store and
    /// the index, and writes one reply to `writer`. The arguments are used
    /// up. The only error of a command is that of a pattern which does not
    /// compile.
    fn handle_command(
        &self,
        writer: &mut Vec<u8>,
        args: &mut VecDeque<Value>,
        session: &mut Session,
        context: &mut Context,
        now: Reading,
    ) -> (r: Result<(), Error>)
        requires
            old(context).wf(),
            all_wf(old(args)@),
        ensures
            final(context).wf(),
            final(args)@.len() == 0,
            old(writer)@.is_prefix_of(final(writer)@),
            r matches Err(e) ==> e is Glob,
            self.admits(
                views(old(args)@),
                old(context)@,
                old(session).proto(),
                now,
                (Outcome {
                    world: final(context)@,
                    proto: final(session).proto(),
                    reply: written(old(writer)@, final(writer)@),
                    failed: r is Err,
                }),
            ),
    ;
}

/// Writes an error with the given message to `writer`.
pub fn write_error(writer: &mut Vec<u8>, message: &str, now: Reading)
    ensures
        final(writer)@ == old(writer)@ + resp2(Data::Error(message@), now.now),
{
    Value::Error(owned(message)).to_resp2(writer, now.now)
}

/// The text of a bulk string, and nothing for any other value.
pub fn text_of_value(v: &Value) -> (r: Option<&String>)
    ensures
        match r {
            Some(s) => v@ == Data::String(s@),
            None => !(v@ is String),
        },
{
    match v {
        Value::String(s) => Some(s),
        _ => None,
    }
}

/// Every one of the values is a bulk string.
pub open spec fn all_strings(args: Seq<Data>) -> bool {
    forall|i: int| 0 <= i < args.len() ==> #[trigger] args[i] is String
}

/// The text of a bulk string.
pub open spec fn key_of(d: Data) -> Seq<char> {
    d->String_0
}

/// A count as an integer of the protocol: the greatest integer there is
/// where the count is beyond it.
pub open spec fn counted(n: int) -> Data {
    Data::Integer(
        if n > i64::MAX {
            i64::MAX
        } else {
            n as i64
        },
    )
}

/// Checks that every one of the arguments is a bulk string.
pub fn all_texts(args: &VecDeque<Value>) -> (r: bool)
    ensures
        r == all_strings(views(args@)),
{
    let mut i: usize = 0;
    while i < args.len()
        invariant
            i <= args@.len(),
            forall|j: int| 0 <= j < i ==> #[trigger] views(args@)[j] is String,
        decreases args@.len() - i,
    {
        if text_of_value(&args[i]).is_none() {
            assert(!(views(args@)[i as int] is String));
            return false;
        }
        i += 1;
    }
    true
}

/// Writes a count to `writer`.
pub fn write_count(writer: &mut Vec<u8>, n: u64, now: Reading)
    ensures
        final(writer)@ == old(writer)@ + resp2(counted(n as int), now.now),
{
    let v: i64 = if n > 0x7fff_ffff_ffff_ffff {
        0x7fff_ffff_ffff_ffff
    } else {
        n as i64
    };
    Value::Integer(v).to_resp2(writer, now.now)
}

} // verus!
