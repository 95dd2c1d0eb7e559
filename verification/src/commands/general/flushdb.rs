use crate::clock::Reading;
use crate::commands::{answer, lemma_written, refusal, write_error, CommandTrait, Outcome};
use crate::context::{Context, World};
use crate::error::Error;
use crate::session::Session;
use crate::storage::value::{views, Data, Value};
use std::collections::VecDeque;
use vstd::prelude::*;

verus! {

/// `FLUSHDB [mode]`: empties the store.
#[derive(Clone, Copy, Debug, PartialEq, Eq, Structural)]
pub struct FlushDB;

impl FlushDB {
    /// At most one argument, which is not looked at: the store is empty
    /// afterwards, the deadline index is as it was, and the reply is `OK`.
    pub open spec fn outcome(args: Seq<Data>, pre: World, proto: u8, now: Reading) -> Outcome {
        if args.len() > 1 {
            refusal(pre, proto, now, "Invalid number of arguments"@)
        } else {
            answer(
                (World { store: Map::empty(), order: Seq::empty(), deadlines: pre.deadlines }),
                proto,
                now,
                Data::Okay,
            )
        }
    }
}

impl CommandTrait for FlushDB {
    open spec fn spec_name(&self) -> Seq<char> {
        "FLUSHDB"@
    }

    open spec fn admits(
        &self,
        args: Seq<Data>,
        pre: World,
        proto: u8,
        now: Reading,
        out: Outcome,
    ) -> bool {
        out == FlushDB::outcome(args, pre, proto, now)
    }

    fn name(&self) -> (r: &'static str) {
        "FLUSHDB"
    }

    fn handle_command(
        &self,
        writer: &mut Vec<u8>,
        args: &mut VecDeque<Value>,
        session: &mut Session,
        context: &mut Context,
        now: Reading,
    ) -> (r: Result<(), Error>) {
        let ghost expected = FlushDB::outcome(views(args@), context@, session.proto(), now);
        if args.len() > 1 {
            write_error(writer, "Invalid number of arguments", now);
        } else {
            context.store.clear();
            Value::Okay.to_resp2(writer, now.now);
        }
        args.clear();
        proof {
            lemma_written(old(writer)@, expected.reply);
        }
        Ok(())
    }
}

} // verus!
