use crate::clock::Reading;
use crate::commands::{answer, lemma_written, refusal, write_error, CommandTrait, Outcome};
use crate::context::{Context, World};
use crate::error::Error;
use crate::session::Session;
use crate::storage::value::{views, Data, Value};
use std::collections::VecDeque;
use vstd::prelude::*;

verus! {

/// `PING [message]`: a sign of life.
#[derive(Clone, Copy, Debug, PartialEq, Eq, Structural)]
pub struct Ping;

impl Ping {
    /// At most one argument: the reply is the argument, or `PONG` where
    /// there is none.
    pub open spec fn outcome(args: Seq<Data>, pre: World, proto: u8, now: Reading) -> Outcome {
        if args.len() > 1 {
            refusal(pre, proto, now, "Invalid number of arguments"@)
        } else if args.len() == 1 {
            answer(pre, proto, now, args[0])
        } else {
            answer(pre, proto, now, Data::Pong)
        }
    }
}

impl CommandTrait for Ping {
    open spec fn spec_name(&self) -> Seq<char> {
        "PING"@
    }

    open spec fn admits(
        &self,
        args: Seq<Data>,
        pre: World,
        proto: u8,
        now: Reading,
        out: Outcome,
    ) -> bool {
        out == Ping::outcome(args, pre, proto, now)
    }

    fn name(&self) -> (r: &'static str) {
        "PING"
    }

    fn handle_command(
        &self,
        writer: &mut Vec<u8>,
        args: &mut VecDeque<Value>,
        session: &mut Session,
        context: &mut Context,
        now: Reading,
    ) -> (r: Result<(), Error>) {
        let ghost expected = Ping::outcome(views(args@), context@, session.proto(), now);
        if args.len() > 1 {
            write_error(writer, "Invalid number of arguments", now);
        } else if args.len() == 1 {
            args[0].to_resp2(writer, now.now);
        } else {
            Value::Pong.to_resp2(writer, now.now);
        }
        args.clear();
        proof {
            lemma_written(old(writer)@, expected.reply);
        }
        Ok(())
    }
}

} // verus!
