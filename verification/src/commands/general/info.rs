use crate::clock::Reading;
use crate::commands::{answer, lemma_written, refusal, write_error, CommandTrait, Outcome};
use crate::context::{Context, World};
use crate::error::Error;
use crate::session::Session;
use crate::storage::value::{views, Data, Value};
use std::collections::VecDeque;
use vstd::prelude::*;

verus! {

/// `INFO`: the state of the server.
#[derive(Clone, Copy, Debug, PartialEq, Eq, Structural)]
pub struct Info;

impl Info {
    /// No argument: the reply is the bulk string `loading:0`.
    pub open spec fn outcome(args: Seq<Data>, pre: World, proto: u8, now: Reading) -> Outcome {
        if args.len() > 0 {
            refusal(pre, proto, now, "Invalid number of arguments"@)
        } else {
            answer(pre, proto, now, Data::String("loading:0"@))
        }
    }
}

impl CommandTrait for Info {
    open spec fn spec_name(&self) -> Seq<char> {
        "INFO"@
    }

    open spec fn admits(
        &self,
        args: Seq<Data>,
        pre: World,
        proto: u8,
        now: Reading,
        out: Outcome,
    ) -> bool {
        out == Info::outcome(args, pre, proto, now)
    }

    fn name(&self) -> (r: &'static str) {
        "INFO"
    }

    fn handle_command(
        &self,
        writer: &mut Vec<u8>,
        args: &mut VecDeque<Value>,
        session: &mut Session,
        context: &mut Context,
        now: Reading,
    ) -> (r: Result<(), Error>) {
        let ghost expected = Info::outcome(views(args@), context@, session.proto(), now);
        if args.len() > 0 {
            write_error(writer, "Invalid number of arguments", now);
        } else {
            Value::String(crate::text::owned("loading:0")).to_resp2(writer, now.now);
        }
        args.clear();
        proof {
            lemma_written(old(writer)@, expected.reply);
        }
        Ok(())
    }
}

} // verus!
