use crate::clock::Reading;
use crate::commands::{answer, lemma_written, refusal, text_of_value, write_error, CommandTrait, Outcome};
use crate::context::{Context, World};
use crate::error::Error;
use crate::session::Session;
use crate::storage::value::{views, Data, Value};
use std::collections::VecDeque;
use vstd::prelude::*;

verus! {

/// `GET key`: the value under a key.
#[derive(Clone, Copy, Debug, PartialEq, Eq, Structural)]
pub struct Get;

impl Get {
    /// One argument, a bulk string: the reply is what the key holds, as it
    /// is stored, so that it reads as `Nil` once its deadline has passed,
    /// and `Nil` where the key holds nothing.
    pub open spec fn outcome(args: Seq<Data>, pre: World, proto: u8, now: Reading) -> Outcome {
        if args.len() != 1 {
            refusal(pre, proto, now, "Invalid number of arguments"@)
        } else {
            match args[0] {
                Data::String(key) => answer(
                    pre,
                    proto,
                    now,
                    if pre.store.contains_key(key) {
                        pre.store[key]
                    } else {
                        Data::Nil
                    },
                ),
                _ => refusal(pre, proto, now, "Invalid key"@),
            }
        }
    }
}

impl CommandTrait for Get {
    open spec fn spec_name(&self) -> Seq<char> {
        "GET"@
    }

    open spec fn admits(
        &self,
        args: Seq<Data>,
        pre: World,
        proto: u8,
        now: Reading,
        out: Outcome,
    ) -> bool {
        out == Get::outcome(args, pre, proto, now)
    }

    fn name(&self) -> (r: &'static str) {
        "GET"
    }

    fn handle_command(
        &self,
        writer: &mut Vec<u8>,
        args: &mut VecDeque<Value>,
        session: &mut Session,
        context: &mut Context,
        now: Reading,
    ) -> (r: Result<(), Error>) {
        let ghost expected = Get::outcome(views(args@), context@, session.proto(), now);
        if args.len() != 1 {
            write_error(writer, "Invalid number of arguments", now);
        } else {
            match text_of_value(&args[0]) {
                Some(key) => match context.store.get(key.as_str()) {
                    Some(value) => value.to_resp2(writer, now.now),
                    None => Value::Nil.to_resp2(writer, now.now),
                },
                None => write_error(writer, "Invalid key", now),
            }
        }
        args.clear();
        proof {
            lemma_written(old(writer)@, expected.reply);
        }
        Ok(())
    }
}

} // verus!
