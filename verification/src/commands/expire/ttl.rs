use crate::clock::Reading;
use crate::commands::{answer, lemma_written, refusal, text_of_value, write_error, CommandTrait, Outcome};
use crate::context::{Context, World};
use crate::error::Error;
use crate::session::Session;
use crate::storage::value::{views, Data, Value};
use std::collections::VecDeque;
use vstd::prelude::*;

verus! {

/// `TTL key`: how long a key has to live.
#[derive(Clone, Copy, Debug, PartialEq, Eq, Structural)]
pub struct Ttl;

impl Ttl {
    /// What is said of a key: the whole seconds from `now` to the deadline
    /// of its value where that has one which has not passed, -1 where the
    /// value has no deadline, and -2 where the key holds nothing or the
    /// deadline of what it holds has passed.
    pub open spec fn verdict(w: World, key: Seq<char>, now: u64) -> int {
        if !w.store.contains_key(key) {
            -2
        } else {
            match w.store[key] {
                Data::Expire(_, at) => if now > at {
                    -2
                } else {
                    (at - now) / 1000
                },
                _ => -1,
            }
        }
    }

    /// One argument, a bulk string: the reply is the integer that `verdict`
    /// gives for the key.
    pub open spec fn outcome(args: Seq<Data>, pre: World, proto: u8, now: Reading) -> Outcome {
        if args.len() != 1 {
            refusal(pre, proto, now, "Invalid number of arguments"@)
        } else {
            match args[0] {
                Data::String(key) => answer(
                    pre,
                    proto,
                    now,
                    Data::Integer(Ttl::verdict(pre, key, now.now) as i64),
                ),
                _ => refusal(pre, proto, now, "Invalid key"@),
            }
        }
    }
}

impl CommandTrait for Ttl {
    open spec fn spec_name(&self) -> Seq<char> {
        "TTL"@
    }

    open spec fn admits(
        &self,
        args: Seq<Data>,
        pre: World,
        proto: u8,
        now: Reading,
        out: Outcome,
    ) -> bool {
        out == Ttl::outcome(args, pre, proto, now)
    }

    fn name(&self) -> (r: &'static str) {
        "TTL"
    }

    fn handle_command(
        &self,
        writer: &mut Vec<u8>,
        args: &mut VecDeque<Value>,
        session: &mut Session,
        context: &mut Context,
        now: Reading,
    ) -> (r: Result<(), Error>) {
        let ghost expected = Ttl::outcome(views(args@), context@, session.proto(), now);
        if args.len() != 1 {
            write_error(writer, "Invalid number of arguments", now);
        } else {
            match text_of_value(&args[0]) {
                Some(key) => {
                    let left: i64 = match context.store.get(key.as_str()) {
                        Some(Value::Expire(_, at)) => {
                            if now.now > *at {
                                -2
                            } else {
                                ((*at - now.now) / 1000) as i64
                            }
                        },
                        Some(_) => -1,
                        None => -2,
                    };
                    Value::Integer(left).to_resp2(writer, now.now);
                },
                None => write_error(writer, "Invalid key", now),
            }
        }
        args.clear();
        proof {
            lemma_written(old(writer)@, expected.reply);
        }
        Ok(())
    }
}

} // verus!
