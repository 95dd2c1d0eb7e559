use crate::clock::Reading;
use crate::commands::{lemma_written, refusal, text_of_value, write_error, CommandTrait, Outcome};
use crate::context::{Context, World};
use crate::error::Error;
use crate::session::Session;
use crate::storage::value::{views, Data, Value};
use crate::storage::encode::resp;
use std::collections::VecDeque;
use vstd::prelude::*;

verus! {

/// `HGETALL key`: the hash under a key.
#[derive(Clone, Copy, Debug, PartialEq, Eq, Structural)]
pub struct HGetAll;

impl HGetAll {
    /// One argument, a bulk string: the reply is the hash that the key
    /// holds, or `Nil` where the key holds nothing or what it holds has
    /// expired, in the session's version of the protocol; and an error where
    /// the key holds a value that is no hash.
    pub open spec fn outcome(args: Seq<Data>, pre: World, proto: u8, now: Reading) -> Outcome {
        if args.len() != 1 {
            refusal(pre, proto, now, "Invalid number of arguments"@)
        } else {
            match args[0] {
                Data::String(key) => if !pre.live(key, now.now) {
                    Outcome {
                        world: pre,
                        proto,
                        reply: resp(Data::Nil, proto as int, now.now),
                        failed: false,
                    }
                } else if pre.store[key].plain() is Hashmap {
                    Outcome {
                        world: pre,
                        proto,
                        reply: resp(pre.store[key].plain(), proto as int, now.now),
                        failed: false,
                    }
                } else {
                    refusal(pre, proto, now, "Key is not a hashmap"@)
                },
                _ => refusal(pre, proto, now, "Invalid key"@),
            }
        }
    }
}

impl CommandTrait for HGetAll {
    open spec fn spec_name(&self) -> Seq<char> {
        "HGETALL"@
    }

    open spec fn admits(
        &self,
        args: Seq<Data>,
        pre: World,
        proto: u8,
        now: Reading,
        out: Outcome,
    ) -> bool {
        out == HGetAll::outcome(args, pre, proto, now)
    }

    fn name(&self) -> (r: &'static str) {
        "HGETALL"
    }

    fn handle_command(
        &self,
        writer: &mut Vec<u8>,
        args: &mut VecDeque<Value>,
        session: &mut Session,
        context: &mut Context,
        now: Reading,
    ) -> (r: Result<(), Error>) {
        let ghost expected = HGetAll::outcome(views(args@), context@, session.proto(), now);
        if args.len() != 1 {
            write_error(writer, "Invalid number of arguments", now);
        } else {
            match text_of_value(&args[0]) {
                Some(key) => match context.store.get(key.as_str()) {
                    Some(v) => {
                        if v.expired(now.now) {
                            session.versioned_response(&Value::Nil, writer, now.now);
                        } else {
                            let plain = v.as_plain();
                            match plain {
                                Value::Hashmap(_) => session.versioned_response(
                                    plain,
                                    writer,
                                    now.now,
                                ),
                                _ => write_error(writer, "Key is not a hashmap", now),
                            }
                        }
                    },
                    None => session.versioned_response(&Value::Nil, writer, now.now),
                },
                None => write_error(writer, "Invalid key", now),
            }
        }
        args.clear();
        proof {
            lemma_written(old(writer)@, expected.reply);
        }
        Ok(())
    }
}

} // verus!
