use crate::clock::Reading;
use crate::commands::{answer, lemma_written, refusal, text_of_value, write_error, CommandTrait, Outcome};
use crate::context::{Context, World};
use crate::error::Error;
use crate::session::Session;
use crate::storage::value::{views, Data, Value};
use crate::clock::{after, deadline_in_seconds};
use crate::commands::expire::{read_seconds, seconds_of};
use std::collections::VecDeque;
use vstd::prelude::*;

verus! {

/// `SETEX key seconds value`: puts a value under a key with a deadline.
#[derive(Clone, Copy, Debug, PartialEq, Eq, Structural)]
pub struct SetEx;

impl SetEx {
    /// Three arguments, a bulk string, the seconds, which are not negative,
    /// and a value: the value stands under the key afterwards with the
    /// deadline that falls so many seconds after `now`, the key is noted in
    /// the deadline index, and the reply is `OK`.
    pub open spec fn outcome(args: Seq<Data>, pre: World, proto: u8, now: Reading) -> Outcome {
        if args.len() != 3 {
            refusal(pre, proto, now, "Invalid number of arguments"@)
        } else {
            match args[0] {
                Data::String(key) => match seconds_of(args[1]) {
                    None => refusal(pre, proto, now, "Invalid seconds"@),
                    Some(seconds) => if seconds < 0 {
                        refusal(pre, proto, now, "Invalid seconds"@)
                    } else {
                        answer(
                            pre.put(
                                key,
                                Data::Expire(
                                    Box::new(args[2].plain()),
                                    after(now.now, seconds * 1000),
                                ),
                            ).note(key),
                            proto,
                            now,
                            Data::Okay,
                        )
                    },
                },
                _ => refusal(pre, proto, now, "Invalid key"@),
            }
        }
    }
}

impl CommandTrait for SetEx {
    open spec fn spec_name(&self) -> Seq<char> {
        "SETEX"@
    }

    open spec fn admits(
        &self,
        args: Seq<Data>,
        pre: World,
        proto: u8,
        now: Reading,
        out: Outcome,
    ) -> bool {
        out == SetEx::outcome(args, pre, proto, now)
    }

    fn name(&self) -> (r: &'static str) {
        "SETEX"
    }

    fn handle_command(
        &self,
        writer: &mut Vec<u8>,
        args: &mut VecDeque<Value>,
        session: &mut Session,
        context: &mut Context,
        now: Reading,
    ) -> (r: Result<(), Error>) {
        let ghost expected = SetEx::outcome(views(args@), context@, session.proto(), now);
        if args.len() != 3 {
            write_error(writer, "Invalid number of arguments", now);
        } else {
            let seconds = read_seconds(&args[1]);
            let is_key = text_of_value(&args[0]).is_some();
            if !is_key {
                write_error(writer, "Invalid key", now);
            } else {
                match seconds {
                    None => write_error(writer, "Invalid seconds", now),
                    Some(seconds) => {
                        if seconds < 0 {
                            write_error(writer, "Invalid seconds", now);
                        } else {
                            let ghost given = args@;
                            let key = args.pop_front().unwrap();
                            let _ = args.pop_front();
                            let value = args.pop_front().unwrap();
                            assert(value == given[2]);
                            assert(value@.wf());
                            let at = deadline_in_seconds(now.now, seconds);
                            let plain = value.into_plain();
                            match key {
                                Value::String(k) => {
                                    context.store.insert(
                                        k.clone(),
                                        Value::Expire(Box::new(plain), at),
                                    );
                                    context.expire_keys.insert(k);
                                },
                                _ => {},
                            }
                            Value::Okay.to_resp2(writer, now.now);
                        }
                    },
                }
            }
        }
        args.clear();
        proof {
            lemma_written(old(writer)@, expected.reply);
        }
        Ok(())
    }
}

} // verus!
