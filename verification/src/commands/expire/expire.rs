use crate::clock::Reading;
use crate::commands::{answer, lemma_written, refusal, text_of_value, write_error, CommandTrait, Outcome};
use crate::context::{Context, World};
use crate::error::Error;
use crate::session::Session;
use crate::storage::value::{views, Data, Value};
use crate::clock::{after, deadline_in_seconds};
use crate::commands::expire::{read_seconds, seconds_of};
use std::collections::VecDeque;
use vstd::prelude::*;

verus! {

/// `EXPIRE key seconds`: gives a key a deadline.
#[derive(Clone, Copy, Debug, PartialEq, Eq, Structural)]
pub struct Expire;

impl Expire {
    /// Two arguments, a bulk string and the seconds, which are not
    /// negative: the value under the key, which must be there and not
    /// expired, stays under it with the deadline that falls so many seconds
    /// after `now`, in place of the deadline that it had; the key is noted
    /// in the deadline index, and the reply is `OK`.
    pub open spec fn outcome(args: Seq<Data>, pre: World, proto: u8, now: Reading) -> Outcome {
        if args.len() != 2 {
            refusal(pre, proto, now, "Invalid number of arguments"@)
        } else {
            match args[0] {
                Data::String(key) => match seconds_of(args[1]) {
                    None => refusal(pre, proto, now, "Invalid seconds"@),
                    Some(seconds) => if seconds < 0 {
                        refusal(pre, proto, now, "Invalid seconds"@)
                    } else if !pre.live(key, now.now) {
                        refusal(pre, proto, now, "Key not found"@)
                    } else {
                        answer(
                            pre.put(
                                key,
                                Data::Expire(
                                    Box::new(pre.store[key].plain()),
                                    after(now.now, seconds * 1000),
                                ),
                            ).note(key),
                            proto,
                            now,
                            Data::Okay,
                        )
                    },
                },
                _ => refusal(pre, proto, now, "Invalid key"@),
            }
        }
    }
}

impl CommandTrait for Expire {
    open spec fn spec_name(&self) -> Seq<char> {
        "EXPIRE"@
    }

    open spec fn admits(
        &self,
        args: Seq<Data>,
        pre: World,
        proto: u8,
        now: Reading,
        out: Outcome,
    ) -> bool {
        out == Expire::outcome(args, pre, proto, now)
    }

    fn name(&self) -> (r: &'static str) {
        "EXPIRE"
    }

    fn handle_command(
        &self,
        writer: &mut Vec<u8>,
        args: &mut VecDeque<Value>,
        session: &mut Session,
        context: &mut Context,
        now: Reading,
    ) -> (r: Result<(), Error>) {
        let ghost expected = Expire::outcome(views(args@), context@, session.proto(), now);
        proof {
            context.lemma_wf();
        }
        if args.len() != 2 {
            write_error(writer, "Invalid number of arguments", now);
        } else {
            match text_of_value(&args[0]) {
                Some(key) => match read_seconds(&args[1]) {
                    None => write_error(writer, "Invalid seconds", now),
                    Some(seconds) => {
                        if seconds < 0 {
                            write_error(writer, "Invalid seconds", now);
                        } else {
                            let held = match context.store.get(key.as_str()) {
                                Some(v) => if v.expired(now.now) {
                                    None
                                } else {
                                    Some(v.clone())
                                },
                                None => None,
                            };
                            match held {
                                None => write_error(writer, "Key not found", now),
                                Some(v) => {
                                    let at = deadline_in_seconds(now.now, seconds);
                                    let plain = v.into_plain();
                                    assert(plain@.wf() && !(plain@ is Expire)) by {
                                        assert(context@.store[key@].wf());
                                    }
                                    context.store.insert(
                                        key.clone(),
                                        Value::Expire(Box::new(plain), at),
                                    );
                                    context.expire_keys.insert(key.clone());
                                    Value::Okay.to_resp2(writer, now.now);
                                },
                            }
                        }
                    },
                },
                None => write_error(writer, "Invalid key", now),
            }
        }
        args.clear();
        proof {
            lemma_written(old(writer)@, expected.reply);
        }
        Ok(())
    }
}

} // verus!
