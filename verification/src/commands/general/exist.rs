use crate::clock::Reading;
use crate::commands::{all_strings, all_texts, answer, counted, key_of, lemma_written, refusal, text_of_value, write_count, write_error, CommandTrait, Outcome};
use crate::context::{Context, World};
use crate::error::Error;
use crate::session::Session;
use crate::storage::value::{views, Data, Value};
use std::collections::VecDeque;
use vstd::prelude::*;

verus! {

/// `EXISTS key [key ...]`: counts the keys that hold a value.
#[derive(Clone, Copy, Debug, PartialEq, Eq, Structural)]
pub struct Exists;

impl Exists {
    /// How many of the keys `keys[k..]` hold a value that has not expired
    /// at `now`; a key that is named twice counts twice.
    pub open spec fn count(w: World, keys: Seq<Data>, k: int, now: u64) -> int
        decreases keys.len() - k,
    {
        if 0 <= k < keys.len() {
            (if w.live(key_of(keys[k]), now) {
                1int
            } else {
                0int
            }) + Exists::count(w, keys, k + 1, now)
        } else {
            0
        }
    }

    /// At least one argument, all of them bulk strings: the reply is the
    /// number of keys that hold a value which has not expired.
    pub open spec fn outcome(args: Seq<Data>, pre: World, proto: u8, now: Reading) -> Outcome {
        if args.len() < 1 {
            refusal(pre, proto, now, "Invalid number of arguments"@)
        } else if !all_strings(args) {
            refusal(pre, proto, now, "Invalid key"@)
        } else {
            answer(pre, proto, now, counted(Exists::count(pre, args, 0, now.now)))
        }
    }
}

impl CommandTrait for Exists {
    open spec fn spec_name(&self) -> Seq<char> {
        "EXISTS"@
    }

    open spec fn admits(
        &self,
        args: Seq<Data>,
        pre: World,
        proto: u8,
        now: Reading,
        out: Outcome,
    ) -> bool {
        out == Exists::outcome(args, pre, proto, now)
    }

    fn name(&self) -> (r: &'static str) {
        "EXISTS"
    }

    fn handle_command(
        &self,
        writer: &mut Vec<u8>,
        args: &mut VecDeque<Value>,
        session: &mut Session,
        context: &mut Context,
        now: Reading,
    ) -> (r: Result<(), Error>) {
        let ghost keys = views(args@);
        let ghost expected = Exists::outcome(keys, context@, session.proto(), now);
        if args.len() < 1 {
            write_error(writer, "Invalid number of arguments", now);
        } else if !all_texts(args) {
            write_error(writer, "Invalid key", now);
        } else {
            let mut count: u64 = 0;
            let mut i: usize = 0;
            while i < args.len()
                invariant
                    i <= args@.len(),
                    keys == views(args@),
                    all_strings(keys),
                    count <= i,
                    count + Exists::count(context@, keys, i as int, now.now) == Exists::count(
                        context@,
                        keys,
                        0,
                        now.now,
                    ),
                decreases args@.len() - i,
            {
                assert(keys[i as int] is String);
                match text_of_value(&args[i]) {
                    Some(key) => match context.store.get(key.as_str()) {
                        Some(v) => {
                            if !v.expired(now.now) {
                                count += 1;
                            }
                        },
                        None => {},
                    },
                    None => {},
                }
                i += 1;
            }
            write_count(writer, count, now);
        }
        args.clear();
        proof {
            lemma_written(old(writer)@, expected.reply);
        }
        Ok(())
    }
}

} // verus!
