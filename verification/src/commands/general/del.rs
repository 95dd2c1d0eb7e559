use crate::clock::Reading;
use crate::commands::{all_strings, all_texts, answer, counted, key_of, lemma_written, refusal, text_of_value, write_count, write_error, CommandTrait, Outcome};
use crate::context::{Context, World};
use crate::error::Error;
use crate::session::Session;
use crate::storage::value::{views, Data, Value};
use std::collections::VecDeque;
use vstd::prelude::*;

verus! {

/// `DEL key [key ...]`: takes keys out of the store.
#[derive(Clone, Copy, Debug, PartialEq, Eq, Structural)]
pub struct Del;

impl Del {
    /// The world after the keys `keys[k..]` have been taken out in turn.
    pub open spec fn removed(w: World, keys: Seq<Data>, k: int) -> World
        decreases keys.len() - k,
    {
        if 0 <= k < keys.len() {
            Del::removed(w.del(key_of(keys[k])), keys, k + 1)
        } else {
            w
        }
    }

    /// How many of the keys `keys[k..]` hold a value when their turn comes
    /// to be taken out.
    pub open spec fn count(w: World, keys: Seq<Data>, k: int) -> int
        decreases keys.len() - k,
    {
        if 0 <= k < keys.len() {
            (if w.store.contains_key(key_of(keys[k])) {
                1int
            } else {
                0int
            }) + Del::count(w.del(key_of(keys[k])), keys, k + 1)
        } else {
            0
        }
    }

    /// At least one argument, all of them bulk strings: each key leaves the
    /// store with its value, whether or not the value has expired, and the
    /// reply is the number of keys that held one. The deadline index stays
    /// as it was.
    pub open spec fn outcome(args: Seq<Data>, pre: World, proto: u8, now: Reading) -> Outcome {
        if args.len() < 1 {
            refusal(pre, proto, now, "Invalid number of arguments"@)
        } else if !all_strings(args) {
            refusal(pre, proto, now, "Invalid key"@)
        } else {
            answer(Del::removed(pre, args, 0), proto, now, counted(Del::count(pre, args, 0)))
        }
    }
}

impl CommandTrait for Del {
    open spec fn spec_name(&self) -> Seq<char> {
        "DEL"@
    }

    open spec fn admits(
        &self,
        args: Seq<Data>,
        pre: World,
        proto: u8,
        now: Reading,
        out: Outcome,
    ) -> bool {
        out == Del::outcome(args, pre, proto, now)
    }

    fn name(&self) -> (r: &'static str) {
        "DEL"
    }

    fn handle_command(
        &self,
        writer: &mut Vec<u8>,
        args: &mut VecDeque<Value>,
        session: &mut Session,
        context: &mut Context,
        now: Reading,
    ) -> (r: Result<(), Error>) {
        let ghost keys = views(args@);
        let ghost expected = Del::outcome(keys, context@, session.proto(), now);
        if args.len() < 1 {
            write_error(writer, "Invalid number of arguments", now);
        } else if !all_texts(args) {
            write_error(writer, "Invalid key", now);
        } else {
            let mut count: u64 = 0;
            let mut i: usize = 0;
            while i < args.len()
                invariant
                    i <= args@.len(),
                    keys == views(args@),
                    all_strings(keys),
                    context.wf(),
                    count <= i,
                    Del::removed(context@, keys, i as int) == Del::removed(old(context)@, keys, 0),
                    count + Del::count(context@, keys, i as int) == Del::count(
                        old(context)@,
                        keys,
                        0,
                    ),
                decreases args@.len() - i,
            {
                assert(keys[i as int] is String);
                match text_of_value(&args[i]) {
                    Some(key) => {
                        if context.store.discard(key.as_str()) {
                            count += 1;
                        }
                    },
                    None => {},
                }
                i += 1;
            }
            write_count(writer, count, now);
        }
        args.clear();
        proof {
            lemma_written(old(writer)@, expected.reply);
        }
        Ok(())
    }
}

} // verus!
