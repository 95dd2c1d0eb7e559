use crate::clock::Reading;
use crate::commands::{all_strings, all_texts, answer, key_of, lemma_written, refusal, text_of_value, write_error, CommandTrait, Outcome};
use crate::context::{Context, World};
use crate::error::Error;
use crate::session::Session;
use crate::storage::value::{views, Data, Value};
use std::collections::VecDeque;
use vstd::prelude::*;

verus! {

/// `MGET key [key ...]`: the values under several keys.
#[derive(Clone, Copy, Debug, PartialEq, Eq, Structural)]
pub struct MGet;

impl MGet {
    /// What the keys hold, one value for each key: the value as it is
    /// stored, and `Nil` for a key that holds nothing.
    pub open spec fn found(w: World, keys: Seq<Data>) -> Seq<Data> {
        Seq::new(
            keys.len(),
            |i: int|
                if w.store.contains_key(key_of(keys[i])) {
                    w.store[key_of(keys[i])]
                } else {
                    Data::Nil
                },
        )
    }

    /// At least one argument, all of them bulk strings: the reply is the
    /// array of what the keys hold, in the order of the keys, each value
    /// reading as `Nil` once its deadline has passed.
    pub open spec fn outcome(args: Seq<Data>, pre: World, proto: u8, now: Reading) -> Outcome {
        if args.len() < 1 {
            refusal(pre, proto, now, "Invalid number of arguments"@)
        } else if !all_strings(args) {
            refusal(pre, proto, now, "Invalid key"@)
        } else {
            answer(pre, proto, now, Data::Multi(MGet::found(pre, args)))
        }
    }
}

impl CommandTrait for MGet {
    open spec fn spec_name(&self) -> Seq<char> {
        "MGET"@
    }

    open spec fn admits(
        &self,
        args: Seq<Data>,
        pre: World,
        proto: u8,
        now: Reading,
        out: Outcome,
    ) -> bool {
        out == MGet::outcome(args, pre, proto, now)
    }

    fn name(&self) -> (r: &'static str) {
        "MGET"
    }

    fn handle_command(
        &self,
        writer: &mut Vec<u8>,
        args: &mut VecDeque<Value>,
        session: &mut Session,
        context: &mut Context,
        now: Reading,
    ) -> (r: Result<(), Error>) {
        let ghost keys = views(args@);
        let ghost expected = MGet::outcome(keys, context@, session.proto(), now);
        if args.len() < 1 {
            write_error(writer, "Invalid number of arguments", now);
        } else if !all_texts(args) {
            write_error(writer, "Invalid key", now);
        } else {
            let mut values: VecDeque<Value> = VecDeque::new();
            let mut i: usize = 0;
            while i < args.len()
                invariant
                    i <= args@.len(),
                    keys == views(args@),
                    all_strings(keys),
                    values@.len() == i,
                    forall|j: int|
                        0 <= j < i ==> (#[trigger] values@[j])@ == MGet::found(context@, keys)[j],
                decreases args@.len() - i,
            {
                assert(keys[i as int] is String);
                match text_of_value(&args[i]) {
                    Some(key) => match context.store.get(key.as_str()) {
                        Some(v) => values.push_back(v.clone()),
                        None => values.push_back(Value::Nil),
                    },
                    None => {},
                }
                i += 1;
            }
            proof {
                crate::storage::hash::lemma_multi_view(values);
                assert(views(values@) =~= MGet::found(context@, keys));
            }
            Value::Multi(values).to_resp2(writer, now.now);
        }
        args.clear();
        proof {
            lemma_written(old(writer)@, expected.reply);
        }
        Ok(())
    }
}

} // verus!
