use crate::clock::Reading;
use crate::commands::{answer, key_of, lemma_written, refusal, text_of_value, write_error, CommandTrait, Outcome};
use crate::context::{Context, World};
use crate::error::Error;
use crate::session::Session;
use crate::storage::value::{views, Data, Value};
use std::collections::VecDeque;
use vstd::prelude::*;

verus! {

/// `MSET key value [key value ...]`: puts several values under their keys.
#[derive(Clone, Copy, Debug, PartialEq, Eq, Structural)]
pub struct MSet;

impl MSet {
    /// Every key of the pairs is a bulk string.
    pub open spec fn keys_are_strings(args: Seq<Data>) -> bool {
        forall|i: int| 0 <= i < args.len() && i % 2 == 0 ==> #[trigger] args[i] is String
    }

    /// The world after the pairs from argument `k` on have been put in
    /// turn, `k` being even.
    pub open spec fn stored(w: World, args: Seq<Data>, k: int) -> World
        decreases args.len() - k,
    {
        if 0 <= k && k + 1 < args.len() {
            MSet::stored(w.put(key_of(args[k]), args[k + 1]), args, k + 2)
        } else {
            w
        }
    }

    /// At least two arguments, an even number of them, every first of a
    /// pair a bulk string: every value stands under its key afterwards,
    /// without a deadline of the key's own, and the reply is `OK`. Where
    /// one key is no bulk string, nothing is put.
    pub open spec fn outcome(args: Seq<Data>, pre: World, proto: u8, now: Reading) -> Outcome {
        if args.len() < 2 || args.len() % 2 != 0 {
            refusal(pre, proto, now, "Invalid number of arguments"@)
        } else if !MSet::keys_are_strings(args) {
            refusal(pre, proto, now, "Invalid key"@)
        } else {
            answer(MSet::stored(pre, args, 0), proto, now, Data::Okay)
        }
    }

    /// Checks that every key of the pairs is a bulk string.
    fn check_keys(args: &VecDeque<Value>) -> (r: bool)
        requires
            args@.len() % 2 == 0,
        ensures
            r == MSet::keys_are_strings(views(args@)),
    {
        let mut i: usize = 0;
        while i < args.len()
            invariant
                i <= args@.len(),
                i % 2 == 0,
                args@.len() % 2 == 0,
                forall|j: int| 0 <= j < i && j % 2 == 0 ==> #[trigger] views(args@)[j] is String,
            decreases args@.len() - i,
        {
            if text_of_value(&args[i]).is_none() {
                assert(!(views(args@)[i as int] is String));
                return false;
            }
            i += 2;
        }
        true
    }
}

impl CommandTrait for MSet {
    open spec fn spec_name(&self) -> Seq<char> {
        "MSET"@
    }

    open spec fn admits(
        &self,
        args: Seq<Data>,
        pre: World,
        proto: u8,
        now: Reading,
        out: Outcome,
    ) -> bool {
        out == MSet::outcome(args, pre, proto, now)
    }

    fn name(&self) -> (r: &'static str) {
        "MSET"
    }

    fn handle_command(
        &self,
        writer: &mut Vec<u8>,
        args: &mut VecDeque<Value>,
        session: &mut Session,
        context: &mut Context,
        now: Reading,
    ) -> (r: Result<(), Error>) {
        let ghost pairs = views(args@);
        let ghost expected = MSet::outcome(pairs, context@, session.proto(), now);
        if args.len() < 2 || args.len() % 2 != 0 {
            write_error(writer, "Invalid number of arguments", now);
        } else if !MSet::check_keys(args) {
            write_error(writer, "Invalid key", now);
        } else {
            let ghost total = args@.len();
            let ghost mut i: int = 0;
            while args.len() >= 2
                invariant
                    0 <= i,
                    i + args@.len() == total,
                    i % 2 == 0,
                    total % 2 == 0,
                    total == pairs.len(),
                    views(args@) == pairs.skip(i),
                    crate::storage::value::all_wf(args@),
                    MSet::keys_are_strings(pairs),
                    context.wf(),
                    MSet::stored(context@, pairs, i) == MSet::stored(old(context)@, pairs, 0),
                decreases args@.len(),
            {
                let ghost before = args@;
                let key = args.pop_front().unwrap();
                let value = args.pop_front().unwrap();
                proof {
                    assert(views(before)[0] == pairs.skip(i)[0]);
                    assert(views(before)[1] == pairs.skip(i)[1]);
                    assert(pairs[i] is String);
                    assert(value@.wf()) by {
                        assert(before[1]@.wf());
                    }
                    assert forall|j: int| 0 <= j < args@.len() implies #[trigger] views(args@)[j]
                        == pairs.skip(i + 2)[j] by {
                        assert(args@[j] == before[j + 2]);
                        assert(views(before)[j + 2] == pairs.skip(i)[j + 2]);
                    }
                    assert(views(args@) =~= pairs.skip(i + 2));
                    assert forall|j: int| 0 <= j < args@.len() implies (#[trigger] args@[j])@.wf() by {
                        assert(args@[j] == before[j + 2]);
                    }
                }
                match key {
                    Value::String(k) => context.store.insert(k, value),
                    _ => {},
                }
                proof {
                    i = i + 2;
                }
            }
            Value::Okay.to_resp2(writer, now.now);
        }
        args.clear();
        proof {
            lemma_written(old(writer)@, expected.reply);
        }
        Ok(())
    }
}

} // verus!
