use crate::clock::Reading;
use crate::commands::{answer, counted, lemma_written, refusal, text_of_value, write_count, write_error, CommandTrait, Outcome};
use crate::context::{Context, World};
use crate::error::Error;
use crate::session::Session;
use crate::storage::value::{views, Data, Value};
use crate::storage::hash::{entries, lemma_hashmap_view, lemma_upsert_wf, put_entry, upsert};
use crate::storage::value::{all_wf, valid, valid_entries};
use std::collections::VecDeque;
use vstd::prelude::*;

verus! {

/// `HSET key field value [field value ...]`: puts fields into the hash
/// under a key.
#[derive(Clone, Copy, Debug, PartialEq, Eq, Structural)]
pub struct HSet;

impl HSet {
    /// Every field of the pairs is a bulk string.
    pub open spec fn fields_are_strings(args: Seq<Data>) -> bool {
        forall|i: int| 1 <= i < args.len() && i % 2 == 1 ==> #[trigger] args[i] is String
    }

    /// The hash after the pairs from argument `k` on have been put in turn,
    /// `k` being odd.
    pub open spec fn filled(pairs: Seq<(Data, Data)>, args: Seq<Data>, k: int) -> Seq<(Data, Data)>
        decreases args.len() - k,
    {
        if 0 <= k && k + 1 < args.len() {
            HSet::filled(upsert(pairs, args[k], args[k + 1]), args, k + 2)
        } else {
            pairs
        }
    }

    /// The hash that the pairs are put into: the one that the key holds,
    /// an empty one where the key holds nothing or what it holds has
    /// expired, and none where the key holds a value that is no hash.
    pub open spec fn base(pre: World, key: Seq<char>, now: u64) -> Option<Seq<(Data, Data)>> {
        if pre.live(key, now) {
            match pre.store[key].plain() {
                Data::Hashmap(pairs) => Some(pairs),
                _ => None,
            }
        } else {
            Some(Seq::empty())
        }
    }

    /// What is stored for the hash `pairs`: the hash, with the deadline
    /// that the value under the key has where that has not expired.
    pub open spec fn kept(pre: World, key: Seq<char>, now: u64, pairs: Seq<(Data, Data)>) -> Data {
        if pre.live(key, now) {
            match pre.store[key] {
                Data::Expire(_, at) => Data::Expire(Box::new(Data::Hashmap(pairs)), at),
                _ => Data::Hashmap(pairs),
            }
        } else {
            Data::Hashmap(pairs)
        }
    }

    /// At least three arguments, an odd number of them: a key and pairs of
    /// a field and a value, the key and every field a bulk string. Every
    /// value stands under its field in the hash under the key afterwards, a
    /// field that was there keeping its place, and the reply is the number
    /// of pairs. Where the key holds a value that is no hash, nothing
    /// changes and the reply is an error.
    pub open spec fn outcome(args: Seq<Data>, pre: World, proto: u8, now: Reading) -> Outcome {
        if args.len() < 3 || args.len() % 2 != 1 {
            refusal(pre, proto, now, "Invalid number of arguments"@)
        } else {
            match args[0] {
                Data::String(key) => if !HSet::fields_are_strings(args) {
                    refusal(pre, proto, now, "Invalid field"@)
                } else {
                    match HSet::base(pre, key, now.now) {
                        None => refusal(pre, proto, now, "Key is not a hashmap"@),
                        Some(pairs) => answer(
                            pre.put(
                                key,
                                HSet::kept(pre, key, now.now, HSet::filled(pairs, args, 1)),
                            ),
                            proto,
                            now,
                            counted((args.len() - 1) / 2),
                        ),
                    }
                },
                _ => refusal(pre, proto, now, "Invalid key"@),
            }
        }
    }

    /// Checks that every field of the pairs is a bulk string.
    fn check_fields(args: &VecDeque<Value>) -> (r: bool)
        requires
            args@.len() % 2 == 1,
        ensures
            r == HSet::fields_are_strings(views(args@)),
    {
        let mut i: usize = 1;
        while i < args.len()
            invariant
                1 <= i <= args@.len() + 1,
                i % 2 == 1,
                args@.len() % 2 == 1,
                forall|j: int| 1 <= j < i && j % 2 == 1 ==> #[trigger] views(args@)[j] is String,
            decreases args@.len() + 1 - i,
        {
            if text_of_value(&args[i]).is_none() {
                assert(!(views(args@)[i as int] is String));
                return false;
            }
            i += 2;
        }
        true
    }

    /// Takes the pairs off the arguments and puts them into the hash `m`.
    fn fill(m: &mut Vec<(Value, Value)>, args: &mut VecDeque<Value>, Ghost(all): Ghost<Seq<Data>>)
        requires
            old(args)@.len() % 2 == 0,
            all.len() == old(args)@.len() + 1,
            views(old(args)@) == all.skip(1),
            all_wf(old(args)@),
            HSet::fields_are_strings(all),
            valid_entries(entries(old(m)@)),
        ensures
            final(args)@.len() == 0,
            valid_entries(entries(final(m)@)),
            entries(final(m)@) == HSet::filled(entries(old(m)@), all, 1),
    {
        let ghost mut i: int = 1;
        while args.len() >= 2
            invariant
                1 <= i,
                i % 2 == 1,
                i + args@.len() == all.len(),
                args@.len() % 2 == 0,
                views(args@) == all.skip(i),
                all_wf(args@),
                HSet::fields_are_strings(all),
                valid_entries(entries(m@)),
                HSet::filled(entries(m@), all, i) == HSet::filled(entries(old(m)@), all, 1),
            decreases args@.len(),
        {
            let ghost before = args@;
            let field = args.pop_front().unwrap();
            let value = args.pop_front().unwrap();
            proof {
                assert(views(before)[0] == all.skip(i)[0]);
                assert(views(before)[1] == all.skip(i)[1]);
                assert(all[i] is String);
                assert(before[1]@.wf());
                assert forall|j: int| 0 <= j < args@.len() implies #[trigger] views(args@)[j]
                    == all.skip(i + 2)[j] by {
                    assert(args@[j] == before[j + 2]);
                    assert(views(before)[j + 2] == all.skip(i)[j + 2]);
                }
                assert(views(args@) =~= all.skip(i + 2));
                assert forall|j: int| 0 <= j < args@.len() implies (#[trigger] args@[j])@.wf() by {
                    assert(args@[j] == before[j + 2]);
                }
                lemma_upsert_wf(entries(m@), field@, value@);
            }
            put_entry(m, field, value);
            proof {
                i = i + 2;
            }
        }
    }
}

impl CommandTrait for HSet {
    open spec fn spec_name(&self) -> Seq<char> {
        "HSET"@
    }

    open spec fn admits(
        &self,
        args: Seq<Data>,
        pre: World,
        proto: u8,
        now: Reading,
        out: Outcome,
    ) -> bool {
        out == HSet::outcome(args, pre, proto, now)
    }

    fn name(&self) -> (r: &'static str) {
        "HSET"
    }

    fn handle_command(
        &self,
        writer: &mut Vec<u8>,
        args: &mut VecDeque<Value>,
        session: &mut Session,
        context: &mut Context,
        now: Reading,
    ) -> (r: Result<(), Error>) {
        let ghost all = views(args@);
        let ghost expected = HSet::outcome(all, context@, session.proto(), now);
        proof {
            context.lemma_wf();
        }
        if args.len() < 3 || args.len() % 2 != 1 {
            write_error(writer, "Invalid number of arguments", now);
        } else if text_of_value(&args[0]).is_none() {
            write_error(writer, "Invalid key", now);
        } else if !HSet::check_fields(args) {
            write_error(writer, "Invalid field", now);
        } else {
            let pairs: u64 = ((args.len() - 1) / 2) as u64;
            let ghost first = args@;
            let key = args.pop_front().unwrap();
            proof {
                assert(key == first[0]);
                assert forall|j: int| 0 <= j < args@.len() implies #[trigger] views(args@)[j]
                    == all.skip(1)[j] by {
                    assert(args@[j] == first[j + 1]);
                }
                assert(views(args@) =~= all.skip(1));
                assert forall|j: int| 0 <= j < args@.len() implies (#[trigger] args@[j])@.wf() by {
                    assert(args@[j] == first[j + 1]);
                }
            }
            match key {
                Value::String(k) => {
                    let held: Option<(Value, Option<u64>)> = match context.store.get(k.as_str()) {
                        Some(v) => if v.expired(now.now) {
                            Some((Value::Hashmap(Vec::new()), None))
                        } else {
                            let at = match v {
                                Value::Expire(_, at) => Some(*at),
                                _ => None,
                            };
                            match v.as_plain() {
                                Value::Hashmap(_) => Some((v.as_plain().clone(), at)),
                                _ => None,
                            }
                        },
                        None => Some((Value::Hashmap(Vec::new()), None)),
                    };
                    match held {
                        None => write_error(writer, "Key is not a hashmap", now),
                        Some((Value::Hashmap(m), at)) => {
                            let mut m = m;
                            proof {
                                reveal_with_fuel(valid, 3);
                                lemma_hashmap_view(m);
                                if context@.live(k@, now.now) {
                                    assert(context@.store[k@].wf());
                                    assert(valid(context@.store[k@].plain()));
                                } else {
                                    assert(entries(m@) =~= Seq::<(Data, Data)>::empty());
                                }
                                assert(valid_entries(entries(m@)));
                            }
                            HSet::fill(&mut m, args, Ghost(all));
                            proof {
                                lemma_hashmap_view(m);
                            }
                            let hash = Value::Hashmap(m);
                            assert(valid(hash@));
                            let stored = match at {
                                Some(at) => Value::Expire(Box::new(hash), at),
                                None => hash,
                            };
                            assert(stored@.wf()) by {
                                reveal_with_fuel(valid, 3);
                            }
                            context.store.insert(k, stored);
                            write_count(writer, pairs, now);
                        },
                        Some(_) => {},
                    }
                },
                _ => {},
            }
        }
        args.clear();
        proof {
            lemma_written(old(writer)@, expected.reply);
        }
        Ok(())
    }
}

} // verus!
