use crate::clock::Reading;
use crate::commands::{
    lemma_written, refusal, text_of_value, write_error, written, CommandTrait, Outcome,
};
use crate::context::{Context, World};
use crate::error::Error;
use crate::session::Session;
use crate::storage::value::{views, Data, Value};
use crate::storage::encode::resp2;
use crate::storage::hash::lemma_multi_view;
use crate::storage::store::Store;
use std::collections::VecDeque;
use vstd::prelude::*;

verus! {

/// Whether `glob` reads the text alike on every platform: it holds no
/// backslash, which is a separator of paths on some platforms and an
/// ordinary character on the others.
pub open spec fn portable(text: Seq<char>) -> bool {
    forall|i: int| 0 <= i < text.len() ==> text[i] != (92u8 as char)
}

/// Whether `glob::Pattern::new` compiles the pattern.
pub uninterp spec fn glob_compiles(pattern: Seq<char>) -> bool;

/// Whether the pattern, compiled by `glob::Pattern::new`, matches the text,
/// as `glob::Pattern::matches` tells.
pub uninterp spec fn glob_matches(pattern: Seq<char>, text: Seq<char>) -> bool;

/// Calls `glob::Pattern::new` on the pattern and `glob::Pattern::matches`
/// on the text: whether the pattern matches the text, or the error that the
/// pattern does not compile with. Both depend on nothing but the pattern and
/// the text, unless one of them holds a backslash.
#[verifier::external_body]
fn glob_match(pattern: &str, text: &str) -> (r: Result<bool, glob::PatternError>)
    ensures
        portable(pattern@) ==> (r is Ok <==> glob_compiles(pattern@)),
        portable(pattern@) && portable(text@) ==> (r matches Ok(m) ==> m == glob_matches(
            pattern@,
            text@,
        )),
{
    match glob::Pattern::new(pattern) {
        Ok(p) => Ok(p.matches(text)),
        Err(e) => Err(e),
    }
}

/// `KEYS pattern`: the keys that a pattern matches.
#[derive(Clone, Copy, Debug, PartialEq, Eq, Structural)]
pub struct Keys;

impl Keys {
    /// The keys from place `k` of the list on that are chosen: a key is
    /// chosen where the verdict on it is `true` and what it holds has not
    /// expired at `now`.
    pub open spec fn chosen(w: World, verdicts: Seq<bool>, k: int, now: u64) -> Seq<Data>
        decreases w.order.len() - k,
    {
        if 0 <= k < w.order.len() {
            let rest = Keys::chosen(w, verdicts, k + 1, now);
            if k < verdicts.len() && verdicts[k] && w.live(w.order[k], now) {
                seq![Data::String(w.order[k])] + rest
            } else {
                rest
            }
        } else {
            Seq::empty()
        }
    }

    /// Whether the verdicts are those of the pattern on the keys of the
    /// list: one for each key, and for a key that is portable, under a
    /// pattern that is, whether the pattern matches it.
    pub open spec fn verdicts_of(pattern: Seq<char>, order: Seq<Seq<char>>, verdicts: Seq<bool>) -> bool {
        &&& verdicts.len() == order.len()
        &&& forall|i: int|
            0 <= i < order.len() && portable(pattern) && portable(order[i]) ==> #[trigger] verdicts[i]
                == glob_matches(pattern, order[i])
    }

    /// The outcomes of the command on a pattern.
    ///
    /// Where the pattern does not compile, the command fails without a
    /// reply. Where it does, the reply is the array of the keys that the
    /// pattern matches and whose values have not expired, in the order in
    /// which the store lists them. Nothing changes in either case.
    pub open spec fn allowed(pattern: Seq<char>, pre: World, proto: u8, now: Reading, out: Outcome) -> bool {
        &&& out.world == pre
        &&& out.proto == proto
        &&& if out.failed {
            &&& out.reply == Seq::<u8>::empty()
            &&& portable(pattern) ==> !glob_compiles(pattern)
        } else {
            &&& portable(pattern) ==> glob_compiles(pattern)
            &&& exists|verdicts: Seq<bool>|
                Keys::verdicts_of(pattern, pre.order, verdicts) && out.reply == resp2(
                    Data::Multi(Keys::chosen(pre, verdicts, 0, now.now)),
                    now.now,
                )
        }
    }

    /// The keys of the store that are chosen by the verdicts, one verdict
    /// for each key of the list, as an array of bulk strings.
    pub fn select(store: &Store, verdicts: &Vec<bool>, now: u64) -> (r: VecDeque<Value>)
        requires
            verdicts@.len() == store.order().len(),
        ensures
            views(r@) == Keys::chosen(
                (World { store: store@, order: store.order(), deadlines: Seq::empty() }),
                verdicts@,
                0,
                now,
            ),
    {
        let ghost w = World { store: store@, order: store.order(), deadlines: Seq::empty() };
        let mut out: VecDeque<Value> = VecDeque::new();
        let mut i: usize = 0;
        assert(views(out@) =~= Seq::<Data>::empty());
        while i < store.len()
            invariant
                i <= store.order().len(),
                verdicts@.len() == store.order().len(),
                w == (World { store: store@, order: store.order(), deadlines: Seq::empty() }),
                views(out@) + Keys::chosen(w, verdicts@, i as int, now) == Keys::chosen(
                    w,
                    verdicts@,
                    0,
                    now,
                ),
            decreases store.order().len() - i,
        {
            let key = store.key_at(i);
            let live = match store.get(key.as_str()) {
                Some(v) => !v.expired(now),
                None => false,
            };
            if verdicts[i] && live {
                let ghost before = views(out@);
                out.push_back(Value::String(key.clone()));
                proof {
                    let rest = Keys::chosen(w, verdicts@, i + 1, now);
                    assert(views(out@) =~= before + seq![Data::String(key@)]);
                    assert((before + seq![Data::String(key@)]) + rest =~= before + (seq![
                        Data::String(key@),
                    ] + rest));
                }
            }
            i += 1;
        }
        assert(views(out@) + Seq::<Data>::empty() =~= views(out@));
        out
    }
}

/// What `chosen` gives does not depend on the deadline index.
pub proof fn lemma_chosen_ignores_index(w: World, v: World, verdicts: Seq<bool>, k: int, now: u64)
    requires
        w.store == v.store,
        w.order == v.order,
    ensures
        Keys::chosen(w, verdicts, k, now) == Keys::chosen(v, verdicts, k, now),
    decreases w.order.len() - k,
{
    if 0 <= k < w.order.len() {
        lemma_chosen_ignores_index(w, v, verdicts, k + 1, now);
    }
}

impl CommandTrait for Keys {
    open spec fn spec_name(&self) -> Seq<char> {
        "KEYS"@
    }

    open spec fn admits(
        &self,
        args: Seq<Data>,
        pre: World,
        proto: u8,
        now: Reading,
        out: Outcome,
    ) -> bool {
        if args.len() != 1 {
            out == refusal(pre, proto, now, "Invalid number of arguments"@)
        } else {
            match args[0] {
                Data::String(pattern) => Keys::allowed(pattern, pre, proto, now, out),
                _ => out == refusal(pre, proto, now, "Invalid pattern"@),
            }
        }
    }

    fn name(&self) -> (r: &'static str) {
        "KEYS"
    }

    #[verifier::loop_isolation(false)]
    fn handle_command(
        &self,
        writer: &mut Vec<u8>,
        args: &mut VecDeque<Value>,
        session: &mut Session,
        context: &mut Context,
        now: Reading,
    ) -> (r: Result<(), Error>) {
        let ghost pre = context@;
        if args.len() != 1 {
            write_error(writer, "Invalid number of arguments", now);
            args.clear();
            proof {
                lemma_written(
                    old(writer)@,
                    refusal(pre, session.proto(), now, "Invalid number of arguments"@).reply,
                );
            }
            return Ok(());
        }
        let pattern = match text_of_value(&args[0]) {
            Some(p) => p.clone(),
            None => {
                write_error(writer, "Invalid pattern", now);
                args.clear();
                proof {
                    lemma_written(
                        old(writer)@,
                        refusal(pre, session.proto(), now, "Invalid pattern"@).reply,
                    );
                }
                return Ok(());
            },
        };
        args.clear();
        assert(written(old(writer)@, writer@) =~= Seq::<u8>::empty());
        assert(old(writer)@.is_prefix_of(writer@));
        match glob_match(pattern.as_str(), "") {
            Err(e) => {
                return Err(Error::Glob(e));
            },
            Ok(_) => {},
        }
        let mut verdicts: Vec<bool> = Vec::new();
        let mut i: usize = 0;
        while i < context.store.len()
            invariant
                i <= context.store.order().len(),
                context@ == pre,
                context.wf(),
                args@.len() == 0,
                writer@ == old(writer)@,
                portable(pattern@) ==> glob_compiles(pattern@),
                verdicts@.len() == i,
                forall|j: int|
                    0 <= j < i && portable(pattern@) && portable(pre.order[j])
                        ==> #[trigger] verdicts@[j] == glob_matches(pattern@, pre.order[j]),
            decreases context.store.order().len() - i,
        {
            let key = context.store.key_at(i);
            match glob_match(pattern.as_str(), key.as_str()) {
                Ok(m) => verdicts.push(m),
                Err(e) => {
                    return Err(Error::Glob(e));
                },
            }
            i += 1;
        }
        let keys = Keys::select(&context.store, &verdicts, now.now);
        proof {
            lemma_multi_view(keys);
            lemma_chosen_ignores_index(
                (World { store: pre.store, order: pre.order, deadlines: Seq::empty() }),
                pre,
                verdicts@,
                0,
                now.now,
            );
            assert(Keys::verdicts_of(pattern@, pre.order, verdicts@));
        }
        Value::Multi(keys).to_resp2(writer, now.now);
        proof {
            lemma_written(
                old(writer)@,
                resp2(Data::Multi(Keys::chosen(pre, verdicts@, 0, now.now)), now.now),
            );
        }
        Ok(())
    }
}

} // verus!
