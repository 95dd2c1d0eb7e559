use crate::clock::Reading;
use crate::commands::{answer, lemma_written, refusal, text_of_value, write_error, CommandTrait, Outcome};
use crate::context::{Context, World};
use crate::error::Error;
use crate::session::Session;
use crate::storage::value::{views, Data, Value};
use crate::clock::{
    after, at_date, deadline_after, deadline_at_date, deadline_at_date_seconds, deadline_in_seconds,
};
use crate::text::{ascii_upper, int_of_text, owned, parse_int, same_text, to_upper};
use vstd::string::StringExecFns;
use vstd::utf8::encode_utf8;
use std::collections::VecDeque;
use vstd::prelude::*;

verus! {

/// When a value that is put shall expire, as the request says it.
#[derive(Clone, Copy, Debug, PartialEq, Eq, Structural)]
pub enum Expiry {
    /// So many seconds from now.
    Ex(i64),
    /// So many milliseconds from now.
    Px(i64),
    /// At the date so many seconds after the start of 1970.
    ExAt(i64),
    /// At the date so many milliseconds after the start of 1970.
    PxAt(i64),
}

/// What a `SET` request asks for beyond the key and the value.
#[derive(Clone, Copy, Debug, PartialEq, Eq, Structural)]
pub struct Arguments {
    /// `NX`: put only where the key holds nothing.
    pub set_nx: bool,
    /// `XX`: put only where the key holds something.
    pub set_xx: bool,
    /// `GET`: reply with what the key held.
    pub get: bool,
    /// `KEEPTTL`: keep the deadline that the key has.
    pub keepttl: bool,
    /// `EX`, `PX`, `EXAT` or `PXAT` and its number.
    pub expiry: Option<Expiry>,
}

/// What reading the options of a request gives: the options, or the message
/// of the error that refuses them.
pub enum Options {
    Taken(Arguments),
    Refused(Seq<char>),
}

/// `SET key value [NX | XX] [GET] [EX seconds | PX milliseconds | EXAT date |
/// PXAT date | KEEPTTL]`: puts a value under a key.
#[derive(Clone, Copy, Debug, PartialEq, Eq, Structural)]
pub struct SetKey;

/// The message that refuses the option `word`.
pub open spec fn unwelcome(word: Seq<char>) -> Seq<char> {
    "Invalid argument "@ + word
}

/// The number that follows a word of time: an integer, or a bulk string
/// that spells one, and in either case more than nothing.
pub open spec fn span_of(d: Data) -> Option<i64> {
    match d {
        Data::Integer(n) => if n > 0 {
            Some(n)
        } else {
            None
        },
        Data::String(t) => match parse_int(encode_utf8(t)) {
            Some(n) => if n > 0 {
                Some(n as i64)
            } else {
                None
            },
            None => None,
        },
        _ => None,
    }
}

/// The expiry that the word `word` and the number `n` stand for.
pub open spec fn expiry_of(word: Seq<char>, n: i64) -> Expiry {
    if word == "EX"@ {
        Expiry::Ex(n)
    } else if word == "PX"@ {
        Expiry::Px(n)
    } else if word == "EXAT"@ {
        Expiry::ExAt(n)
    } else {
        Expiry::PxAt(n)
    }
}

/// Whether `word` is one of the four words of time.
pub open spec fn is_time_word(word: Seq<char>) -> bool {
    word == "EX"@ || word == "PX"@ || word == "EXAT"@ || word == "PXAT"@
}

impl SetKey {
    /// No option at all.
    pub open spec fn plain() -> Arguments {
        Arguments { set_nx: false, set_xx: false, get: false, keepttl: false, expiry: None }
    }

    /// The options that the arguments from index `k` on add to `acc`.
    ///
    /// Every option is a bulk string, read without regard to the case of
    /// its letters. `NX` and `XX` exclude each other; a word of time
    /// excludes another one and `KEEPTTL`, and is followed by its number,
    /// which is more than nothing.
    pub open spec fn options(args: Seq<Data>, k: int, acc: Arguments) -> Options
        decreases args.len() - k,
    {
        if k < 0 || k >= args.len() {
            Options::Taken(acc)
        } else {
            match args[k] {
                Data::String(t) => {
                    let word = ascii_upper(t);
                    if word == "NX"@ {
                        if acc.set_xx {
                            Options::Refused(unwelcome(word))
                        } else {
                            SetKey::options(args, k + 1, Arguments { set_nx: true, ..acc })
                        }
                    } else if word == "XX"@ {
                        if acc.set_nx {
                            Options::Refused(unwelcome(word))
                        } else {
                            SetKey::options(args, k + 1, Arguments { set_xx: true, ..acc })
                        }
                    } else if word == "GET"@ {
                        SetKey::options(args, k + 1, Arguments { get: true, ..acc })
                    } else if word == "KEEPTTL"@ {
                        if acc.expiry is Some {
                            Options::Refused(unwelcome(word))
                        } else {
                            SetKey::options(args, k + 1, Arguments { keepttl: true, ..acc })
                        }
                    } else if is_time_word(word) {
                        if acc.keepttl || acc.expiry is Some {
                            Options::Refused(unwelcome(word))
                        } else if k + 1 >= args.len() {
                            Options::Refused("Invalid expire time"@)
                        } else {
                            match span_of(args[k + 1]) {
                                Some(n) => SetKey::options(
                                    args,
                                    k + 2,
                                    Arguments { expiry: Some(expiry_of(word, n)), ..acc },
                                ),
                                None => Options::Refused("Invalid expire time"@),
                            }
                        }
                    } else {
                        Options::Refused(unwelcome(word))
                    }
                },
                _ => Options::Refused("Invalid argument"@),
            }
        }
    }

    /// The deadline that an expiry stands for while the clocks show `now`.
    pub open spec fn deadline_of(e: Expiry, now: Reading) -> u64 {
        match e {
            Expiry::Ex(s) => after(now.now, s * 1000),
            Expiry::Px(ms) => after(now.now, ms as int),
            Expiry::ExAt(s) => at_date(now, s * 1000),
            Expiry::PxAt(ms) => at_date(now, ms as int),
        }
    }

    /// The deadline of what is put: the one that the value under the key
    /// has, where the request keeps it and the value has not expired, and
    /// else the one that the request gives.
    pub open spec fn deadline(a: Arguments, pre: World, key: Seq<char>, now: Reading) -> Option<
        u64,
    > {
        if a.keepttl {
            if pre.live(key, now.now) {
                match pre.store[key] {
                    Data::Expire(_, at) => Some(at),
                    _ => None,
                }
            } else {
                None
            }
        } else {
            match a.expiry {
                Some(e) => Some(SetKey::deadline_of(e, now)),
                None => None,
            }
        }
    }

    /// What is stored for `value` with the deadline `deadline`.
    pub open spec fn wrapped(value: Data, deadline: Option<u64>) -> Data {
        match deadline {
            Some(at) => Data::Expire(Box::new(value.plain()), at),
            None => value.plain(),
        }
    }

    /// What the command does once its options `a` are read.
    ///
    /// With `NX` a key that holds a value which has not expired is left
    /// alone, and with `XX` a key that holds none: the reply is `Nil` then.
    /// Else the value stands under the key afterwards, with its deadline
    /// where it has one, the key then being noted in the deadline index.
    /// The reply is `OK`, or with `GET` what the key held before.
    pub open spec fn carried_out(
        a: Arguments,
        key: Seq<char>,
        value: Data,
        pre: World,
        proto: u8,
        now: Reading,
    ) -> Outcome {
        if a.set_nx && pre.live(key, now.now) {
            answer(pre, proto, now, Data::Nil)
        } else if a.set_xx && !pre.live(key, now.now) {
            answer(pre, proto, now, Data::Nil)
        } else {
            let deadline = SetKey::deadline(a, pre, key, now);
            let put = pre.put(key, SetKey::wrapped(value, deadline));
            answer(
                if deadline is Some {
                    put.note(key)
                } else {
                    put
                },
                proto,
                now,
                if a.get {
                    if pre.store.contains_key(key) {
                        pre.store[key]
                    } else {
                        Data::Nil
                    }
                } else {
                    Data::Okay
                },
            )
        }
    }

    /// At least two arguments, the first a bulk string: the key, the
    /// value, and the options. Where the options are refused, nothing
    /// changes and the reply is the error.
    pub open spec fn outcome(args: Seq<Data>, pre: World, proto: u8, now: Reading) -> Outcome {
        if args.len() < 2 {
            refusal(pre, proto, now, "Invalid number of arguments"@)
        } else {
            match args[0] {
                Data::String(key) => match SetKey::options(args, 2, SetKey::plain()) {
                    Options::Refused(message) => refusal(pre, proto, now, message),
                    Options::Taken(a) => SetKey::carried_out(a, key, args[1], pre, proto, now),
                },
                _ => refusal(pre, proto, now, "Invalid key"@),
            }
        }
    }

    /// Reads the number that follows a word of time.
    fn read_span(v: &Value) -> (r: Option<i64>)
        ensures
            r == span_of(v@),
    {
        let n = match v {
            Value::Integer(n) => Some(*n),
            Value::String(t) => int_of_text(t.as_str()),
            _ => None,
        };
        match n {
            Some(n) => if n > 0 {
                Some(n)
            } else {
                None
            },
            None => None,
        }
    }

    /// Reads the options of a request: the arguments from the third on.
    #[verifier::loop_isolation(false)]
    fn read_options(args: &VecDeque<Value>) -> (r: Result<Arguments, String>)
        requires
            args@.len() >= 2,
        ensures
            match r {
                Ok(a) => SetKey::options(views(args@), 2, SetKey::plain()) == Options::Taken(a),
                Err(message) => SetKey::options(views(args@), 2, SetKey::plain())
                    == Options::Refused(message@),
            },
    {
        let ghost all = views(args@);
        let ghost goal = SetKey::options(all, 2, SetKey::plain());
        let mut acc = Arguments {
            set_nx: false,
            set_xx: false,
            get: false,
            keepttl: false,
            expiry: None,
        };
        let mut i: usize = 2;
        while i < args.len()
            invariant
                2 <= i <= args@.len(),
                SetKey::options(all, i as int, acc) == goal,
            decreases args@.len() - i,
        {
            let word = match text_of_value(&args[i]) {
                Some(t) => to_upper(t.as_str()),
                None => {
                    return Err(owned("Invalid argument"));
                },
            };
            let w = word.as_str();
            if same_text(w, "NX") {
                if acc.set_xx {
                    return Err(owned("Invalid argument ").concat(w));
                }
                acc.set_nx = true;
                i += 1;
            } else if same_text(w, "XX") {
                if acc.set_nx {
                    return Err(owned("Invalid argument ").concat(w));
                }
                acc.set_xx = true;
                i += 1;
            } else if same_text(w, "GET") {
                acc.get = true;
                i += 1;
            } else if same_text(w, "KEEPTTL") {
                if acc.expiry.is_some() {
                    return Err(owned("Invalid argument ").concat(w));
                }
                acc.keepttl = true;
                i += 1;
            } else {
                let ex = same_text(w, "EX");
                let px = same_text(w, "PX");
                let exat = same_text(w, "EXAT");
                let pxat = same_text(w, "PXAT");
                if !(ex || px || exat || pxat) || acc.keepttl || acc.expiry.is_some() {
                    return Err(owned("Invalid argument ").concat(w));
                }
                if i + 1 >= args.len() {
                    return Err(owned("Invalid expire time"));
                }
                match SetKey::read_span(&args[i + 1]) {
                    Some(n) => {
                        acc.expiry = Some(
                            if ex {
                                Expiry::Ex(n)
                            } else if px {
                                Expiry::Px(n)
                            } else if exat {
                                Expiry::ExAt(n)
                            } else {
                                Expiry::PxAt(n)
                            },
                        );
                        i += 2;
                    },
                    None => {
                        return Err(owned("Invalid expire time"));
                    },
                }
            }
        }
        Ok(acc)
    }

    /// Computes the deadline that an expiry stands for.
    fn compute_deadline(e: Expiry, now: Reading) -> (r: u64)
        requires
            match e {
                Expiry::Ex(n) | Expiry::Px(n) | Expiry::ExAt(n) | Expiry::PxAt(n) => n > 0,
            },
        ensures
            r == SetKey::deadline_of(e, now),
    {
        match e {
            Expiry::Ex(s) => deadline_in_seconds(now.now, s),
            Expiry::Px(ms) => deadline_after(now.now, ms as u64),
            Expiry::ExAt(s) => deadline_at_date_seconds(now, s),
            Expiry::PxAt(ms) => deadline_at_date(now, ms as u64),
        }
    }
}

/// The number of every expiry that is read is more than nothing.
pub proof fn lemma_options_positive(args: Seq<Data>, k: int, acc: Arguments)
    requires
        acc.expiry matches Some(e) ==> SetKey::positive(e),
    ensures
        SetKey::options(args, k, acc) matches Options::Taken(a) ==> (a.expiry matches Some(e)
            ==> SetKey::positive(e)),
    decreases args.len() - k,
{
    if 0 <= k < args.len() {
        match args[k] {
            Data::String(t) => {
                let word = ascii_upper(t);
                if word == "NX"@ {
                    lemma_options_positive(args, k + 1, Arguments { set_nx: true, ..acc });
                } else if word == "XX"@ {
                    lemma_options_positive(args, k + 1, Arguments { set_xx: true, ..acc });
                } else if word == "GET"@ {
                    lemma_options_positive(args, k + 1, Arguments { get: true, ..acc });
                } else if word == "KEEPTTL"@ {
                    lemma_options_positive(args, k + 1, Arguments { keepttl: true, ..acc });
                } else if is_time_word(word) && k + 1 < args.len() {
                    match span_of(args[k + 1]) {
                        Some(n) => {
                            lemma_options_positive(
                                args,
                                k + 2,
                                Arguments { expiry: Some(expiry_of(word, n)), ..acc },
                            );
                        },
                        None => {},
                    }
                }
            },
            _ => {},
        }
    }
}

impl SetKey {
    /// The number of the expiry is more than nothing.
    pub open spec fn positive(e: Expiry) -> bool {
        match e {
            Expiry::Ex(n) | Expiry::Px(n) | Expiry::ExAt(n) | Expiry::PxAt(n) => n > 0,
        }
    }
}

impl CommandTrait for SetKey {
    open spec fn spec_name(&self) -> Seq<char> {
        "SET"@
    }

    open spec fn admits(
        &self,
        args: Seq<Data>,
        pre: World,
        proto: u8,
        now: Reading,
        out: Outcome,
    ) -> bool {
        out == SetKey::outcome(args, pre, proto, now)
    }

    fn name(&self) -> (r: &'static str) {
        "SET"
    }

    fn handle_command(
        &self,
        writer: &mut Vec<u8>,
        args: &mut VecDeque<Value>,
        session: &mut Session,
        context: &mut Context,
        now: Reading,
    ) -> (r: Result<(), Error>) {
        let ghost given = views(args@);
        let ghost expected = SetKey::outcome(given, context@, session.proto(), now);
        proof {
            context.lemma_wf();
        }
        if args.len() < 2 {
            write_error(writer, "Invalid number of arguments", now);
        } else if text_of_value(&args[0]).is_none() {
            write_error(writer, "Invalid key", now);
        } else {
            match SetKey::read_options(args) {
                Err(message) => write_error(writer, message.as_str(), now),
                Ok(a) => {
                    proof {
                        lemma_options_positive(given, 2, SetKey::plain());
                    }
                    let ghost first = args@;
                    let key = args.pop_front().unwrap();
                    let value = args.pop_front().unwrap();
                    assert(key == first[0] && value == first[1]);
                    assert(value@.wf());
                    match key {
                        Value::String(k) => {
                            let (alive, kept) = match context.store.get(k.as_str()) {
                                Some(v) => if v.expired(now.now) {
                                    (false, None)
                                } else {
                                    match v {
                                        Value::Expire(_, at) => (true, Some(*at)),
                                        _ => (true, None),
                                    }
                                },
                                None => (false, None),
                            };
                            if (a.set_nx && alive) || (a.set_xx && !alive) {
                                Value::Nil.to_resp2(writer, now.now);
                            } else {
                                let deadline = if a.keepttl {
                                    kept
                                } else {
                                    match a.expiry {
                                        Some(e) => Some(SetKey::compute_deadline(e, now)),
                                        None => None,
                                    }
                                };
                                if a.get {
                                    match context.store.get(k.as_str()) {
                                        Some(v) => v.to_resp2(writer, now.now),
                                        None => Value::Nil.to_resp2(writer, now.now),
                                    }
                                } else {
                                    Value::Okay.to_resp2(writer, now.now);
                                }
                                let plain = value.into_plain();
                                match deadline {
                                    Some(at) => {
                                        context.store.insert(
                                            k.clone(),
                                            Value::Expire(Box::new(plain), at),
                                        );
                                        context.expire_keys.insert(k);
                                    },
                                    None => context.store.insert(k, plain),
                                }
                            }
                        },
                        _ => {},
                    }
                },
            }
        }
        args.clear();
        proof {
            lemma_written(old(writer)@, expected.reply);
        }
        Ok(())
    }
}

} // verus!
