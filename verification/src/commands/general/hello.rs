use crate::clock::Reading;
use crate::commands::{lemma_written, refusal, text_of_value, write_error, CommandTrait, Outcome};
use crate::context::{Context, World};
use crate::error::Error;
use crate::session::Session;
use crate::storage::value::{views, Data, Value};
use crate::storage::encode::resp;
use crate::storage::hash::{entries, lemma_hashmap_view, lemma_multi_view};
use crate::text::{owned, same_text};
use std::collections::VecDeque;
use vstd::prelude::*;

verus! {

/// `HELLO [version]`: agrees on the version of the protocol.
#[derive(Clone, Copy, Debug, PartialEq, Eq, Structural)]
pub struct Hello;

impl Hello {
    /// What the server says of itself to a session of the version `proto`.
    pub open spec fn greeting(proto: u8) -> Data {
        Data::Hashmap(
            seq![
                (Data::String("server"@), Data::String("crabdis"@)),
                (Data::String("version"@), Data::String("0.1.0"@)),
                (Data::String("proto"@), Data::Integer(proto as i64)),
                (Data::String("id"@), Data::Integer(0)),
                (Data::String("mode"@), Data::String("standalone"@)),
                (Data::String("role"@), Data::String("master"@)),
                (Data::String("modules"@), Data::Multi(Seq::empty())),
            ],
        )
    }

    /// The version that the session has after the request: the one that
    /// the argument names, and the one that the session has where there is
    /// no argument or the argument is no bulk string; none where the
    /// argument names another version than 2 and 3.
    pub open spec fn agreed(args: Seq<Data>, proto: u8) -> Option<u8> {
        if args.len() == 1 {
            match args[0] {
                Data::String(version) => if version == "2"@ {
                    Some(2u8)
                } else if version == "3"@ {
                    Some(3u8)
                } else {
                    None
                },
                _ => Some(proto),
            }
        } else {
            Some(proto)
        }
    }

    /// At most one argument: the session takes up the version that is
    /// agreed, and the reply is the greeting, written in that version. Where
    /// no version is agreed, the session keeps its version and the reply is
    /// an error.
    pub open spec fn outcome(args: Seq<Data>, pre: World, proto: u8, now: Reading) -> Outcome {
        if args.len() > 1 {
            refusal(pre, proto, now, "Invalid number of arguments"@)
        } else {
            match Hello::agreed(args, proto) {
                None => refusal(pre, proto, now, "Invalid version"@),
                Some(version) => Outcome {
                    world: pre,
                    proto: version,
                    reply: resp(Hello::greeting(version), version as int, now.now),
                    failed: false,
                },
            }
        }
    }

    /// Makes the greeting.
    fn greet(proto: u8) -> (r: Value)
        ensures
            r@ == Hello::greeting(proto),
    {
        let mut m: Vec<(Value, Value)> = Vec::new();
        m.push((Value::String(owned("server")), Value::String(owned("crabdis"))));
        m.push((Value::String(owned("version")), Value::String(owned("0.1.0"))));
        m.push((Value::String(owned("proto")), Value::Integer(proto as i64)));
        m.push((Value::String(owned("id")), Value::Integer(0)));
        m.push((Value::String(owned("mode")), Value::String(owned("standalone"))));
        m.push((Value::String(owned("role")), Value::String(owned("master"))));
        let modules: VecDeque<Value> = VecDeque::new();
        proof {
            lemma_multi_view(modules);
            assert(views(modules@) =~= Seq::<Data>::empty());
        }
        m.push((Value::String(owned("modules")), Value::Multi(modules)));
        proof {
            lemma_hashmap_view(m);
            assert(entries(m@) =~= Hello::greeting(proto)->Hashmap_0);
        }
        Value::Hashmap(m)
    }
}

impl CommandTrait for Hello {
    open spec fn spec_name(&self) -> Seq<char> {
        "HELLO"@
    }

    open spec fn admits(
        &self,
        args: Seq<Data>,
        pre: World,
        proto: u8,
        now: Reading,
        out: Outcome,
    ) -> bool {
        out == Hello::outcome(args, pre, proto, now)
    }

    fn name(&self) -> (r: &'static str) {
        "HELLO"
    }

    fn handle_command(
        &self,
        writer: &mut Vec<u8>,
        args: &mut VecDeque<Value>,
        session: &mut Session,
        context: &mut Context,
        now: Reading,
    ) -> (r: Result<(), Error>) {
        let ghost expected = Hello::outcome(views(args@), context@, session.proto(), now);
        if args.len() > 1 {
            write_error(writer, "Invalid number of arguments", now);
        } else {
            let asked: Option<i64> = if args.len() == 1 {
                match text_of_value(&args[0]) {
                    Some(version) => if same_text(version.as_str(), "2") {
                        Some(2)
                    } else if same_text(version.as_str(), "3") {
                        Some(3)
                    } else {
                        None
                    },
                    None => Some(session.get_proto_version()),
                }
            } else {
                Some(session.get_proto_version())
            };
            match asked {
                None => write_error(writer, "Invalid version", now),
                Some(version) => {
                    session.set_proto_version(version);
                    let greeting = Hello::greet(version as u8);
                    session.versioned_response(&greeting, writer, now.now);
                },
            }
        }
        args.clear();
        proof {
            lemma_written(old(writer)@, expected.reply);
        }
        Ok(())
    }
}

} // verus!
