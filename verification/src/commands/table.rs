//! The closed set of commands, and the table that finds them by name.

use crate::clock::Reading;
use crate::commands::expire::expire::Expire;
use crate::commands::expire::setex::SetEx;
use crate::commands::expire::ttl::Ttl;
use crate::commands::general::del::Del;
use crate::commands::general::exist::Exists;
use crate::commands::general::flushdb::FlushDB;
use crate::commands::general::get::Get;
use crate::commands::general::hello::Hello;
use crate::commands::general::info::Info;
use crate::commands::general::keys::Keys;
use crate::commands::general::mget::MGet;
use crate::commands::general::mset::MSet;
use crate::commands::general::ping::Ping;
use crate::commands::general::set::SetKey;
use crate::commands::hash::hgetall::HGetAll;
use crate::commands::hash::hset::HSet;
use crate::commands::{key_of, lemma_written, refusal, write_error, written, CommandTrait, Outcome};
use crate::context::{Context, World};
use crate::error::Error;
use crate::session::Session;
use crate::storage::value::{all_wf, views, Data, Value};
use crate::text::{ascii_upper, same_text, to_upper};
use std::collections::VecDeque;
use vstd::prelude::*;

verus! {

/// One of the commands of the server.
#[derive(Clone, Copy, Debug, PartialEq, Eq, Structural)]
pub enum Command {
    Get(Get),
    SetKey(SetKey),
    Del(Del),
    MGet(MGet),
    Ping(Ping),
    MSet(MSet),
    Keys(Keys),
    Hello(Hello),
    Exists(Exists),
    FlushDB(FlushDB),
    Info(Info),
    Expire(Expire),
    Ttl(Ttl),
    SetEx(SetEx),
    HSet(HSet),
    HGetAll(HGetAll),
}

impl CommandTrait for Command {
    open spec fn spec_name(&self) -> Seq<char> {
        match self {
            Command::Get(c) => c.spec_name(),
            Command::SetKey(c) => c.spec_name(),
            Command::Del(c) => c.spec_name(),
            Command::MGet(c) => c.spec_name(),
            Command::Ping(c) => c.spec_name(),
            Command::MSet(c) => c.spec_name(),
            Command::Keys(c) => c.spec_name(),
            Command::Hello(c) => c.spec_name(),
            Command::Exists(c) => c.spec_name(),
            Command::FlushDB(c) => c.spec_name(),
            Command::Info(c) => c.spec_name(),
            Command::Expire(c) => c.spec_name(),
            Command::Ttl(c) => c.spec_name(),
            Command::SetEx(c) => c.spec_name(),
            Command::HSet(c) => c.spec_name(),
            Command::HGetAll(c) => c.spec_name(),
        }
    }

    open spec fn admits(
        &self,
        args: Seq<Data>,
        pre: World,
        proto: u8,
        now: Reading,
        out: Outcome,
    ) -> bool {
        match self {
            Command::Get(c) => c.admits(args, pre, proto, now, out),
            Command::SetKey(c) => c.admits(args, pre, proto, now, out),
            Command::Del(c) => c.admits(args, pre, proto, now, out),
            Command::MGet(c) => c.admits(args, pre, proto, now, out),
            Command::Ping(c) => c.admits(args, pre, proto, now, out),
            Command::MSet(c) => c.admits(args, pre, proto, now, out),
            Command::Keys(c) => c.admits(args, pre, proto, now, out),
            Command::Hello(c) => c.admits(args, pre, proto, now, out),
            Command::Exists(c) => c.admits(args, pre, proto, now, out),
            Command::FlushDB(c) => c.admits(args, pre, proto, now, out),
            Command::Info(c) => c.admits(args, pre, proto, now, out),
            Command::Expire(c) => c.admits(args, pre, proto, now, out),
            Command::Ttl(c) => c.admits(args, pre, proto, now, out),
            Command::SetEx(c) => c.admits(args, pre, proto, now, out),
            Command::HSet(c) => c.admits(args, pre, proto, now, out),
            Command::HGetAll(c) => c.admits(args, pre, proto, now, out),
        }
    }

    fn name(&self) -> (r: &'static str) {
        match self {
            Command::Get(c) => c.name(),
            Command::SetKey(c) => c.name(),
            Command::Del(c) => c.name(),
            Command::MGet(c) => c.name(),
            Command::Ping(c) => c.name(),
            Command::MSet(c) => c.name(),
            Command::Keys(c) => c.name(),
            Command::Hello(c) => c.name(),
            Command::Exists(c) => c.name(),
            Command::FlushDB(c) => c.name(),
            Command::Info(c) => c.name(),
            Command::Expire(c) => c.name(),
            Command::Ttl(c) => c.name(),
            Command::SetEx(c) => c.name(),
            Command::HSet(c) => c.name(),
            Command::HGetAll(c) => c.name(),
        }
    }

    fn handle_command(
        &self,
        writer: &mut Vec<u8>,
        args: &mut VecDeque<Value>,
        session: &mut Session,
        context: &mut Context,
        now: Reading,
    ) -> (r: Result<(), Error>) {
        match self {
            Command::Get(c) => c.handle_command(writer, args, session, context, now),
            Command::SetKey(c) => c.handle_command(writer, args, session, context, now),
            Command::Del(c) => c.handle_command(writer, args, session, context, now),
            Command::MGet(c) => c.handle_command(writer, args, session, context, now),
            Command::Ping(c) => c.handle_command(writer, args, session, context, now),
            Command::MSet(c) => c.handle_command(writer, args, session, context, now),
            Command::Keys(c) => c.handle_command(writer, args, session, context, now),
            Command::Hello(c) => c.handle_command(writer, args, session, context, now),
            Command::Exists(c) => c.handle_command(writer, args, session, context, now),
            Command::FlushDB(c) => c.handle_command(writer, args, session, context, now),
            Command::Info(c) => c.handle_command(writer, args, session, context, now),
            Command::Expire(c) => c.handle_command(writer, args, session, context, now),
            Command::Ttl(c) => c.handle_command(writer, args, session, context, now),
            Command::SetEx(c) => c.handle_command(writer, args, session, context, now),
            Command::HSet(c) => c.handle_command(writer, args, session, context, now),
            Command::HGetAll(c) => c.handle_command(writer, args, session, context, now),
        }
    }
}

/// The index of the first entry at or after `from` that stands under
/// `name`, or the number of entries where there is none.
pub open spec fn find_name(table: Seq<(Seq<char>, Command)>, name: Seq<char>, from: int) -> int
    decreases table.len() - from,
{
    if from < 0 || from >= table.len() {
        table.len() as int
    } else if table[from].0 == name {
        from
    } else {
        find_name(table, name, from + 1)
    }
}

/// The table after `command` has been entered under `name`: in place of
/// the command that stood under the name, or at the end.
pub open spec fn put_name(
    table: Seq<(Seq<char>, Command)>,
    name: Seq<char>,
    command: Command,
) -> Seq<(Seq<char>, Command)> {
    let i = find_name(table, name, 0);
    if i < table.len() {
        table.update(i, (name, command))
    } else {
        table.push((name, command))
    }
}

/// The table after every command has been entered under its name in upper
/// case.
pub open spec fn standard(table: Seq<(Seq<char>, Command)>) -> Seq<(Seq<char>, Command)> {
    put_name(
                put_name(
                put_name(
                put_name(
                put_name(
                put_name(
                put_name(
                put_name(
                put_name(
                put_name(
                put_name(
                put_name(
                put_name(
                put_name(
                put_name(
                put_name(
                table,
                ascii_upper(Get.spec_name()),
                Command::Get(Get),
            ),
                ascii_upper(SetKey.spec_name()),
                Command::SetKey(SetKey),
            ),
                ascii_upper(Del.spec_name()),
                Command::Del(Del),
            ),
                ascii_upper(MGet.spec_name()),
                Command::MGet(MGet),
            ),
                ascii_upper(Ping.spec_name()),
                Command::Ping(Ping),
            ),
                ascii_upper(MSet.spec_name()),
                Command::MSet(MSet),
            ),
                ascii_upper(Keys.spec_name()),
                Command::Keys(Keys),
            ),
                ascii_upper(Hello.spec_name()),
                Command::Hello(Hello),
            ),
                ascii_upper(Exists.spec_name()),
                Command::Exists(Exists),
            ),
                ascii_upper(FlushDB.spec_name()),
                Command::FlushDB(FlushDB),
            ),
                ascii_upper(Info.spec_name()),
                Command::Info(Info),
            ),
                ascii_upper(Expire.spec_name()),
                Command::Expire(Expire),
            ),
                ascii_upper(Ttl.spec_name()),
                Command::Ttl(Ttl),
            ),
                ascii_upper(SetEx.spec_name()),
                Command::SetEx(SetEx),
            ),
                ascii_upper(HSet.spec_name()),
                Command::HSet(HSet),
            ),
                ascii_upper(HGetAll.spec_name()),
                Command::HGetAll(HGetAll),
            )
}

/// The commands that a server knows, each under its name in upper case.
pub struct CommandHandler {
    commands: Vec<(String, Command)>,
}

impl CommandHandler {
    /// The entries of the table: names and their commands.
    pub closed spec fn table(&self) -> Seq<(Seq<char>, Command)> {
        Seq::new(self.commands@.len(), |i: int| (self.commands@[i].0@, self.commands@[i].1))
    }

    /// The command that a request calls: the one that stands under the
    /// request's first word in upper case.
    pub open spec fn called(&self, word: Seq<char>) -> Option<Command> {
        let i = find_name(self.table(), ascii_upper(word), 0);
        if i < self.table().len() {
            Some(self.table()[i].1)
        } else {
            None
        }
    }

    /// Whether `out` is an outcome of the request `request`: of the command
    /// that its first value calls, on the values that follow. A request
    /// whose first value is no bulk string, and one that calls no command of
    /// the table, change nothing and are answered with an error.
    pub open spec fn admits(
        &self,
        request: Seq<Data>,
        pre: World,
        proto: u8,
        now: Reading,
        out: Outcome,
    ) -> bool {
        if request.len() == 0 || !(request[0] is String) {
            out == refusal(pre, proto, now, "Invalid command"@)
        } else {
            match self.called(key_of(request[0])) {
                Some(command) => command.admits(request.skip(1), pre, proto, now, out),
                None => out == refusal(pre, proto, now, "Unknown command"@),
            }
        }
    }

    /// A table without commands.
    pub fn new() -> (r: CommandHandler)
        ensures
            r.table() == Seq::<(Seq<char>, Command)>::empty(),
    {
        let r = CommandHandler { commands: Vec::new() };
        assert(r.table() =~= Seq::<(Seq<char>, Command)>::empty());
        r
    }

    /// Finds the entry that stands under `name`.
    fn find(&self, name: &str) -> (i: usize)
        ensures
            i == find_name(self.table(), name@, 0),
            i <= self.commands@.len(),
    {
        let mut i: usize = 0;
        while i < self.commands.len()
            invariant
                i <= self.commands@.len(),
                find_name(self.table(), name@, 0) == find_name(self.table(), name@, i as int),
            decreases self.commands@.len() - i,
        {
            if same_text(self.commands[i].0.as_str(), name) {
                return i;
            }
            i += 1;
        }
        i
    }

    /// Enters a command under its name in upper case.
    pub fn register_command(&mut self, command: Command)
        ensures
            final(self).table() == put_name(
                old(self).table(),
                ascii_upper(command.spec_name()),
                command,
            ),
    {
        let name = to_upper(command.name());
        let i = self.find(name.as_str());
        if i < self.commands.len() {
            self.commands[i] = (name, command);
        } else {
            self.commands.push((name, command));
        }
        assert(self.table() =~= put_name(
            old(self).table(),
            ascii_upper(command.spec_name()),
            command,
        ));
    }

    /// Enters every command of the server.
    pub fn register(&mut self)
        ensures
            final(self).table() == standard(old(self).table()),
    {
        self.register_command(Command::Get(Get));
        self.register_command(Command::SetKey(SetKey));
        self.register_command(Command::Del(Del));
        self.register_command(Command::MGet(MGet));
        self.register_command(Command::Ping(Ping));
        self.register_command(Command::MSet(MSet));
        self.register_command(Command::Keys(Keys));
        self.register_command(Command::Hello(Hello));
        self.register_command(Command::Exists(Exists));
        self.register_command(Command::FlushDB(FlushDB));
        self.register_command(Command::Info(Info));
        self.register_command(Command::Expire(Expire));
        self.register_command(Command::Ttl(Ttl));
        self.register_command(Command::SetEx(SetEx));
        self.register_command(Command::HSet(HSet));
        self.register_command(Command::HGetAll(HGetAll));
    }

    /// Carries out a request: the command that its first value calls, on
    /// the values that follow. The request is used up.
    pub fn handle_command(
        &self,
        writer: &mut Vec<u8>,
        args: &mut VecDeque<Value>,
        session: &mut Session,
        context: &mut Context,
        now: Reading,
    ) -> (r: Result<(), Error>)
        requires
            old(context).wf(),
            all_wf(old(args)@),
        ensures
            final(context).wf(),
            final(args)@.len() == 0,
            old(writer)@.is_prefix_of(final(writer)@),
            r matches Err(e) ==> e is Glob,
            self.admits(
                views(old(args)@),
                old(context)@,
                old(session).proto(),
                now,
                (Outcome {
                    world: final(context)@,
                    proto: final(session).proto(),
                    reply: written(old(writer)@, final(writer)@),
                    failed: r is Err,
                }),
            ),
    {
        let ghost request = views(args@);
        let ghost given = args@;
        let word = match args.pop_front() {
            Some(Value::String(word)) => word,
            _ => {
                write_error(writer, "Invalid command", now);
                args.clear();
                proof {
                    lemma_written(
                        old(writer)@,
                        refusal(context@, session.proto(), now, "Invalid command"@).reply,
                    );
                }
                return Ok(());
            },
        };
        proof {
            assert(request[0] == given[0]@);
            assert forall|j: int| 0 <= j < args@.len() implies #[trigger] views(args@)[j]
                == request.skip(1)[j] by {
                assert(args@[j] == given[j + 1]);
            }
            assert(views(args@) =~= request.skip(1));
            assert forall|j: int| 0 <= j < args@.len() implies (#[trigger] args@[j])@.wf() by {
                assert(args@[j] == given[j + 1]);
            }
        }
        let name = to_upper(word.as_str());
        let i = self.find(name.as_str());
        if i < self.commands.len() {
            let command = self.commands[i].1;
            command.handle_command(writer, args, session, context, now)
        } else {
            write_error(writer, "Unknown command", now);
            args.clear();
            proof {
                lemma_written(
                    old(writer)@,
                    refusal(context@, session.proto(), now, "Unknown command"@).reply,
                );
            }
            Ok(())
        }
    }
}

} // verus!
