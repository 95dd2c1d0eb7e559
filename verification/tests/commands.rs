use crabdis::clock::Reading;
use crabdis::commands::table::CommandHandler;
use crabdis::context::Context;
use crabdis::error::Error;
use crabdis::handler::handle_request;
use crabdis::session::Session;
use crabdis::storage::value::Value;
use crabdis::commands::CommandTrait;
use crabdis::commands::expire::expire::Expire;
use crabdis::commands::expire::setex::SetEx;
use crabdis::commands::expire::ttl::Ttl;
use crabdis::commands::general::del::Del;
use crabdis::commands::general::exist::Exists;
use crabdis::commands::general::flushdb::FlushDB;
use crabdis::commands::general::get::Get;
use crabdis::commands::general::hello::Hello;
use crabdis::commands::general::info::Info;
use crabdis::commands::general::keys::Keys;
use crabdis::commands::general::mget::MGet;
use crabdis::commands::general::mset::MSet;
use crabdis::commands::general::ping::Ping;
use crabdis::commands::general::set::SetKey;
use crabdis::commands::hash::hgetall::HGetAll;
use crabdis::commands::hash::hset::HSet;
use crabdis::commands::table::Command;
use std::collections::VecDeque;

struct Server {
    commands: CommandHandler,
    context: Context,
    session: Session,
}

fn server() -> Server {
    let mut commands = CommandHandler::new();
    commands.register();
    Server {
        commands,
        context: Context::new(),
        session: Session::new(),
    }
}

fn at(now: u64) -> Reading {
    Reading {
        now,
        unix: 1_000_000 + now,
    }
}

fn request(words: &[&str]) -> Value {
    Value::Multi(words.iter().map(|w| Value::String(w.to_string())).collect())
}

fn send_value(s: &mut Server, request: Value, now: u64) -> Result<String, Error> {
    let mut out = Vec::new();
    handle_request(
        request,
        &mut out,
        &mut s.session,
        &s.commands,
        &mut s.context,
        at(now),
    )?;
    Ok(String::from_utf8(out).unwrap())
}

fn send(s: &mut Server, words: &[&str], now: u64) -> String {
    send_value(s, request(words), now).unwrap()
}

fn stored(s: &Server, key: &str) -> Option<Value> {
    s.context.store.get(key).cloned()
}

fn text(v: &str) -> Value {
    Value::String(v.to_string())
}

#[test]
fn set_then_get_returns_the_value() {
    let mut s = server();
    assert_eq!(send(&mut s, &["SET", "k", "v"], 0), "+OK\r\n");
    assert_eq!(send(&mut s, &["GET", "k"], 0), "$1\r\nv\r\n");
    assert_eq!(send(&mut s, &["GET", "k"], 1_000_000), "$1\r\nv\r\n");
    assert_eq!(stored(&s, "k"), Some(text("v")));
}

#[test]
fn get_of_a_key_that_holds_nothing_is_nil() {
    let mut s = server();
    assert_eq!(send(&mut s, &["GET", "k"], 0), "$-1\r\n");
}

#[test]
fn get_checks_its_arguments() {
    let mut s = server();
    assert_eq!(send(&mut s, &["GET"], 0), "-Invalid number of arguments\r\n");
    assert_eq!(send(&mut s, &["GET", "a", "b"], 0), "-Invalid number of arguments\r\n");
    let r = Value::Multi(VecDeque::from([text("GET"), Value::Integer(1)]));
    assert_eq!(send_value(&mut s, r, 0).unwrap(), "-Invalid key\r\n");
}

#[test]
fn names_of_commands_are_read_in_any_case() {
    let mut s = server();
    assert_eq!(send(&mut s, &["set", "k", "v"], 0), "+OK\r\n");
    assert_eq!(send(&mut s, &["gEt", "k"], 0), "$1\r\nv\r\n");
    assert_eq!(send(&mut s, &["ping"], 0), "+PONG\r\n");
}

#[test]
fn unknown_and_invalid_commands_are_answered_with_errors() {
    let mut s = server();
    assert_eq!(send(&mut s, &["NOPE"], 0), "-Unknown command\r\n");
    assert_eq!(send(&mut s, &["G\u{c9}T", "k"], 0), "-Unknown command\r\n");
    assert_eq!(send(&mut s, &[], 0), "-Invalid command\r\n");
    let r = Value::Multi(VecDeque::from([Value::Integer(1)]));
    assert_eq!(send_value(&mut s, r, 0).unwrap(), "-Invalid command\r\n");
    assert_eq!(send_value(&mut s, text("GET"), 0).unwrap(), "-Invalid request\r\n");
    assert_eq!(send_value(&mut s, Value::Nil, 0).unwrap(), "-Invalid request\r\n");
}

#[test]
fn a_table_without_commands_knows_none() {
    let commands = CommandHandler::new();
    let mut context = Context::new();
    let mut session = Session::new();
    let mut out = Vec::new();
    handle_request(request(&["PING"]), &mut out, &mut session, &commands, &mut context, at(0))
        .unwrap();
    assert_eq!(out, b"-Unknown command\r\n");
}

#[test]
fn a_command_registered_again_stays_once() {
    let mut commands = CommandHandler::new();
    commands.register_command(Command::Ping(Ping));
    commands.register_command(Command::Ping(Ping));
    let mut context = Context::new();
    let mut session = Session::new();
    let mut out = Vec::new();
    handle_request(request(&["PING"]), &mut out, &mut session, &commands, &mut context, at(0))
        .unwrap();
    handle_request(request(&["GET", "k"]), &mut out, &mut session, &commands, &mut context, at(0))
        .unwrap();
    assert_eq!(out, b"+PONG\r\n-Unknown command\r\n");
}

#[test]
fn commands_tell_their_names() {
    assert_eq!(Get.name(), "GET");
    assert_eq!(SetKey.name(), "SET");
    assert_eq!(Del.name(), "DEL");
    assert_eq!(MGet.name(), "MGET");
    assert_eq!(MSet.name(), "MSET");
    assert_eq!(Ping.name(), "PING");
    assert_eq!(Keys.name(), "KEYS");
    assert_eq!(Hello.name(), "HELLO");
    assert_eq!(Exists.name(), "EXISTS");
    assert_eq!(FlushDB.name(), "FLUSHDB");
    assert_eq!(Info.name(), "INFO");
    assert_eq!(Expire.name(), "EXPIRE");
    assert_eq!(Ttl.name(), "TTL");
    assert_eq!(SetEx.name(), "SETEX");
    assert_eq!(HSet.name(), "HSET");
    assert_eq!(HGetAll.name(), "HGETALL");
    assert_eq!(Command::HSet(HSet).name(), "HSET");
}

#[test]
fn set_checks_its_arguments() {
    let mut s = server();
    assert_eq!(send(&mut s, &["SET", "k"], 0), "-Invalid number of arguments\r\n");
    let r = Value::Multi(VecDeque::from([text("SET"), Value::Integer(1), text("v")]));
    assert_eq!(send_value(&mut s, r, 0).unwrap(), "-Invalid key\r\n");
    assert_eq!(send(&mut s, &["SET", "k", "v", "what"], 0), "-Invalid argument WHAT\r\n");
    let r = Value::Multi(VecDeque::from([text("SET"), text("k"), text("v"), Value::Nil]));
    assert_eq!(send_value(&mut s, r, 0).unwrap(), "-Invalid argument\r\n");
    assert_eq!(stored(&s, "k"), None);
}

#[test]
fn set_with_ex_of_nothing_or_less_is_refused() {
    let mut s = server();
    assert_eq!(send(&mut s, &["SET", "k", "old"], 0), "+OK\r\n");
    for n in ["0", "-1", "-9223372036854775808", "abc", "", "1.5"] {
        for word in ["EX", "PX", "EXAT", "PXAT", "ex"] {
            assert_eq!(
                send(&mut s, &["SET", "k", "new", word, n], 0),
                "-Invalid expire time\r\n"
            );
        }
    }
    assert_eq!(send(&mut s, &["SET", "k", "new", "EX"], 0), "-Invalid expire time\r\n");
    let r = Value::Multi(VecDeque::from([
        text("SET"),
        text("k"),
        text("new"),
        text("EX"),
        Value::Integer(0),
    ]));
    assert_eq!(send_value(&mut s, r, 0).unwrap(), "-Invalid expire time\r\n");
    assert_eq!(stored(&s, "k"), Some(text("old")));
    assert!(s.context.expire_keys.keys().is_empty());
}

#[test]
fn set_options_that_exclude_each_other_are_refused() {
    let mut s = server();
    assert_eq!(send(&mut s, &["SET", "k", "v", "NX", "XX"], 0), "-Invalid argument XX\r\n");
    assert_eq!(send(&mut s, &["SET", "k", "v", "xx", "nx"], 0), "-Invalid argument NX\r\n");
    assert_eq!(
        send(&mut s, &["SET", "k", "v", "EX", "1", "PX", "1"], 0),
        "-Invalid argument PX\r\n"
    );
    assert_eq!(
        send(&mut s, &["SET", "k", "v", "KEEPTTL", "EX", "1"], 0),
        "-Invalid argument EX\r\n"
    );
    assert_eq!(
        send(&mut s, &["SET", "k", "v", "EX", "1", "KEEPTTL"], 0),
        "-Invalid argument KEEPTTL\r\n"
    );
    assert_eq!(stored(&s, "k"), None);
}

#[test]
fn set_with_ex_gives_the_value_a_deadline() {
    let mut s = server();
    assert_eq!(send(&mut s, &["SET", "k", "v", "EX", "10"], 500), "+OK\r\n");
    assert_eq!(stored(&s, "k"), Some(Value::Expire(Box::new(text("v")), 10_500)));
    assert_eq!(s.context.expire_keys.keys(), vec!["k".to_string()]);
    assert_eq!(send(&mut s, &["GET", "k"], 10_500), "$1\r\nv\r\n");
    assert_eq!(send(&mut s, &["GET", "k"], 10_501), "$-1\r\n");
}

#[test]
fn set_with_px_exat_and_pxat() {
    let mut s = server();
    assert_eq!(send(&mut s, &["SET", "a", "v", "px", "250"], 500), "+OK\r\n");
    assert_eq!(stored(&s, "a"), Some(Value::Expire(Box::new(text("v")), 750)));
    // the wall clock shows 1_000_500 ms when the monotonic clock shows 500
    assert_eq!(send(&mut s, &["SET", "b", "v", "EXAT", "1002"], 500), "+OK\r\n");
    assert_eq!(stored(&s, "b"), Some(Value::Expire(Box::new(text("v")), 2_000)));
    assert_eq!(send(&mut s, &["SET", "c", "v", "PXAT", "1000501"], 500), "+OK\r\n");
    assert_eq!(stored(&s, "c"), Some(Value::Expire(Box::new(text("v")), 501)));
    assert_eq!(send(&mut s, &["SET", "d", "v", "EXAT", "1"], 500), "+OK\r\n");
    assert_eq!(stored(&s, "d"), Some(Value::Expire(Box::new(text("v")), 500)));
    assert_eq!(
        send(&mut s, &["SET", "e", "v", "EX", "9223372036854775807"], 500),
        "+OK\r\n"
    );
    assert_eq!(stored(&s, "e"), Some(Value::Expire(Box::new(text("v")), u64::MAX)));
    assert_eq!(
        send(&mut s, &["SET", "f", "v", "PXAT", "9223372036854775807"], 500),
        "+OK\r\n"
    );
    assert_eq!(
        stored(&s, "f"),
        Some(Value::Expire(Box::new(text("v")), 9223372036854775807 - 1_000_500 + 500))
    );
}

#[test]
fn set_nx_twice_keeps_the_first_value() {
    let mut s = server();
    assert_eq!(send(&mut s, &["SET", "k", "v1", "NX"], 0), "+OK\r\n");
    assert_eq!(send(&mut s, &["SET", "k", "v2", "NX"], 0), "$-1\r\n");
    assert_eq!(stored(&s, "k"), Some(text("v1")));
}

#[test]
fn set_xx_on_a_key_that_holds_nothing_changes_nothing() {
    let mut s = server();
    assert_eq!(send(&mut s, &["SET", "k", "v2", "XX"], 0), "$-1\r\n");
    assert_eq!(stored(&s, "k"), None);
    assert_eq!(s.context.store.len(), 0);
    assert_eq!(send(&mut s, &["SET", "k", "v1"], 0), "+OK\r\n");
    assert_eq!(send(&mut s, &["SET", "k", "v2", "XX"], 0), "+OK\r\n");
    assert_eq!(stored(&s, "k"), Some(text("v2")));
}

#[test]
fn set_nx_takes_an_expired_value_for_none() {
    let mut s = server();
    assert_eq!(send(&mut s, &["SET", "k", "v1", "PX", "5"], 0), "+OK\r\n");
    assert_eq!(send(&mut s, &["SET", "k", "v2", "XX"], 6), "$-1\r\n");
    assert_eq!(send(&mut s, &["SET", "k", "v2", "NX"], 6), "+OK\r\n");
    assert_eq!(stored(&s, "k"), Some(text("v2")));
}

#[test]
fn set_get_replies_with_what_the_key_held() {
    let mut s = server();
    assert_eq!(send(&mut s, &["SET", "k", "v1", "GET"], 0), "$-1\r\n");
    assert_eq!(send(&mut s, &["SET", "k", "v2", "GET"], 0), "$2\r\nv1\r\n");
    assert_eq!(stored(&s, "k"), Some(text("v2")));
}

#[test]
fn set_keepttl_keeps_the_deadline() {
    let mut s = server();
    assert_eq!(send(&mut s, &["SET", "k", "v1", "PX", "100"], 0), "+OK\r\n");
    assert_eq!(send(&mut s, &["SET", "k", "v2", "KEEPTTL"], 10), "+OK\r\n");
    assert_eq!(stored(&s, "k"), Some(Value::Expire(Box::new(text("v2")), 100)));
    assert_eq!(send(&mut s, &["SET", "k", "v3"], 10), "+OK\r\n");
    assert_eq!(stored(&s, "k"), Some(text("v3")));
    assert_eq!(send(&mut s, &["SET", "k", "v4", "KEEPTTL"], 10), "+OK\r\n");
    assert_eq!(stored(&s, "k"), Some(text("v4")));
}

#[test]
fn set_replaces_a_deadline_and_does_not_stack_it() {
    let mut s = server();
    let r = Value::Multi(VecDeque::from([
        text("SET"),
        text("k"),
        Value::Expire(Box::new(text("v")), 7),
        text("PX"),
        text("100"),
    ]));
    assert_eq!(send_value(&mut s, r, 0).unwrap(), "+OK\r\n");
    assert_eq!(stored(&s, "k"), Some(Value::Expire(Box::new(text("v")), 100)));
}

#[test]
fn del_counts_what_it_removes() {
    let mut s = server();
    assert_eq!(send(&mut s, &["DEL", "k"], 0), ":0\r\n");
    send(&mut s, &["SET", "k1", "v"], 0);
    send(&mut s, &["SET", "k3", "v"], 0);
    assert_eq!(send(&mut s, &["DEL", "k1", "k2"], 0), ":1\r\n");
    assert_eq!(stored(&s, "k1"), None);
    assert_eq!(stored(&s, "k3"), Some(text("v")));
    assert_eq!(s.context.store.keys(), vec!["k3".to_string()]);
    assert_eq!(send(&mut s, &["DEL", "k3", "k3"], 0), ":1\r\n");
    assert_eq!(s.context.store.len(), 0);
}

#[test]
fn del_checks_its_arguments_before_it_removes() {
    let mut s = server();
    send(&mut s, &["SET", "k1", "v"], 0);
    assert_eq!(send(&mut s, &["DEL"], 0), "-Invalid number of arguments\r\n");
    let r = Value::Multi(VecDeque::from([text("DEL"), text("k1"), Value::Integer(2)]));
    assert_eq!(send_value(&mut s, r, 0).unwrap(), "-Invalid key\r\n");
    assert_eq!(stored(&s, "k1"), Some(text("v")));
}

#[test]
fn exists_counts_what_has_not_expired() {
    let mut s = server();
    send(&mut s, &["SET", "a", "v"], 0);
    send(&mut s, &["SET", "b", "v", "PX", "5"], 0);
    assert_eq!(send(&mut s, &["EXISTS", "a", "b", "c", "a"], 5), ":3\r\n");
    assert_eq!(send(&mut s, &["EXISTS", "a", "b", "c", "a"], 6), ":2\r\n");
    assert_eq!(send(&mut s, &["EXISTS"], 0), "-Invalid number of arguments\r\n");
    let r = Value::Multi(VecDeque::from([text("EXISTS"), Value::Nil]));
    assert_eq!(send_value(&mut s, r, 0).unwrap(), "-Invalid key\r\n");
}

#[test]
fn mset_and_mget() {
    let mut s = server();
    assert_eq!(send(&mut s, &["MSET", "a", "1", "b", "2", "a", "3"], 0), "+OK\r\n");
    assert_eq!(
        send(&mut s, &["MGET", "a", "x", "b"], 0),
        "*3\r\n$1\r\n3\r\n$-1\r\n$1\r\n2\r\n"
    );
    assert_eq!(s.context.store.keys(), vec!["a".to_string(), "b".to_string()]);
}

#[test]
fn mset_puts_nothing_where_an_argument_is_refused() {
    let mut s = server();
    assert_eq!(send(&mut s, &["MSET", "a"], 0), "-Invalid number of arguments\r\n");
    assert_eq!(send(&mut s, &["MSET", "a", "1", "b"], 0), "-Invalid number of arguments\r\n");
    assert_eq!(send(&mut s, &["MSET"], 0), "-Invalid number of arguments\r\n");
    let r = Value::Multi(VecDeque::from([
        text("MSET"),
        text("a"),
        text("1"),
        Value::Integer(2),
        text("2"),
    ]));
    assert_eq!(send_value(&mut s, r, 0).unwrap(), "-Invalid key\r\n");
    assert_eq!(s.context.store.len(), 0);
}

#[test]
fn mget_reads_expired_values_as_nil() {
    let mut s = server();
    send(&mut s, &["SET", "a", "v", "PX", "5"], 0);
    assert_eq!(send(&mut s, &["MGET", "a"], 5), "*1\r\n$1\r\nv\r\n");
    assert_eq!(send(&mut s, &["MGET", "a"], 6), "*1\r\n$-1\r\n");
    assert_eq!(send(&mut s, &["MGET"], 0), "-Invalid number of arguments\r\n");
    let r = Value::Multi(VecDeque::from([text("MGET"), Value::Nil]));
    assert_eq!(send_value(&mut s, r, 0).unwrap(), "-Invalid key\r\n");
}

#[test]
fn flushdb_empties_the_store() {
    let mut s = server();
    send(&mut s, &["SET", "a", "v"], 0);
    send(&mut s, &["SET", "b", "v", "EX", "5"], 0);
    assert_eq!(send(&mut s, &["FLUSHDB", "x", "y"], 0), "-Invalid number of arguments\r\n");
    assert_eq!(s.context.store.len(), 2);
    assert_eq!(send(&mut s, &["FLUSHDB", "ASYNC"], 0), "+OK\r\n");
    assert_eq!(s.context.store.len(), 0);
    assert_eq!(send(&mut s, &["GET", "a"], 0), "$-1\r\n");
    assert_eq!(s.context.expire_keys.keys(), vec!["b".to_string()]);
    assert_eq!(send(&mut s, &["FLUSHDB"], 0), "+OK\r\n");
}

#[test]
fn ping_echoes_its_argument() {
    let mut s = server();
    assert_eq!(send(&mut s, &["PING"], 0), "+PONG\r\n");
    assert_eq!(send(&mut s, &["PING", "hi"], 0), "$2\r\nhi\r\n");
    assert_eq!(send(&mut s, &["PING", "a", "b"], 0), "-Invalid number of arguments\r\n");
    let r = Value::Multi(VecDeque::from([text("PING"), Value::Integer(3)]));
    assert_eq!(send_value(&mut s, r, 0).unwrap(), ":3\r\n");
}

#[test]
fn info_tells_the_state_of_the_server() {
    let mut s = server();
    assert_eq!(send(&mut s, &["INFO"], 0), "$9\r\nloading:0\r\n");
    assert_eq!(send(&mut s, &["INFO", "x"], 0), "-Invalid number of arguments\r\n");
}

#[test]
fn hello_agrees_on_the_version() {
    let mut s = server();
    let two = "*14\r\n$6\r\nserver\r\n$7\r\ncrabdis\r\n$7\r\nversion\r\n$5\r\n0.1.0\r\n$5\r\nproto\r\n:2\r\n$2\r\nid\r\n:0\r\n$4\r\nmode\r\n$10\r\nstandalone\r\n$4\r\nrole\r\n$6\r\nmaster\r\n$7\r\nmodules\r\n*0\r\n";
    let three = "%7\r\n$6\r\nserver\r\n$7\r\ncrabdis\r\n$7\r\nversion\r\n$5\r\n0.1.0\r\n$5\r\nproto\r\n:3\r\n$2\r\nid\r\n:0\r\n$4\r\nmode\r\n$10\r\nstandalone\r\n$4\r\nrole\r\n$6\r\nmaster\r\n$7\r\nmodules\r\n*0\r\n";
    assert_eq!(send(&mut s, &["HELLO"], 0), two);
    assert_eq!(s.session.get_proto_version(), 2);
    assert_eq!(send(&mut s, &["HELLO", "3"], 0), three);
    assert_eq!(s.session.get_proto_version(), 3);
    assert_eq!(send(&mut s, &["HELLO"], 0), three);
    assert_eq!(send(&mut s, &["HELLO", "4"], 0), "-Invalid version\r\n");
    assert_eq!(send(&mut s, &["HELLO", "03"], 0), "-Invalid version\r\n");
    assert_eq!(s.session.get_proto_version(), 3);
    let r = Value::Multi(VecDeque::from([text("HELLO"), Value::Integer(2)]));
    assert_eq!(send_value(&mut s, r, 0).unwrap(), three);
    assert_eq!(send(&mut s, &["HELLO", "2"], 0), two);
    assert_eq!(s.session.get_proto_version(), 2);
    assert_eq!(send(&mut s, &["HELLO", "2", "3"], 0), "-Invalid number of arguments\r\n");
}

#[test]
fn expire_then_get_and_ttl() {
    let mut s = server();
    send(&mut s, &["SET", "k", "v"], 0);
    assert_eq!(send(&mut s, &["TTL", "k"], 0), ":-1\r\n");
    assert_eq!(send(&mut s, &["TTL", "absent"], 0), ":-2\r\n");
    assert_eq!(send(&mut s, &["EXPIRE", "k", "1"], 100), "+OK\r\n");
    assert_eq!(stored(&s, "k"), Some(Value::Expire(Box::new(text("v")), 1_100)));
    assert_eq!(s.context.expire_keys.keys(), vec!["k".to_string()]);
    assert_eq!(send(&mut s, &["GET", "k"], 1_100), "$1\r\nv\r\n");
    assert_eq!(send(&mut s, &["GET", "k"], 1_101), "$-1\r\n");
    assert_eq!(send(&mut s, &["TTL", "k"], 1_101), ":-2\r\n");
    assert_eq!(send(&mut s, &["TTL", "k"], 100), ":1\r\n");
    assert_eq!(send(&mut s, &["TTL", "k"], 101), ":0\r\n");
    assert_eq!(send(&mut s, &["TTL", "k"], 1_100), ":0\r\n");
}

#[test]
fn ttl_counts_whole_seconds() {
    let mut s = server();
    send(&mut s, &["SET", "k", "v", "PX", "10500"], 0);
    assert_eq!(send(&mut s, &["TTL", "k"], 0), ":10\r\n");
    assert_eq!(send(&mut s, &["TTL", "k"], 500), ":10\r\n");
    assert_eq!(send(&mut s, &["TTL", "k"], 501), ":9\r\n");
    assert_eq!(send(&mut s, &["TTL", "k"], 9_500), ":1\r\n");
    assert_eq!(send(&mut s, &["TTL", "k"], 9_501), ":0\r\n");
    assert_eq!(send(&mut s, &["TTL", "k"], 10_500), ":0\r\n");
    assert_eq!(send(&mut s, &["TTL", "k"], 10_501), ":-2\r\n");
    assert_eq!(send(&mut s, &["TTL", "k"], 20_000), ":-2\r\n");
    assert_eq!(send(&mut s, &["TTL"], 0), "-Invalid number of arguments\r\n");
    let r = Value::Multi(VecDeque::from([text("TTL"), Value::Nil]));
    assert_eq!(send_value(&mut s, r, 0).unwrap(), "-Invalid key\r\n");
}

#[test]
fn expire_replaces_a_deadline() {
    let mut s = server();
    send(&mut s, &["SET", "k", "v", "EX", "100"], 0);
    assert_eq!(send(&mut s, &["EXPIRE", "k", "0"], 50), "+OK\r\n");
    assert_eq!(stored(&s, "k"), Some(Value::Expire(Box::new(text("v")), 50)));
    assert_eq!(s.context.expire_keys.keys(), vec!["k".to_string()]);
    let r = Value::Multi(VecDeque::from([text("EXPIRE"), text("k"), Value::Integer(2)]));
    assert_eq!(send_value(&mut s, r, 50).unwrap(), "+OK\r\n");
    assert_eq!(stored(&s, "k"), Some(Value::Expire(Box::new(text("v")), 2_050)));
}

#[test]
fn expire_checks_its_arguments() {
    let mut s = server();
    send(&mut s, &["SET", "k", "v"], 0);
    assert_eq!(send(&mut s, &["EXPIRE", "k"], 0), "-Invalid number of arguments\r\n");
    assert_eq!(send(&mut s, &["EXPIRE", "k", "-1"], 0), "-Invalid seconds\r\n");
    assert_eq!(send(&mut s, &["EXPIRE", "k", "soon"], 0), "-Invalid seconds\r\n");
    assert_eq!(send(&mut s, &["EXPIRE", "absent", "1"], 0), "-Key not found\r\n");
    let r = Value::Multi(VecDeque::from([text("EXPIRE"), text("k"), Value::Nil]));
    assert_eq!(send_value(&mut s, r, 0).unwrap(), "-Invalid seconds\r\n");
    let r = Value::Multi(VecDeque::from([text("EXPIRE"), Value::Nil, text("1")]));
    assert_eq!(send_value(&mut s, r, 0).unwrap(), "-Invalid key\r\n");
    assert_eq!(stored(&s, "k"), Some(text("v")));
    send(&mut s, &["SET", "gone", "v", "PX", "1"], 0);
    assert_eq!(send(&mut s, &["EXPIRE", "gone", "10"], 5), "-Key not found\r\n");
}

#[test]
fn setex_puts_a_value_with_a_deadline() {
    let mut s = server();
    assert_eq!(send(&mut s, &["SETEX", "k", "2", "v"], 10), "+OK\r\n");
    assert_eq!(stored(&s, "k"), Some(Value::Expire(Box::new(text("v")), 2_010)));
    assert_eq!(s.context.expire_keys.keys(), vec!["k".to_string()]);
    assert_eq!(send(&mut s, &["SETEX", "k", "0", "w"], 10), "+OK\r\n");
    assert_eq!(stored(&s, "k"), Some(Value::Expire(Box::new(text("w")), 10)));
    assert_eq!(send(&mut s, &["SETEX", "k", "-1", "w"], 10), "-Invalid seconds\r\n");
    assert_eq!(send(&mut s, &["SETEX", "k", "x", "w"], 10), "-Invalid seconds\r\n");
    assert_eq!(send(&mut s, &["SETEX", "k", "1"], 10), "-Invalid number of arguments\r\n");
    let r = Value::Multi(VecDeque::from([text("SETEX"), Value::Nil, text("1"), text("v")]));
    assert_eq!(send_value(&mut s, r, 0).unwrap(), "-Invalid key\r\n");
    let r = Value::Multi(VecDeque::from([text("SETEX"), text("k"), Value::Nil, text("v")]));
    assert_eq!(send_value(&mut s, r, 0).unwrap(), "-Invalid seconds\r\n");
}

#[test]
fn hset_then_hgetall() {
    let mut s = server();
    assert_eq!(send(&mut s, &["HSET", "h", "f1", "v1", "f2", "v2"], 0), ":2\r\n");
    assert_eq!(
        stored(&s, "h"),
        Some(Value::Hashmap(vec![
            (text("f1"), text("v1")),
            (text("f2"), text("v2")),
        ]))
    );
    assert_eq!(
        send(&mut s, &["HGETALL", "h"], 0),
        "*4\r\n$2\r\nf1\r\n$2\r\nv1\r\n$2\r\nf2\r\n$2\r\nv2\r\n"
    );
    send(&mut s, &["HELLO", "3"], 0);
    assert_eq!(
        send(&mut s, &["HGETALL", "h"], 0),
        "%2\r\n$2\r\nf1\r\n$2\r\nv1\r\n$2\r\nf2\r\n$2\r\nv2\r\n"
    );
    assert_eq!(send(&mut s, &["HGETALL", "absent"], 0), "$_\r\n");
    send(&mut s, &["HELLO", "2"], 0);
    assert_eq!(send(&mut s, &["HGETALL", "absent"], 0), "$-1\r\n");
}

#[test]
fn hset_replaces_a_field_in_its_place() {
    let mut s = server();
    send(&mut s, &["HSET", "h", "f1", "v1", "f2", "v2"], 0);
    assert_eq!(send(&mut s, &["HSET", "h", "f1", "x", "f3", "y", "f3", "z"], 0), ":3\r\n");
    assert_eq!(
        stored(&s, "h"),
        Some(Value::Hashmap(vec![
            (text("f1"), text("x")),
            (text("f2"), text("v2")),
            (text("f3"), text("z")),
        ]))
    );
}

#[test]
fn hset_on_a_string_is_refused() {
    let mut s = server();
    send(&mut s, &["SET", "k", "v"], 0);
    assert_eq!(send(&mut s, &["HSET", "k", "f", "v"], 0), "-Key is not a hashmap\r\n");
    assert_eq!(stored(&s, "k"), Some(text("v")));
    assert_eq!(send(&mut s, &["HGETALL", "k"], 0), "-Key is not a hashmap\r\n");
}

#[test]
fn hset_checks_its_arguments() {
    let mut s = server();
    assert_eq!(send(&mut s, &["HSET", "h", "f"], 0), "-Invalid number of arguments\r\n");
    assert_eq!(send(&mut s, &["HSET", "h", "f", "v", "g"], 0), "-Invalid number of arguments\r\n");
    let r = Value::Multi(VecDeque::from([text("HSET"), Value::Nil, text("f"), text("v")]));
    assert_eq!(send_value(&mut s, r, 0).unwrap(), "-Invalid key\r\n");
    let r = Value::Multi(VecDeque::from([
        text("HSET"),
        text("h"),
        text("f"),
        text("v"),
        Value::Integer(1),
        text("v"),
    ]));
    assert_eq!(send_value(&mut s, r, 0).unwrap(), "-Invalid field\r\n");
    assert_eq!(stored(&s, "h"), None);
    assert_eq!(send(&mut s, &["HGETALL"], 0), "-Invalid number of arguments\r\n");
    let r = Value::Multi(VecDeque::from([text("HGETALL"), Value::Nil]));
    assert_eq!(send_value(&mut s, r, 0).unwrap(), "-Invalid key\r\n");
}

#[test]
fn hset_keeps_a_deadline_and_starts_anew_after_it() {
    let mut s = server();
    send(&mut s, &["HSET", "h", "f1", "v1"], 0);
    send(&mut s, &["EXPIRE", "h", "1"], 0);
    assert_eq!(send(&mut s, &["HSET", "h", "f2", "v2"], 500), ":1\r\n");
    assert_eq!(
        stored(&s, "h"),
        Some(Value::Expire(
            Box::new(Value::Hashmap(vec![
                (text("f1"), text("v1")),
                (text("f2"), text("v2")),
            ])),
            1_000
        ))
    );
    assert_eq!(
        send(&mut s, &["HGETALL", "h"], 1_000),
        "*4\r\n$2\r\nf1\r\n$2\r\nv1\r\n$2\r\nf2\r\n$2\r\nv2\r\n"
    );
    assert_eq!(send(&mut s, &["HGETALL", "h"], 1_001), "$-1\r\n");
    assert_eq!(send(&mut s, &["HSET", "h", "f3", "v3"], 1_001), ":1\r\n");
    assert_eq!(stored(&s, "h"), Some(Value::Hashmap(vec![(text("f3"), text("v3"))])));
}

#[test]
fn keys_returns_the_live_keys_that_match() {
    let mut s = server();
    for k in ["k2", "other", "k1", "kept", "gone", "K9"] {
        send(&mut s, &["SET", k, "v"], 0);
    }
    send(&mut s, &["EXPIRE", "kept", "5"], 0);
    send(&mut s, &["SET", "k-old", "v", "PX", "1"], 0);
    assert_eq!(
        send(&mut s, &["KEYS", "k*"], 2),
        "*3\r\n$2\r\nk2\r\n$2\r\nk1\r\n$4\r\nkept\r\n"
    );
    assert_eq!(send(&mut s, &["KEYS", "k?"], 2), "*2\r\n$2\r\nk2\r\n$2\r\nk1\r\n");
    assert_eq!(send(&mut s, &["KEYS", "k[1-1]"], 2), "*1\r\n$2\r\nk1\r\n");
    assert_eq!(send(&mut s, &["KEYS", "nothing"], 2), "*0\r\n");
    assert_eq!(send(&mut s, &["KEYS", "gone"], 2), "*1\r\n$4\r\ngone\r\n");
    assert_eq!(send(&mut s, &["KEYS", "*"], 6_000).matches('$').count(), 5);
}

#[test]
fn keys_does_not_depend_on_the_order_of_the_keys() {
    let mut a = server();
    let mut b = server();
    for k in ["k1", "x", "k2", "k3"] {
        send(&mut a, &["SET", k, "v"], 0);
    }
    for k in ["k3", "k2", "x", "k1"] {
        send(&mut b, &["SET", k, "v"], 0);
    }
    let first = send(&mut a, &["KEYS", "k*"], 0);
    let second = send(&mut b, &["KEYS", "k*"], 0);
    assert_eq!(first, "*3\r\n$2\r\nk1\r\n$2\r\nk2\r\n$2\r\nk3\r\n");
    assert_eq!(second, "*3\r\n$2\r\nk3\r\n$2\r\nk2\r\n$2\r\nk1\r\n");
    let mut x: Vec<&str> = first.split("\r\n").skip(1).collect();
    let mut y: Vec<&str> = second.split("\r\n").skip(1).collect();
    x.sort();
    y.sort();
    assert_eq!(x, y);
}

#[test]
fn keys_fails_on_a_pattern_that_does_not_compile() {
    let mut s = server();
    assert!(matches!(
        send_value(&mut s, request(&["KEYS", "k["]), 0),
        Err(Error::Glob(_))
    ));
    send(&mut s, &["SET", "k", "v"], 0);
    match send_value(&mut s, request(&["KEYS", "a***"]), 0) {
        Err(Error::Glob(e)) => assert_eq!(e.pos, 3),
        other => panic!("no error of the pattern: {:?}", other),
    }
    assert_eq!(send(&mut s, &["KEYS"], 0), "-Invalid number of arguments\r\n");
    let r = Value::Multi(VecDeque::from([text("KEYS"), Value::Nil]));
    assert_eq!(send_value(&mut s, r, 0).unwrap(), "-Invalid pattern\r\n");
}

#[test]
fn keys_selects_by_the_verdicts_given() {
    let mut s = server();
    for k in ["a", "b", "c"] {
        send(&mut s, &["SET", k, "v"], 0);
    }
    send(&mut s, &["EXPIRE", "c", "0"], 0);
    let all = vec![true, true, true];
    assert_eq!(
        Keys::select(&s.context.store, &all, 0),
        VecDeque::from([text("a"), text("b"), text("c")])
    );
    assert_eq!(
        Keys::select(&s.context.store, &all, 1),
        VecDeque::from([text("a"), text("b")])
    );
    assert_eq!(
        Keys::select(&s.context.store, &vec![false, true, false], 0),
        VecDeque::from([text("b")])
    );
}

#[test]
fn replies_are_appended_to_the_writer() {
    let mut s = server();
    let mut out = b"...".to_vec();
    handle_request(
        request(&["PING"]),
        &mut out,
        &mut s.session,
        &s.commands,
        &mut s.context,
        at(0),
    )
    .unwrap();
    handle_request(
        request(&["SET", "k", "v"]),
        &mut out,
        &mut s.session,
        &s.commands,
        &mut s.context,
        at(0),
    )
    .unwrap();
    assert_eq!(out, b"...+PONG\r\n+OK\r\n");
}

#[test]
fn a_command_uses_up_its_arguments() {
    let mut s = server();
    let mut args: VecDeque<Value> = VecDeque::from([text("GET"), text("k"), text("more")]);
    let mut out = Vec::new();
    s.commands
        .handle_command(&mut out, &mut args, &mut s.session, &mut s.context, at(0))
        .unwrap();
    assert!(args.is_empty());
    assert_eq!(out, b"-Invalid number of arguments\r\n");
}
