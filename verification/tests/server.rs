use crabdis::clock::{deadline_after, deadline_at_date, Clock, Reading};
use crabdis::clock::{deadline_at_date_seconds, deadline_in_seconds};
use crabdis::commands::table::CommandHandler;
use crabdis::context::Context;
use crabdis::error::{Error, Malformed};
use crabdis::handler::handle_client;
use crabdis::session::state::State;
use crabdis::session::Session;
use crabdis::storage::decode::Reader;
use crabdis::storage::index::ExpireKey;
use crabdis::storage::store::Store;
use crabdis::storage::value::Value;

fn text(v: &str) -> Value {
    Value::String(v.to_string())
}

fn names(keys: &[&str]) -> Vec<String> {
    keys.iter().map(|k| k.to_string()).collect()
}

fn at(now: u64) -> Reading {
    Reading { now, unix: now }
}

#[test]
fn store_keeps_values_under_their_keys() {
    let mut store = Store::new();
    assert_eq!(store.len(), 0);
    assert!(store.get("a").is_none());
    assert!(!store.contains("a"));
    store.insert("a".to_string(), text("1"));
    store.set("b".to_string(), text("2"));
    store.insert("a".to_string(), text("3"));
    assert_eq!(store.get("a"), Some(&text("3")));
    assert_eq!(store.get("b"), Some(&text("2")));
    assert!(store.contains("b"));
    assert_eq!(store.len(), 2);
    assert_eq!(store.keys(), names(&["a", "b"]));
    assert_eq!(store.key_at(1), "b");
}

#[test]
fn store_removes_and_returns_the_value() {
    let mut store = Store::new();
    for k in ["a", "b", "c", "d"] {
        store.insert(k.to_string(), text(k));
    }
    assert_eq!(store.remove("b"), Some(text("b")));
    assert_eq!(store.remove("b"), None);
    assert_eq!(store.remove("x"), None);
    assert_eq!(store.keys(), names(&["a", "c", "d"]));
    assert_eq!(store.remove("d"), Some(text("d")));
    assert_eq!(store.remove("a"), Some(text("a")));
    assert_eq!(store.keys(), names(&["c"]));
    store.insert("b".to_string(), text("again"));
    assert_eq!(store.keys(), names(&["c", "b"]));
    store.clear();
    assert_eq!(store.len(), 0);
    assert!(store.get("c").is_none());
    assert!(store.keys().is_empty());
}

#[test]
fn store_inserts_a_default_only_where_the_key_holds_nothing() {
    let mut store = Store::new();
    store.entry_or_insert("h".to_string(), Value::Hashmap(Vec::new()));
    assert_eq!(store.get("h"), Some(&Value::Hashmap(Vec::new())));
    store.entry_or_insert("h".to_string(), text("other"));
    assert_eq!(store.get("h"), Some(&Value::Hashmap(Vec::new())));
    assert_eq!(store.len(), 1);
}

#[test]
fn index_holds_each_key_once() {
    let mut index = ExpireKey::new();
    assert!(!index.contains("a"));
    index.insert("a".to_string());
    index.insert("b".to_string());
    index.insert("a".to_string());
    assert!(index.contains("a"));
    assert_eq!(index.keys(), names(&["a", "b"]));
    index.remove("a");
    index.remove("x");
    assert!(!index.contains("a"));
    assert_eq!(index.keys(), names(&["b"]));
}

fn context_with_deadlines() -> Context {
    let mut context = Context::new();
    context.store.insert("plain".to_string(), text("v"));
    context
        .store
        .insert("soon".to_string(), Value::Expire(Box::new(text("v")), 10));
    context
        .store
        .insert("late".to_string(), Value::Expire(Box::new(text("v")), 1_000));
    context
        .store
        .insert("unlisted".to_string(), Value::Expire(Box::new(text("v")), 10));
    context.store.insert("cleared".to_string(), text("v"));
    for k in ["soon", "late", "cleared", "absent"] {
        context.expire_keys.insert(k.to_string());
    }
    context
}

#[test]
fn sweep_evicts_what_is_due_and_nothing_else() {
    let mut context = context_with_deadlines();
    assert_eq!(context.expire_keys_task(10), 0);
    assert_eq!(context.store.len(), 5);
    assert_eq!(context.expire_keys_task(11), 1);
    assert_eq!(
        context.store.keys(),
        names(&["plain", "late", "unlisted", "cleared"])
    );
    assert_eq!(context.expire_keys.keys(), names(&["late", "cleared", "absent"]));
    assert_eq!(
        context.store.get("unlisted"),
        Some(&Value::Expire(Box::new(text("v")), 10))
    );
}

#[test]
fn sweep_twice_is_a_sweep_once() {
    let mut context = context_with_deadlines();
    assert_eq!(context.expire_keys_task(5_000), 2);
    let keys = context.store.keys();
    let index = context.expire_keys.keys();
    assert_eq!(keys, names(&["plain", "unlisted", "cleared"]));
    assert_eq!(index, names(&["cleared", "absent"]));
    assert_eq!(context.expire_keys_task(5_000), 0);
    assert_eq!(context.store.keys(), keys);
    assert_eq!(context.expire_keys.keys(), index);
}

#[test]
fn sweep_spares_a_key_whose_deadline_was_set_anew() {
    let mut context = context_with_deadlines();
    context.store.insert("soon".to_string(), text("fresh"));
    assert_eq!(context.expire_keys_task(11), 0);
    assert_eq!(context.store.get("soon"), Some(&text("fresh")));
    assert_eq!(
        context.expire_keys.keys(),
        names(&["soon", "late", "cleared", "absent"])
    );
}

#[test]
fn deadlines_are_reckoned_without_overflow() {
    assert_eq!(deadline_after(5, 10), 15);
    assert_eq!(deadline_after(u64::MAX - 1, 10), u64::MAX);
    assert_eq!(deadline_in_seconds(5, 2), 2_005);
    assert_eq!(deadline_in_seconds(5, 0), 5);
    assert_eq!(deadline_in_seconds(5, i64::MAX), u64::MAX);
    let clocks = Reading { now: 100, unix: 5_000 };
    assert_eq!(deadline_at_date(clocks, 5_250), 350);
    assert_eq!(deadline_at_date(clocks, 5_000), 100);
    assert_eq!(deadline_at_date(clocks, 1), 100);
    assert_eq!(deadline_at_date(clocks, u64::MAX), u64::MAX - 4_900);
    assert_eq!(deadline_at_date_seconds(clocks, 6), 1_100);
    assert_eq!(deadline_at_date_seconds(clocks, 5), 100);
    assert_eq!(deadline_at_date_seconds(clocks, 0), 100);
    assert_eq!(deadline_at_date_seconds(clocks, i64::MAX), u64::MAX);
}

#[test]
fn readings_are_made_of_what_the_clocks_gave() {
    assert_eq!(Reading::taken(7, Some(9)), Reading { now: 7, unix: 9 });
    assert_eq!(Reading::taken(7, None), Reading { now: 7, unix: 0 });
    assert_eq!(Reading::taken(u64::MAX, Some(u64::MAX)).now, u64::MAX);
}

#[test]
fn clocks_are_read() {
    let clock = Clock::start();
    let first = clock.read();
    let second = clock.read();
    assert!(first.now <= second.now);
    assert!(second.now < 60_000);
    // the wall clock stands after the year 2020
    assert!(first.unix > 1_577_836_800_000);
    assert!(first.unix <= second.unix + 60_000);
}

#[test]
fn session_starts_in_the_older_version() {
    let mut session = Session::new();
    assert_eq!(session.get_proto_version(), 2);
    session.set_proto_version(3);
    assert_eq!(session.get_proto_version(), 3);
    session.set_proto_version(4);
    assert_eq!(session.get_proto_version(), 3);
    session.set_proto_version(-1);
    assert_eq!(session.get_proto_version(), 3);
    session.set_proto_version(2);
    assert_eq!(session.get_proto_version(), 2);
}

#[test]
fn session_writes_in_its_version() {
    let mut session = Session::new();
    let hash = Value::Hashmap(vec![(text("f"), Value::Nil)]);
    let mut out = Vec::new();
    session.versioned_response(&hash, &mut out, 0);
    session.set_proto_version(3);
    session.versioned_response(&hash, &mut out, 0);
    assert_eq!(out, b"*2\r\n$1\r\nf\r\n$-1\r\n%1\r\n$1\r\nf\r\n$_\r\n");
}

#[test]
fn state_starts_empty_with_every_command() {
    let mut state = State::new();
    assert_eq!(state.context.store.len(), 0);
    assert!(state.context.expire_keys.keys().is_empty());
    let mut session = Session::new();
    let mut reader = Reader::new(
        b"*3\r\n$3\r\nSET\r\n$1\r\nk\r\n$1\r\nv\r\n*1\r\n$4\r\nINFO\r\n*2\r\n$7\r\nHGETALL\r\n$1\r\nk\r\n"
            .to_vec(),
    );
    let mut out = Vec::new();
    let now = state.now();
    for _ in 0..3 {
        assert!(handle_client(
            &mut reader,
            &mut out,
            &mut session,
            &state.commands,
            &mut state.context,
            now
        )
        .unwrap());
    }
    assert_eq!(out, b"+OK\r\n$9\r\nloading:0\r\n-Key is not a hashmap\r\n");
}

#[test]
fn state_sweeps_at_the_time_of_its_clock() {
    let mut state = State::new();
    state
        .context
        .store
        .insert("past".to_string(), Value::Expire(Box::new(text("v")), 0));
    state
        .context
        .store
        .insert("coming".to_string(), Value::Expire(Box::new(text("v")), u64::MAX));
    state.context.expire_keys.insert("past".to_string());
    state.context.expire_keys.insert("coming".to_string());
    while state.now().now == 0 {}
    assert_eq!(state.expire_keys_task(), 1);
    assert_eq!(state.context.store.keys(), names(&["coming"]));
    assert_eq!(state.expire_keys_task(), 0);
}

#[test]
fn client_is_served_one_request_at_a_time() {
    let mut commands = CommandHandler::new();
    commands.register();
    let mut context = Context::new();
    let mut session = Session::new();
    let mut reader = Reader::new(b"*1\r\n$4\r\nPING\r\n*2\r\n$3\r\nGET".to_vec());
    let mut out = Vec::new();
    assert!(handle_client(&mut reader, &mut out, &mut session, &commands, &mut context, at(0))
        .unwrap());
    assert_eq!(out, b"+PONG\r\n");
    assert_eq!(reader.consumed(), 14);
    assert!(!handle_client(&mut reader, &mut out, &mut session, &commands, &mut context, at(0))
        .unwrap());
    assert_eq!(reader.consumed(), 14);
    assert_eq!(out, b"+PONG\r\n");
    reader.feed(b"\r\n$1\r\nk\r\n:5\r\n");
    assert!(handle_client(&mut reader, &mut out, &mut session, &commands, &mut context, at(0))
        .unwrap());
    assert_eq!(out, b"+PONG\r\n$-1\r\n");
    assert!(handle_client(&mut reader, &mut out, &mut session, &commands, &mut context, at(0))
        .unwrap());
    assert_eq!(out, b"+PONG\r\n$-1\r\n-Invalid request\r\n");
    assert!(!handle_client(&mut reader, &mut out, &mut session, &commands, &mut context, at(0))
        .unwrap());
    assert_eq!(reader.remaining(), 0);
}

#[test]
fn client_that_sends_no_frame_of_the_protocol_is_left() {
    let mut commands = CommandHandler::new();
    commands.register();
    let mut context = Context::new();
    let mut session = Session::new();
    let mut reader = Reader::new(b"*1\r\n+HELLO\r\n".to_vec());
    let mut out = Vec::new();
    assert!(matches!(
        handle_client(&mut reader, &mut out, &mut session, &commands, &mut context, at(0)),
        Err(Error::Protocol(Malformed::SimpleString))
    ));
    assert!(out.is_empty());
    assert_eq!(reader.consumed(), 0);
}

#[test]
fn client_whose_pattern_does_not_compile_is_left() {
    let mut commands = CommandHandler::new();
    commands.register();
    let mut context = Context::new();
    let mut session = Session::new();
    let mut reader = Reader::new(b"*2\r\n$4\r\nKEYS\r\n$1\r\n[\r\n".to_vec());
    let mut out = Vec::new();
    assert!(matches!(
        handle_client(&mut reader, &mut out, &mut session, &commands, &mut context, at(0)),
        Err(Error::Glob(_))
    ));
    assert!(out.is_empty());
}

#[test]
fn malformed_frames_inside_a_request_are_arguments_like_others() {
    let mut commands = CommandHandler::new();
    commands.register();
    let mut context = Context::new();
    let mut session = Session::new();
    let mut reader = Reader::new(b"*2\r\n$3\r\nGET\r\n:x\r\n!\r\n".to_vec());
    let mut out = Vec::new();
    assert!(handle_client(&mut reader, &mut out, &mut session, &commands, &mut context, at(0))
        .unwrap());
    assert!(handle_client(&mut reader, &mut out, &mut session, &commands, &mut context, at(0))
        .unwrap());
    assert_eq!(out, b"-Invalid key\r\n-Invalid request\r\n");
}
