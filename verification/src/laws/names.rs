//! The names by which the commands are called.

use crate::commands::expire::expire::Expire;
use crate::commands::expire::setex::SetEx;
use crate::commands::expire::ttl::Ttl;
use crate::commands::general::del::Del;
use crate::commands::general::exist::Exists;
use crate::commands::general::flushdb::FlushDB;
use crate::commands::general::get::Get;
use crate::commands::general::hello::Hello;
use crate::commands::general::info::Info;
use crate::commands::general::keys::Keys;
use crate::commands::general::mget::MGet;
use crate::commands::general::mset::MSet;
use crate::commands::general::ping::Ping;
use crate::commands::general::set::SetKey;
use crate::commands::hash::hgetall::HGetAll;
use crate::commands::hash::hset::HSet;
use crate::commands::table::{find_name, put_name, standard, Command, CommandHandler};
use crate::commands::CommandTrait;
use crate::text::ascii_upper;
use vstd::prelude::*;

verus! {

/// The table of a server that has entered its commands: every command
/// stands under its name, in the order in which the commands were entered.
pub open spec fn listed() -> Seq<(Seq<char>, Command)> {
    seq![
        ("GET"@, Command::Get(Get)),
        ("SET"@, Command::SetKey(SetKey)),
        ("DEL"@, Command::Del(Del)),
        ("MGET"@, Command::MGet(MGet)),
        ("PING"@, Command::Ping(Ping)),
        ("MSET"@, Command::MSet(MSet)),
        ("KEYS"@, Command::Keys(Keys)),
        ("HELLO"@, Command::Hello(Hello)),
        ("EXISTS"@, Command::Exists(Exists)),
        ("FLUSHDB"@, Command::FlushDB(FlushDB)),
        ("INFO"@, Command::Info(Info)),
        ("EXPIRE"@, Command::Expire(Expire)),
        ("TTL"@, Command::Ttl(Ttl)),
        ("SETEX"@, Command::SetEx(SetEx)),
        ("HSET"@, Command::HSet(HSet)),
        ("HGETALL"@, Command::HGetAll(HGetAll)),
    ]
}

/// What the names of the commands are made of.
proof fn lemma_names()
    ensures
        "GET"@ == seq!['G', 'E', 'T'],
        "SET"@ == seq!['S', 'E', 'T'],
        "DEL"@ == seq!['D', 'E', 'L'],
        "MGET"@ == seq!['M', 'G', 'E', 'T'],
        "PING"@ == seq!['P', 'I', 'N', 'G'],
        "MSET"@ == seq!['M', 'S', 'E', 'T'],
        "KEYS"@ == seq!['K', 'E', 'Y', 'S'],
        "HELLO"@ == seq!['H', 'E', 'L', 'L', 'O'],
        "EXISTS"@ == seq!['E', 'X', 'I', 'S', 'T', 'S'],
        "FLUSHDB"@ == seq!['F', 'L', 'U', 'S', 'H', 'D', 'B'],
        "INFO"@ == seq!['I', 'N', 'F', 'O'],
        "EXPIRE"@ == seq!['E', 'X', 'P', 'I', 'R', 'E'],
        "TTL"@ == seq!['T', 'T', 'L'],
        "SETEX"@ == seq!['S', 'E', 'T', 'E', 'X'],
        "HSET"@ == seq!['H', 'S', 'E', 'T'],
        "HGETALL"@ == seq!['H', 'G', 'E', 'T', 'A', 'L', 'L'],
{
    reveal_strlit("GET");
    reveal_strlit("SET");
    reveal_strlit("DEL");
    reveal_strlit("MGET");
    reveal_strlit("PING");
    reveal_strlit("MSET");
    reveal_strlit("KEYS");
    reveal_strlit("HELLO");
    reveal_strlit("EXISTS");
    reveal_strlit("FLUSHDB");
    reveal_strlit("INFO");
    reveal_strlit("EXPIRE");
    reveal_strlit("TTL");
    reveal_strlit("SETEX");
    reveal_strlit("HSET");
    reveal_strlit("HGETALL");
    assert("GET"@ =~= seq!['G', 'E', 'T']);
    assert("SET"@ =~= seq!['S', 'E', 'T']);
    assert("DEL"@ =~= seq!['D', 'E', 'L']);
    assert("MGET"@ =~= seq!['M', 'G', 'E', 'T']);
    assert("PING"@ =~= seq!['P', 'I', 'N', 'G']);
    assert("MSET"@ =~= seq!['M', 'S', 'E', 'T']);
    assert("KEYS"@ =~= seq!['K', 'E', 'Y', 'S']);
    assert("HELLO"@ =~= seq!['H', 'E', 'L', 'L', 'O']);
    assert("EXISTS"@ =~= seq!['E', 'X', 'I', 'S', 'T', 'S']);
    assert("FLUSHDB"@ =~= seq!['F', 'L', 'U', 'S', 'H', 'D', 'B']);
    assert("INFO"@ =~= seq!['I', 'N', 'F', 'O']);
    assert("EXPIRE"@ =~= seq!['E', 'X', 'P', 'I', 'R', 'E']);
    assert("TTL"@ =~= seq!['T', 'T', 'L']);
    assert("SETEX"@ =~= seq!['S', 'E', 'T', 'E', 'X']);
    assert("HSET"@ =~= seq!['H', 'S', 'E', 'T']);
    assert("HGETALL"@ =~= seq!['H', 'G', 'E', 'T', 'A', 'L', 'L']);
}

/// A name that is in upper case stays as it is.
proof fn lemma_upper_stays(name: Seq<char>)
    requires
        forall|i: int| 0 <= i < name.len() ==> 65 <= #[trigger] name[i] as u32 <= 90,
    ensures
        ascii_upper(name) == name,
{
    assert(ascii_upper(name) =~= name);
}

/// The law of the names: no two commands share a name, so that each
/// command of the table is the one that is found under its name.
pub proof fn found_by_name(k: int)
    requires
        0 <= k < listed().len(),
    ensures
        find_name(listed(), listed()[k].0, 0) == k,
{
    reveal_with_fuel(find_name, 17);
    lemma_names();
    if k == 0 {
        assert(find_name(listed(), listed()[0].0, 0) == 0);
    }
    if k == 1 {
        assert("GET"@[0] != "SET"@[0]);
        assert(find_name(listed(), listed()[1].0, 0) == 1);
    }
    if k == 2 {
        assert("GET"@[0] != "DEL"@[0]);
        assert("SET"@[0] != "DEL"@[0]);
        assert(find_name(listed(), listed()[2].0, 0) == 2);
    }
    if k == 3 {
        assert("GET"@.len() != "MGET"@.len());
        assert("SET"@.len() != "MGET"@.len());
        assert("DEL"@.len() != "MGET"@.len());
        assert(find_name(listed(), listed()[3].0, 0) == 3);
    }
    if k == 4 {
        assert("GET"@.len() != "PING"@.len());
        assert("SET"@.len() != "PING"@.len());
        assert("DEL"@.len() != "PING"@.len());
        assert("MGET"@[0] != "PING"@[0]);
        assert(find_name(listed(), listed()[4].0, 0) == 4);
    }
    if k == 5 {
        assert("GET"@.len() != "MSET"@.len());
        assert("SET"@.len() != "MSET"@.len());
        assert("DEL"@.len() != "MSET"@.len());
        assert("MGET"@[1] != "MSET"@[1]);
        assert("PING"@[0] != "MSET"@[0]);
        assert(find_name(listed(), listed()[5].0, 0) == 5);
    }
    if k == 6 {
        assert("GET"@.len() != "KEYS"@.len());
        assert("SET"@.len() != "KEYS"@.len());
        assert("DEL"@.len() != "KEYS"@.len());
        assert("MGET"@[0] != "KEYS"@[0]);
        assert("PING"@[0] != "KEYS"@[0]);
        assert("MSET"@[0] != "KEYS"@[0]);
        assert(find_name(listed(), listed()[6].0, 0) == 6);
    }
    if k == 7 {
        assert("GET"@.len() != "HELLO"@.len());
        assert("SET"@.len() != "HELLO"@.len());
        assert("DEL"@.len() != "HELLO"@.len());
        assert("MGET"@.len() != "HELLO"@.len());
        assert("PING"@.len() != "HELLO"@.len());
        assert("MSET"@.len() != "HELLO"@.len());
        assert("KEYS"@.len() != "HELLO"@.len());
        assert(find_name(listed(), listed()[7].0, 0) == 7);
    }
    if k == 8 {
        assert("GET"@.len() != "EXISTS"@.len());
        assert("SET"@.len() != "EXISTS"@.len());
        assert("DEL"@.len() != "EXISTS"@.len());
        assert("MGET"@.len() != "EXISTS"@.len());
        assert("PING"@.len() != "EXISTS"@.len());
        assert("MSET"@.len() != "EXISTS"@.len());
        assert("KEYS"@.len() != "EXISTS"@.len());
        assert("HELLO"@.len() != "EXISTS"@.len());
        assert(find_name(listed(), listed()[8].0, 0) == 8);
    }
    if k == 9 {
        assert("GET"@.len() != "FLUSHDB"@.len());
        assert("SET"@.len() != "FLUSHDB"@.len());
        assert("DEL"@.len() != "FLUSHDB"@.len());
        assert("MGET"@.len() != "FLUSHDB"@.len());
        assert("PING"@.len() != "FLUSHDB"@.len());
        assert("MSET"@.len() != "FLUSHDB"@.len());
        assert("KEYS"@.len() != "FLUSHDB"@.len());
        assert("HELLO"@.len() != "FLUSHDB"@.len());
        assert("EXISTS"@.len() != "FLUSHDB"@.len());
        assert(find_name(listed(), listed()[9].0, 0) == 9);
    }
    if k == 10 {
        assert("GET"@.len() != "INFO"@.len());
        assert("SET"@.len() != "INFO"@.len());
        assert("DEL"@.len() != "INFO"@.len());
        assert("MGET"@[0] != "INFO"@[0]);
        assert("PING"@[0] != "INFO"@[0]);
        assert("MSET"@[0] != "INFO"@[0]);
        assert("KEYS"@[0] != "INFO"@[0]);
        assert("HELLO"@.len() != "INFO"@.len());
        assert("EXISTS"@.len() != "INFO"@.len());
        assert("FLUSHDB"@.len() != "INFO"@.len());
        assert(find_name(listed(), listed()[10].0, 0) == 10);
    }
    if k == 11 {
        assert("GET"@.len() != "EXPIRE"@.len());
        assert("SET"@.len() != "EXPIRE"@.len());
        assert("DEL"@.len() != "EXPIRE"@.len());
        assert("MGET"@.len() != "EXPIRE"@.len());
        assert("PING"@.len() != "EXPIRE"@.len());
        assert("MSET"@.len() != "EXPIRE"@.len());
        assert("KEYS"@.len() != "EXPIRE"@.len());
        assert("HELLO"@.len() != "EXPIRE"@.len());
        assert("EXISTS"@[2] != "EXPIRE"@[2]);
        assert("FLUSHDB"@.len() != "EXPIRE"@.len());
        assert("INFO"@.len() != "EXPIRE"@.len());
        assert(find_name(listed(), listed()[11].0, 0) == 11);
    }
    if k == 12 {
        assert("GET"@[0] != "TTL"@[0]);
        assert("SET"@[0] != "TTL"@[0]);
        assert("DEL"@[0] != "TTL"@[0]);
        assert("MGET"@.len() != "TTL"@.len());
        assert("PING"@.len() != "TTL"@.len());
        assert("MSET"@.len() != "TTL"@.len());
        assert("KEYS"@.len() != "TTL"@.len());
        assert("HELLO"@.len() != "TTL"@.len());
        assert("EXISTS"@.len() != "TTL"@.len());
        assert("FLUSHDB"@.len() != "TTL"@.len());
        assert("INFO"@.len() != "TTL"@.len());
        assert("EXPIRE"@.len() != "TTL"@.len());
        assert(find_name(listed(), listed()[12].0, 0) == 12);
    }
    if k == 13 {
        assert("GET"@.len() != "SETEX"@.len());
        assert("SET"@.len() != "SETEX"@.len());
        assert("DEL"@.len() != "SETEX"@.len());
        assert("MGET"@.len() != "SETEX"@.len());
        assert("PING"@.len() != "SETEX"@.len());
        assert("MSET"@.len() != "SETEX"@.len());
        assert("KEYS"@.len() != "SETEX"@.len());
        assert("HELLO"@[0] != "SETEX"@[0]);
        assert("EXISTS"@.len() != "SETEX"@.len());
        assert("FLUSHDB"@.len() != "SETEX"@.len());
        assert("INFO"@.len() != "SETEX"@.len());
        assert("EXPIRE"@.len() != "SETEX"@.len());
        assert("TTL"@.len() != "SETEX"@.len());
        assert(find_name(listed(), listed()[13].0, 0) == 13);
    }
    if k == 14 {
        assert("GET"@.len() != "HSET"@.len());
        assert("SET"@.len() != "HSET"@.len());
        assert("DEL"@.len() != "HSET"@.len());
        assert("MGET"@[0] != "HSET"@[0]);
        assert("PING"@[0] != "HSET"@[0]);
        assert("MSET"@[0] != "HSET"@[0]);
        assert("KEYS"@[0] != "HSET"@[0]);
        assert("HELLO"@.len() != "HSET"@.len());
        assert("EXISTS"@.len() != "HSET"@.len());
        assert("FLUSHDB"@.len() != "HSET"@.len());
        assert("INFO"@[0] != "HSET"@[0]);
        assert("EXPIRE"@.len() != "HSET"@.len());
        assert("TTL"@.len() != "HSET"@.len());
        assert("SETEX"@.len() != "HSET"@.len());
        assert(find_name(listed(), listed()[14].0, 0) == 14);
    }
    if k == 15 {
        assert("GET"@.len() != "HGETALL"@.len());
        assert("SET"@.len() != "HGETALL"@.len());
        assert("DEL"@.len() != "HGETALL"@.len());
        assert("MGET"@.len() != "HGETALL"@.len());
        assert("PING"@.len() != "HGETALL"@.len());
        assert("MSET"@.len() != "HGETALL"@.len());
        assert("KEYS"@.len() != "HGETALL"@.len());
        assert("HELLO"@.len() != "HGETALL"@.len());
        assert("EXISTS"@.len() != "HGETALL"@.len());
        assert("FLUSHDB"@[0] != "HGETALL"@[0]);
        assert("INFO"@.len() != "HGETALL"@.len());
        assert("EXPIRE"@.len() != "HGETALL"@.len());
        assert("TTL"@.len() != "HGETALL"@.len());
        assert("SETEX"@.len() != "HGETALL"@.len());
        assert("HSET"@.len() != "HGETALL"@.len());
        assert(find_name(listed(), listed()[15].0, 0) == 15);
    }
}

/// A name that is first found at place `k` of a table is not found in the
/// entries before that place.
proof fn lemma_not_before(table: Seq<(Seq<char>, Command)>, name: Seq<char>, k: int, from: int)
    requires
        0 <= from <= k <= table.len(),
        find_name(table, name, from) == k,
    ensures
        find_name(table.take(k), name, from) == k,
    decreases k - from,
{
    if from < k {
        assert(table.take(k)[from] == table[from]);
        lemma_not_before(table, name, k, from + 1);
    }
}

/// Entering the command of place `k` into the table of the commands before
/// it puts it at the end.
proof fn lemma_enter(k: int)
    requires
        0 <= k < listed().len(),
    ensures
        put_name(listed().take(k), listed()[k].0, listed()[k].1) == listed().take(k + 1),
{
    found_by_name(k);
    lemma_not_before(listed(), listed()[k].0, k, 0);
    assert(listed().take(k).push(listed()[k]) =~= listed().take(k + 1));
}

/// The law of the table: a server that has entered its commands into an
/// empty table finds every command under its name, in the order in which
/// the commands were entered.
pub proof fn standard_table()
    ensures
        standard(Seq::empty()) == listed(),
{
    lemma_names();
    assert(listed().take(0) =~= Seq::<(Seq<char>, Command)>::empty());
    lemma_upper_stays("GET"@);
    lemma_enter(0);
    lemma_upper_stays("SET"@);
    lemma_enter(1);
    lemma_upper_stays("DEL"@);
    lemma_enter(2);
    lemma_upper_stays("MGET"@);
    lemma_enter(3);
    lemma_upper_stays("PING"@);
    lemma_enter(4);
    lemma_upper_stays("MSET"@);
    lemma_enter(5);
    lemma_upper_stays("KEYS"@);
    lemma_enter(6);
    lemma_upper_stays("HELLO"@);
    lemma_enter(7);
    lemma_upper_stays("EXISTS"@);
    lemma_enter(8);
    lemma_upper_stays("FLUSHDB"@);
    lemma_enter(9);
    lemma_upper_stays("INFO"@);
    lemma_enter(10);
    lemma_upper_stays("EXPIRE"@);
    lemma_enter(11);
    lemma_upper_stays("TTL"@);
    lemma_enter(12);
    lemma_upper_stays("SETEX"@);
    lemma_enter(13);
    lemma_upper_stays("HSET"@);
    lemma_enter(14);
    lemma_upper_stays("HGETALL"@);
    lemma_enter(15);
    assert(listed().take(16) =~= listed());
}

/// The law of the call: in a table that lists the commands, a word calls
/// the command whose name it is, whatever the case of its letters.
pub proof fn called_in_any_case(h: CommandHandler, word: Seq<char>, k: int)
    requires
        h.table() == listed(),
        0 <= k < listed().len(),
        ascii_upper(word) == listed()[k].0,
    ensures
        h.called(word) == Some(listed()[k].1),
{
    found_by_name(k);
}

} // verus!
