//! The two clocks that deadlines are reckoned by.

use vstd::prelude::*;

verus! {

/// A point in time of `tokio`'s monotonic clock.
#[verifier::external_type_specification]
#[verifier::external_body]
pub struct ExInstant(tokio::time::Instant);

/// What the clocks show at one moment, in milliseconds: `now` on the
/// monotonic clock, counted from the start of the server, and `unix` on the
/// wall clock, counted from the start of 1970.
///
/// Deadlines are readings of the monotonic clock. The wall clock only serves
/// to place a deadline that a client gives as a date.
#[derive(Clone, Copy, Debug, PartialEq, Eq, Structural)]
pub struct Reading {
    pub now: u64,
    pub unix: u64,
}

/// The clocks of a server: the monotonic one, from the moment the server
/// started, and the wall clock.
pub struct Clock {
    start: tokio::time::Instant,
}

/// Calls `tokio::time::Instant::now`, which gives the current point in time
/// of the monotonic clock.
#[verifier::external_body]
fn instant_now() -> tokio::time::Instant {
    tokio::time::Instant::now()
}

/// Calls `tokio::time::Instant::duration_since` and `Duration::as_millis`:
/// the whole milliseconds from `earlier` to `later`, none where `later` is
/// the earlier of the two.
#[verifier::external_body]
fn millis_between(later: &tokio::time::Instant, earlier: &tokio::time::Instant) -> u64 {
    later.duration_since(*earlier).as_millis() as u64
}

/// Calls `std::time::SystemTime::now` and `SystemTime::duration_since`: the
/// whole milliseconds from the start of 1970 to now on the wall clock, and
/// nothing where the wall clock stands before 1970.
#[verifier::external_body]
fn unix_millis() -> Option<u64> {
    match std::time::SystemTime::now().duration_since(std::time::UNIX_EPOCH) {
        Ok(d) => Some(d.as_millis() as u64),
        Err(_) => None,
    }
}

impl Clock {
    /// The clocks of a server that starts now.
    pub fn start() -> Clock {
        Clock { start: instant_now() }
    }

    /// What the clocks show now: the reading that `Reading::taken` makes of
    /// the time since the start and of the wall clock.
    pub fn read(&self) -> Reading {
        let at = instant_now();
        Reading::taken(millis_between(&at, &self.start), unix_millis())
    }
}

impl Reading {
    /// The reading that is made of what the two clocks gave: `elapsed`
    /// milliseconds on the monotonic clock, and `wall` milliseconds on the
    /// wall clock, which is read as the start of 1970 where it gave nothing.
    pub fn taken(elapsed: u64, wall: Option<u64>) -> (r: Reading)
        ensures
            r.now == elapsed,
            r.unix == match wall {
                Some(millis) => millis,
                None => 0,
            },
    {
        let unix = match wall {
            Some(millis) => millis,
            None => 0,
        };
        Reading { now: elapsed, unix }
    }
}

/// The deadline `millis` milliseconds after `now`, or the last deadline
/// there is where that is beyond it.
pub open spec fn after(now: u64, millis: int) -> u64 {
    if now + millis > u64::MAX {
        u64::MAX
    } else if millis < 0 {
        now
    } else {
        (now + millis) as u64
    }
}

/// The deadline on the monotonic clock that falls on the date `unix_millis`
/// of the wall clock: as far after `at.now` as the date is after `at.unix`,
/// and `at.now` itself where the date has passed.
pub open spec fn at_date(at: Reading, unix_millis: int) -> u64 {
    after(at.now, unix_millis - at.unix)
}

/// Computes `after(now, millis)`.
pub fn deadline_after(now: u64, millis: u64) -> (r: u64)
    ensures
        r == after(now, millis as int),
{
    now.saturating_add(millis)
}

/// Computes `at_date(at, unix_millis)`.
pub fn deadline_at_date(at: Reading, unix_millis: u64) -> (r: u64)
    ensures
        r == at_date(at, unix_millis as int),
{
    if unix_millis <= at.unix {
        at.now
    } else {
        at.now.saturating_add(unix_millis - at.unix)
    }
}

/// Computes `after(now, seconds * 1000)` for a span in seconds.
pub fn deadline_in_seconds(now: u64, seconds: i64) -> (r: u64)
    requires
        seconds >= 0,
    ensures
        r == after(now, seconds * 1000),
{
    let millis: u128 = seconds as u128 * 1000;
    if millis > (u64::MAX - now) as u128 {
        u64::MAX
    } else {
        now + millis as u64
    }
}

/// Computes `at_date(at, seconds * 1000)` for a date in seconds.
pub fn deadline_at_date_seconds(at: Reading, seconds: i64) -> (r: u64)
    requires
        seconds >= 0,
    ensures
        r == at_date(at, seconds * 1000),
{
    let millis: u128 = seconds as u128 * 1000;
    if millis <= at.unix as u128 {
        at.now
    } else if millis - at.unix as u128 > (u64::MAX - at.now) as u128 {
        u64::MAX
    } else {
        at.now + (millis - at.unix as u128) as u64
    }
}

} // verus!
