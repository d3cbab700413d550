//! Instants in UTC, counted from the Unix epoch.

use vstd::prelude::*;

verus! {

/// Number of nanoseconds in one second.
pub const NANOS_PER_SECOND: u32 = 1_000_000_000;

/// The last second of the year 9999, in seconds since the epoch.
pub const LAST_SECOND: i64 = 253_402_300_799;

/// How long a session stays valid after login, in hours.
pub const SESSION_EXP: i64 = 2;

/// How long a session stays valid after login, in seconds.
pub const SESSION_SECONDS: i64 = SESSION_EXP * 3_600;

/// A bound above every reading of the clock, in seconds since the epoch: the
/// clock counts its days in 32 bits.
pub const CLOCK_LIMIT: i64 = 185_542_587_187_200;

/// An instant in UTC: whole seconds since 1970-01-01 00:00:00 and the
/// nanoseconds that have passed since that second began.
#[derive(Clone, Copy, Debug, PartialEq, Eq, Structural)]
pub struct Timestamp {
    pub secs: i64,
    pub nanos: u32,
}

impl Timestamp {
    /// An instant of the years 1970 to 9999, with a sub-second part below one
    /// second. These are the instants that a token can carry.
    pub open spec fn is_valid(self) -> bool {
        0 <= self.secs <= LAST_SECOND && self.nanos < NANOS_PER_SECOND
    }

    /// `self` lies strictly after `other`.
    pub open spec fn after(self, other: Timestamp) -> bool {
        self.secs > other.secs || (self.secs == other.secs && self.nanos > other.nanos)
    }

    /// The instant `seconds` seconds after `self`, where it can be counted.
    pub open spec fn plus(self, seconds: int) -> Option<Timestamp> {
        if i64::MIN <= self.secs + seconds <= i64::MAX {
            Some(Timestamp { secs: (self.secs + seconds) as i64, nanos: self.nanos })
        } else {
            None
        }
    }

    /// What the clock can show: an instant at or after the epoch, below the
    /// clock's limit, with a sub-second part below one second.
    pub open spec fn is_reading(self) -> bool {
        0 <= self.secs < CLOCK_LIMIT && self.nanos < NANOS_PER_SECOND
    }

    pub fn new(secs: i64, nanos: u32) -> (t: Timestamp)
        ensures
            t.secs == secs,
            t.nanos == nanos,
    {
        Timestamp { secs, nanos }
    }

    /// Whether the instant can be carried by a token.
    pub fn valid(&self) -> (b: bool)
        ensures
            b == self.is_valid(),
    {
        0 <= self.secs && self.secs <= LAST_SECOND && self.nanos < NANOS_PER_SECOND
    }

    /// The instant `seconds` seconds after `self`, where it can be counted.
    pub fn later(&self, seconds: i64) -> (t: Option<Timestamp>)
        ensures
            t == self.plus(seconds as int),
    {
        match self.secs.checked_add(seconds) {
            Some(secs) => Some(Timestamp { secs, nanos: self.nanos }),
            None => None,
        }
    }

    /// Whether `self` lies strictly after `other`.
    pub fn is_after(&self, other: &Timestamp) -> (b: bool)
        ensures
            b == self.after(*other),
    {
        self.secs > other.secs || (self.secs == other.secs && self.nanos > other.nanos)
    }
}

/// Reads the clock.
///
/// Trusted: the body calls `chrono::Utc::now` and takes the seconds and
/// nanoseconds of what it returns. `chrono` takes the time from the system
/// clock as a duration since the epoch and holds it as a date with a 32-bit
/// day number: the contract claims that the reading is no earlier than the
/// epoch, below `CLOCK_LIMIT`, and that its sub-second part is below one
/// second. Two readings need not agree, so the reading has no name.
#[verifier::external_body]
pub(crate) fn clock() -> (now: Timestamp)
    ensures
        now.is_reading(),
{
    let now = chrono::Utc::now();
    Timestamp { secs: now.timestamp(), nanos: now.timestamp_subsec_nanos() }
}

/// The instant at which a session that begins at `now` expires.
pub open spec fn session_expiry(now: Timestamp) -> Option<Timestamp> {
    now.plus(SESSION_SECONDS as int)
}

/// The instant at which a session that begins at `now` expires: `now` plus
/// the session's duration, where that can be counted.
pub fn expire_after(now: &Timestamp) -> (expiry: Option<Timestamp>)
    ensures
        expiry == session_expiry(*now),
{
    now.later(SESSION_SECONDS)
}

/// The instant at which a session that begins now expires.
///
/// The clock decides the instant. Whatever it shows, the result is that
/// instant plus the session's duration.
pub fn next_expire() -> (expiry: Timestamp)
    ensures
        exists|now: Timestamp| now.is_reading() && #[trigger] session_expiry(now) == Some(expiry),
{
    let now = clock();
    let expiry = Timestamp { secs: now.secs + SESSION_SECONDS, nanos: now.nanos };
    assert(session_expiry(now) == Some(expiry));
    expiry
}

} // verus!
