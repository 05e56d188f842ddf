//! Instants in UTC, held as whole seconds since the Unix epoch plus a
//! sub-second part, and the clock and calendar operations the monitor
//! needs from `chrono` and `chrono_tz`.

use vstd::prelude::*;
use chrono::{TimeZone, Timelike};

verus! {

/// Smallest `timestamp()` of a `chrono::DateTime<Utc>` (start of year -262143).
pub const MIN_UTC_SECS: i64 = -8_334_601_315_200;

/// Largest `timestamp()` of a `chrono::DateTime<Utc>` (end of year 262142).
pub const MAX_UTC_SECS: i64 = 8_210_266_876_799;

/// Nanoseconds in one second.
pub const NANOS_PER_SEC: u32 = 1_000_000_000;

/// How long records are kept: five days, in seconds.
pub const RETENTION_SECS: i64 = 432_000;

/// An instant in UTC: `secs` whole seconds since 1970-01-01T00:00:00Z and
/// `nanos` nanoseconds into that second (at or above one second only while a
/// leap second is being shown, as `chrono` does).
#[derive(Clone, Copy, Debug, PartialEq, Eq, Structural)]
pub struct Timestamp {
    pub secs: i64,
    pub nanos: u32,
}

impl Timestamp {
    /// The instants that a `chrono::DateTime<Utc>` can hold.
    pub open spec fn is_valid(self) -> bool {
        &&& MIN_UTC_SECS <= self.secs <= MAX_UTC_SECS
        &&& (self.nanos < NANOS_PER_SEC || (self.nanos < 2 * NANOS_PER_SEC && self.secs % 60 == 59))
    }

    /// An instant that is not inside a leap second, as every clock reading is.
    pub open spec fn is_clock_reading(self) -> bool {
        self.is_valid() && self.nanos < NANOS_PER_SEC
    }

    /// Strict chronological order: `self` comes before `other`.
    pub open spec fn precedes(self, other: Timestamp) -> bool {
        self.secs < other.secs || (self.secs == other.secs && self.nanos < other.nanos)
    }

    /// Chronological order, equal instants included.
    pub open spec fn not_after(self, other: Timestamp) -> bool {
        self.precedes(other) || self == other
    }

    /// Nanoseconds from `self` to `later` (negative when `later` comes first).
    pub open spec fn nanos_until(self, later: Timestamp) -> int {
        (later.secs - self.secs) * NANOS_PER_SEC + (later.nanos - self.nanos)
    }

    /// Whether `self` comes strictly before `other`.
    pub fn is_before(&self, other: &Timestamp) -> (r: bool)
        ensures
            r == self.precedes(*other),
    {
        self.secs < other.secs || (self.secs == other.secs && self.nanos < other.nanos)
    }

    /// Whether `self` comes before `other` or is the same instant.
    pub fn is_not_after(&self, other: &Timestamp) -> (r: bool)
        ensures
            r == self.not_after(*other),
    {
        self.secs < other.secs || (self.secs == other.secs && self.nanos <= other.nanos)
    }
}

/// The oldest instant still kept at `now`: five days earlier. An instant inside
/// a leap second counts from the start of the next second, as `chrono` does when
/// it subtracts whole seconds.
pub open spec fn spec_retention_cutoff(now: Timestamp) -> Timestamp {
    if now.nanos >= NANOS_PER_SEC {
        Timestamp { secs: (now.secs + 1 - RETENTION_SECS) as i64, nanos: (now.nanos - NANOS_PER_SEC) as u32 }
    } else {
        Timestamp { secs: (now.secs - RETENTION_SECS) as i64, nanos: now.nanos }
    }
}

/// Whether five days before `now` is still an instant `chrono` can hold.
pub open spec fn has_retention_cutoff(now: Timestamp) -> bool {
    &&& now.is_valid()
    &&& now.secs + (if now.nanos >= NANOS_PER_SEC { 1int } else { 0int }) - RETENTION_SECS >= MIN_UTC_SECS
}

/// The instant five days before `now`, as `now - chrono::Duration::days(5)` gives it.
pub fn retention_cutoff(now: Timestamp) -> (cutoff: Timestamp)
    requires
        has_retention_cutoff(now),
    ensures
        cutoff == spec_retention_cutoff(now),
        cutoff.is_clock_reading(),
{
    if now.nanos >= NANOS_PER_SEC {
        Timestamp { secs: now.secs + 1 - RETENTION_SECS, nanos: now.nanos - NANOS_PER_SEC }
    } else {
        Timestamp { secs: now.secs - RETENTION_SECS, nanos: now.nanos }
    }
}

/// The system clock, read through `chrono::Utc::now`.
///
/// The contract claims what `chrono`'s source shows of every reading: it is
/// built from `SystemTime` since the epoch (so whole seconds are not negative and
/// the sub-second part stays below one second) and lies in the range of
/// `DateTime<Utc>`. Which instant comes back is not stated. Like `chrono`, the
/// call panics on a clock set before 1970.
#[verifier::external_body]
pub(crate) fn utc_now() -> (now: Timestamp)
    ensures
        now.is_clock_reading(),
        now.secs >= 0,
{
    let now = chrono::Utc::now();
    Timestamp { secs: now.timestamp(), nanos: now.timestamp_subsec_nanos() }
}

/// One reading of the system clock. Its field is private and only `read_clock`
/// makes one, so outside ghost code every value of this type is an instant the
/// clock showed while the program ran.
#[derive(Clone, Copy, Debug)]
pub struct ClockReading {
    instant: Timestamp,
}

impl View for ClockReading {
    type V = Timestamp;

    closed spec fn view(&self) -> Timestamp {
        self.instant
    }
}

impl ClockReading {
    /// The instant the clock showed.
    pub fn instant(&self) -> (t: Timestamp)
        ensures
            t == self@,
    {
        self.instant
    }

    /// Puts the reading away for the record.
    pub fn keep(self) -> (kept: KeptReading)
        ensures
            kept@ == self@,
    {
        KeptReading { instant: self.instant }
    }
}

/// A clock reading put away for the record. Contracts can speak of its instant,
/// but code cannot read it back, so a decision can only be measured against the
/// reading it was just made with, not against one kept from earlier.
#[derive(Debug)]
pub struct KeptReading {
    instant: Timestamp,
}

impl View for KeptReading {
    type V = Timestamp;

    closed spec fn view(&self) -> Timestamp {
        self.instant
    }
}

/// Reads the system clock.
pub fn read_clock() -> (reading: ClockReading)
    ensures
        reading@.is_clock_reading(),
        reading@.secs >= 0,
{
    ClockReading { instant: utc_now() }
}

/// Five days before a clock reading is exactly 432,000 seconds earlier, to the
/// nanosecond.
pub proof fn law_cutoff_is_five_days_before(now: Timestamp)
    requires
        now.is_clock_reading(),
    ensures
        spec_retention_cutoff(now).nanos_until(now) == 432_000 * 1_000_000_000,
        spec_retention_cutoff(now).nanos == now.nanos,
        spec_retention_cutoff(now).secs == now.secs - 432_000,
{
}

/// The cutoff of the retention window at the current time.
pub fn retention_cutoff_now() -> (cutoff: Timestamp)
    ensures
        cutoff.is_clock_reading(),
        exists|now: Timestamp| #![auto]
            now.is_clock_reading() && now.secs >= 0 && cutoff == spec_retention_cutoff(now),
{
    let now = utc_now();
    retention_cutoff(now)
}

/// The instant that `chrono::DateTime::parse_from_rfc2822` reads from a text,
/// converted to UTC, as (seconds, nanoseconds); `None` where it reports an error.
pub uninterp spec fn rfc2822_instant(text: Seq<char>) -> Option<(i64, u32)>;

/// `chrono::DateTime::parse_from_rfc2822` followed by `to_utc`.
///
/// The contract claims that the result is the one named `rfc2822_instant` for
/// the text, and that a parsed instant lies in the range of `DateTime<Utc>`.
#[verifier::external_body]
pub(crate) fn parse_rfc2822(text: &str) -> (t: Option<Timestamp>)
    ensures
        match t {
            Some(t) => rfc2822_instant(text@) == Some((t.secs, t.nanos)) && t.is_valid(),
            None => rfc2822_instant(text@) is None,
        },
{
    match chrono::DateTime::parse_from_rfc2822(text) {
        Ok(parsed) => {
            let utc = parsed.to_utc();
            Some(Timestamp { secs: utc.timestamp(), nanos: utc.timestamp_subsec_nanos() })
        },
        Err(_) => None,
    }
}

/// The wall-clock hour and minute in Asia/Shanghai (Beijing time) at an instant,
/// as `chrono_tz` computes them.
pub uninterp spec fn shanghai_hour_minute(secs: i64, nanos: u32) -> (u32, u32);

/// `chrono_tz::Asia::Shanghai.from_utc_datetime(..)` followed by `hour()` and `minute()`.
///
/// The contract claims that the pair is the one named `shanghai_hour_minute`,
/// with the hour below 24 and the minute below 60 as `chrono::Timelike` documents.
#[verifier::external_body]
pub(crate) fn shanghai_clock(t: Timestamp) -> (hm: (u32, u32))
    requires
        t.is_valid(),
    ensures
        hm == shanghai_hour_minute(t.secs, t.nanos),
        hm.0 < 24,
        hm.1 < 60,
{
    let utc = chrono::DateTime::from_timestamp(t.secs, t.nanos).unwrap();
    let local = chrono_tz::Asia::Shanghai.from_utc_datetime(&utc.naive_utc());
    (local.hour(), local.minute())
}

/// The text `chrono` writes for an instant in Asia/Shanghai with the format
/// `%Y-%m-%d %H:%M:%S`.
pub uninterp spec fn shanghai_datetime_text(secs: i64, nanos: u32) -> Seq<char>;

/// `with_timezone(&chrono_tz::Asia::Shanghai)` followed by
/// `format("%Y-%m-%d %H:%M:%S").to_string()`.
///
/// The contract claims that the text is the one named `shanghai_datetime_text`.
#[verifier::external_body]
pub(crate) fn format_shanghai(t: Timestamp) -> (text: String)
    requires
        t.is_valid(),
    ensures
        text@ == shanghai_datetime_text(t.secs, t.nanos),
{
    let utc = chrono::DateTime::from_timestamp(t.secs, t.nanos).unwrap();
    utc.with_timezone(&chrono_tz::Asia::Shanghai).format("%Y-%m-%d %H:%M:%S").to_string()
}

} // verus!
