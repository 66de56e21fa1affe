//! What the time zone database says: which zones there are, and what the
//! clocks in a zone show at an instant.
//!
//! The database is the one that the `chrono-tz` crate is built with, and the
//! calendar is that of `chrono`. The three functions of this module call those
//! crates, and nothing is proved of them. Each contract gives the call's
//! result a name, and the rest of the library is proved for whatever the names
//! stand for.

use chrono::{DateTime, Datelike, Offset, Timelike};
use chrono_tz::Tz;
use vstd::prelude::*;

verus! {

/// A point in time, whatever the zone: `secs` whole seconds after
/// 1970-01-01 00:00:00 UTC (before it, where negative), and `nanos`
/// nanoseconds after that second.
#[derive(Clone, Copy, Debug, PartialEq, Eq)]
pub struct Instant {
    pub secs: i64,
    pub nanos: u32,
}

/// What calendar and clock show somewhere: the day, counted through the
/// proleptic Gregorian calendar with 1 January of the year 1 as day 1; the
/// seconds since midnight; and the nanoseconds since that second.
#[derive(Clone, Copy, Debug, PartialEq, Eq)]
pub struct Clock {
    pub day: i32,
    pub second: u32,
    pub nano: u32,
}

impl View for Clock {
    type V = (int, int, int);

    open spec fn view(&self) -> (int, int, int) {
        (self.day as int, self.second as int, self.nano as int)
    }
}

impl DeepView for Clock {
    type V = (int, int, int);

    open spec fn deep_view(&self) -> (int, int, int) {
        self.view()
    }
}

/// Whether the time zone database has a zone of this name, such as
/// `America/Montreal`.
pub uninterp spec fn zone_known(zone: Seq<char>) -> bool;

/// The reading of the clocks in `zone` at the instant of `secs` seconds and
/// `nanos` nanoseconds: day, second of the day and nanosecond, as in
/// [`Clock`]. `None` where the database has no such zone, and where the
/// instant or the local date lies beyond the years that `chrono` counts.
pub uninterp spec fn local_clock(secs: int, nanos: int, zone: Seq<char>) -> Option<(int, int, int)>;

/// The local time in `zone` at the instant of `secs` seconds and `nanos`
/// nanoseconds, written out as the `strftime`-like `pattern` asks. `None`
/// where `chrono` does not write it: `pattern` is no pattern or cannot hold
/// the time, there is no such zone, or the instant is out of range.
pub uninterp spec fn local_text(
    secs: int,
    nanos: int,
    zone: Seq<char>,
    pattern: Seq<char>,
) -> Option<Seq<char>>;

/// Looks `zone` up in the database: the call is `chrono_tz::Tz::from_str`,
/// which finds a zone under exactly this name or fails.
///
/// Not proved. The contract gives the answer its name: `zone_known` is
/// whatever that lookup decides.
#[verifier::external_body]
pub(crate) fn zone_exists(zone: &str) -> (known: bool)
    ensures
        known == zone_known(zone@),
{
    zone.parse::<Tz>().is_ok()
}

/// Reads the clocks in `zone` at `at`. `chrono::DateTime::from_timestamp`
/// makes the instant, `chrono::DateTime::with_timezone` moves it into the zone
/// that `chrono_tz::Tz::from_str` finds, and
/// `chrono::NaiveDateTime::checked_add_offset` gives the local date and time;
/// these come back as the numbers that `num_days_from_ce`,
/// `num_seconds_from_midnight` and `nanosecond` report of them.
///
/// Not proved. The contract gives the result its name: `local_clock` is that
/// reading, and `None` where one of the steps has no result.
#[verifier::external_body]
pub(crate) fn clock_in_zone(at: &Instant, zone: &str) -> (clock: Option<Clock>)
    ensures
        match clock {
            Some(c) => local_clock(at.secs as int, at.nanos as int, zone@) == Some(c@),
            None => local_clock(at.secs as int, at.nanos as int, zone@) is None,
        },
{
    let tz: Tz = zone.parse().ok()?;
    let seen = DateTime::from_timestamp(at.secs, at.nanos)?.with_timezone(&tz);
    let local = seen.naive_utc().checked_add_offset(seen.offset().fix())?;
    Some(
        Clock {
            day: local.date().num_days_from_ce(),
            second: local.time().num_seconds_from_midnight(),
            nano: local.time().nanosecond(),
        },
    )
}

/// Writes the local time in `zone` at `at` as `pattern` asks.
/// `chrono::DateTime::from_timestamp` makes the instant,
/// `chrono::DateTime::with_timezone` moves it into the zone that
/// `chrono_tz::Tz::from_str` finds, and `chrono::DateTime::format` writes it,
/// through `DelayedFormat::write_to`, into a new string.
///
/// Not proved. The contract gives the result its name: `local_text` is the
/// text written, and `None` where one of the steps has no result.
#[verifier::external_body]
pub(crate) fn text_in_zone(at: &Instant, zone: &str, pattern: &str) -> (text: Option<String>)
    ensures
        match text {
            Some(t) => local_text(at.secs as int, at.nanos as int, zone@, pattern@) == Some(t@),
            None => local_text(at.secs as int, at.nanos as int, zone@, pattern@) is None,
        },
{
    let tz: Tz = zone.parse().ok()?;
    let seen = DateTime::from_timestamp(at.secs, at.nanos)?.with_timezone(&tz);
    let mut text = String::new();
    seen.format(pattern).write_to(&mut text).ok()?;
    Some(text)
}

} // verus!
