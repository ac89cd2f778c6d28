//! Instants, and what the calendar says of them.
//!
//! An instant is a count of seconds and nanoseconds since the Unix epoch.
//! The library reads no clock: its callers hand instants in. Hour, minute and
//! second of an instant, and the text of a date, come from `chrono`.

use vstd::prelude::*;

verus! {

pub const NANOS_PER_SECOND: u32 = 1_000_000_000;

pub const SECONDS_PER_DAY: u64 = 86_400;

/// The first second of the year 1, in UTC.
pub const FIRST_SECOND: i64 = -62_135_596_800;

/// The last second of the year 9999, in UTC.
pub const LAST_SECOND: i64 = 253_402_300_799;

/// One day before `FIRST_SECOND`: the earliest second that a date is written
/// for.
pub const FIRST_STAMP_SECOND: i64 = -62_135_683_200;

/// A point in time: `secs` whole seconds since 1970-01-01 00:00:00 UTC,
/// negative before it, and `nanos` nanoseconds on top.
#[derive(Clone, Copy, Debug, PartialEq, Eq, Structural)]
pub struct Timestamp {
    pub secs: i64,
    pub nanos: u32,
}

impl Timestamp {
    /// The nanoseconds are less than a second.
    pub open spec fn wf(&self) -> bool {
        self.nanos < NANOS_PER_SECOND
    }

    /// Well formed, and within the years 1 to 9999.
    pub open spec fn in_calendar(&self) -> bool {
        self.wf() && FIRST_SECOND <= self.secs <= LAST_SECOND
    }

    /// Nanoseconds since the epoch.
    pub open spec fn nanos_since_epoch(&self) -> int {
        self.secs * 1_000_000_000 + self.nanos
    }

    /// This instant, `secs` seconds later.
    pub open spec fn plus(&self, secs: int) -> Timestamp {
        Timestamp { secs: (self.secs + secs) as i64, nanos: self.nanos }
    }

    /// Whether the instant lies within the years 1 to 9999.
    pub fn is_in_calendar(&self) -> (r: bool)
        ensures
            r == self.in_calendar(),
    {
        self.nanos < NANOS_PER_SECOND && FIRST_SECOND <= self.secs && self.secs <= LAST_SECOND
    }

    /// This instant, `secs` seconds later.
    pub fn plus_secs(&self, secs: u64) -> (r: Timestamp)
        requires
            self.secs + secs <= i64::MAX,
        ensures
            r == self.plus(secs as int),
    {
        let later: i128 = self.secs as i128 + secs as i128;
        Timestamp { secs: later as i64, nanos: self.nanos }
    }

    /// Whether this instant is later than `other`.
    pub fn is_after(&self, other: &Timestamp) -> (r: bool)
        requires
            self.wf(),
            other.wf(),
        ensures
            r == (self.nanos_since_epoch() > other.nanos_since_epoch()),
    {
        self.secs > other.secs || (self.secs == other.secs && self.nanos > other.nanos)
    }

    /// Whether at least one second lies between `earlier` and this instant.
    /// An `earlier` that is in fact later gives `false`.
    pub fn second_passed_since(&self, earlier: &Timestamp) -> (r: bool)
        requires
            self.in_calendar(),
            earlier.in_calendar(),
        ensures
            r == (self.nanos_since_epoch() - earlier.nanos_since_epoch() >= 1_000_000_000),
    {
        let whole: i64 = self.secs - earlier.secs;
        whole > 1 || (whole == 1 && self.nanos >= earlier.nanos)
    }
}

/// The seconds that have passed of the UTC day in which second `secs` lies.
pub open spec fn second_of_day(secs: int) -> int {
    secs % 86_400
}

/// The formats in which the period of a backup is written.
pub open spec fn is_stamp_format(format: Seq<char>) -> bool {
    format == "%Y%m%d%H%M%S"@ || format == "%Y%m%d%H%M"@ || format == "%Y%m%d%H"@ || format
        == "%Y%m%d"@
}

/// The text that `chrono` writes for second `secs` in UTC under `format`.
pub uninterp spec fn utc_stamp(secs: int, format: Seq<char>) -> Seq<char>;

/// Hour, minute and second of the UTC day in which second `secs` lies:
/// `chrono::DateTime::from_timestamp`, then `hour`, `minute` and `second` of
/// `chrono::Timelike`. Believed, not proved: `chrono` takes the Euclidean
/// remainder of the timestamp by 86400 as the second of the day, and cuts
/// that into hours, minutes and seconds. Timestamps within the bounds are
/// well inside the range in which `from_timestamp` gives a date.
#[verifier::external_body]
pub(crate) fn utc_time_of_day(secs: i64) -> (r: (u32, u32, u32))
    requires
        FIRST_STAMP_SECOND <= secs <= LAST_SECOND,
    ensures
        r.0 == second_of_day(secs as int) / 3600,
        r.1 == (second_of_day(secs as int) / 60) % 60,
        r.2 == second_of_day(secs as int) % 60,
{
    let t = chrono::DateTime::from_timestamp(secs, 0).unwrap();
    (chrono::Timelike::hour(&t), chrono::Timelike::minute(&t), chrono::Timelike::second(&t))
}

/// Hour, minute and second of second `secs` on the clock of the machine's
/// time zone: `chrono::DateTime::from_timestamp`, `with_timezone` to
/// `chrono::Local`, then `hour`, `minute` and `second` of `chrono::Timelike`.
/// Which they are depends on the zone. Believed, not proved, are only the
/// ranges that `chrono` documents for them.
#[verifier::external_body]
pub(crate) fn local_time_of_day(secs: i64) -> (r: (u32, u32, u32))
    requires
        FIRST_STAMP_SECOND <= secs <= LAST_SECOND,
    ensures
        r.0 < 24,
        r.1 < 60,
        r.2 < 60,
{
    let t = chrono::DateTime::from_timestamp(secs, 0).unwrap().with_timezone(&chrono::Local);
    (chrono::Timelike::hour(&t), chrono::Timelike::minute(&t), chrono::Timelike::second(&t))
}

/// The date of second `secs` in UTC, written by `chrono::DateTime::format`
/// under one of the four formats, all of which `chrono` accepts. Believed,
/// not proved: the text depends on second and format alone. It is named
/// `utc_stamp`, not spelled out.
#[verifier::external_body]
pub(crate) fn utc_format(secs: i64, format: &str) -> (r: String)
    requires
        FIRST_STAMP_SECOND <= secs <= LAST_SECOND,
        is_stamp_format(format@),
    ensures
        r@ == utc_stamp(secs as int, format@),
{
    chrono::DateTime::from_timestamp(secs, 0).unwrap().format(format).to_string()
}

/// The date of second `secs` in the machine's time zone, written by
/// `chrono::DateTime::format` under one of the four formats. Nothing is
/// claimed of the text.
#[verifier::external_body]
pub(crate) fn local_format(secs: i64, format: &str) -> (r: String)
    requires
        FIRST_STAMP_SECOND <= secs <= LAST_SECOND,
        is_stamp_format(format@),
{
    let t = chrono::DateTime::from_timestamp(secs, 0).unwrap().with_timezone(&chrono::Local);
    t.format(format).to_string()
}

} // verus!
