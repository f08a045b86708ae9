//! Instants of time in UTC.

use vstd::prelude::*;

verus! {

/// An instant in UTC: whole seconds since 1970-01-01T00:00:00Z, and the
/// nanoseconds past that second.
#[derive(Clone, Copy, Debug, PartialEq, Eq, PartialOrd, Ord, Hash, Structural)]
pub struct Timestamp {
    pub secs: i64,
    pub nanos: u32,
}

impl Timestamp {
    /// Whether `self` is strictly earlier than `other`.
    pub open spec fn before(self, other: Timestamp) -> bool {
        self.secs < other.secs || (self.secs == other.secs && self.nanos < other.nanos)
    }

    /// The instant a number of seconds earlier.
    pub open spec fn minus(self, secs: int) -> Timestamp {
        Timestamp { secs: (self.secs - secs) as i64, nanos: self.nanos }
    }

    /// The instant a number of seconds earlier.
    pub fn earlier(&self, secs: i64) -> (r: Timestamp)
        requires
            i64::MIN <= self.secs - secs <= i64::MAX,
        ensures
            r == self.minus(secs as int),
    {
        Timestamp { secs: self.secs - secs, nanos: self.nanos }
    }

    /// Whether `self` is strictly earlier than `other`.
    pub fn is_before(&self, other: &Timestamp) -> (r: bool)
        ensures
            r == self.before(*other),
    {
        self.secs < other.secs || (self.secs == other.secs && self.nanos < other.nanos)
    }
}

/// What `chrono::DateTime::parse_from_rfc3339` makes of a text: the instant it
/// denotes, or nothing where the text is no RFC 3339 date and time.
pub uninterp spec fn rfc3339_instant(text: Seq<char>) -> Option<Timestamp>;

/// `chrono::DateTime::parse_from_rfc3339`, the result taken as an instant in
/// UTC.
#[verifier::external_body]
pub(crate) fn parse_rfc3339(text: &str) -> (r: Option<Timestamp>)
    ensures
        r == rfc3339_instant(text@),
{
    chrono::DateTime::parse_from_rfc3339(text).ok().map(
        |d| Timestamp { secs: d.timestamp(), nanos: d.timestamp_subsec_nanos() },
    )
}

/// Whether a number of seconds since the epoch lies on a date that `chrono` can
/// represent: from the first day of the year -262143 to the last of 262142.
pub open spec fn is_date(secs: int) -> bool {
    -8_334_601_228_800 <= secs <= 8_210_266_876_799
}

/// Whether an instant is one that the clock can show: it lies on a date, and in
/// no leap second.
pub open spec fn clock_time(t: Timestamp) -> bool {
    is_date(t.secs as int) && t.nanos < 1_000_000_000
}

/// The current time, from `chrono::Utc::now`. All that is claimed of it is that
/// it lies on a date that `chrono` can represent, and in no leap second.
#[verifier::external_body]
pub(crate) fn utc_now() -> (r: Timestamp)
    ensures
        clock_time(r),
{
    let now = chrono::Utc::now();
    Timestamp { secs: now.timestamp(), nanos: now.timestamp_subsec_nanos() }
}

/// The instant a number of days of 86400 seconds before another; nothing where
/// either of the two lies on no date.
pub open spec fn whole_days_earlier(now: Timestamp, days: int) -> Option<Timestamp> {
    let secs = now.secs - days * 86_400;
    if is_date(now.secs as int) && is_date(secs) {
        Some(Timestamp { secs: secs as i64, nanos: now.nanos })
    } else {
        None
    }
}

/// The instant a number of days before another, as `chrono` counts: nothing
/// where the number of days or one of the instants is out of its range.
pub uninterp spec fn days_earlier(now: Timestamp, days: int) -> Option<Timestamp>;

/// `chrono::DateTime::checked_sub_signed` with `chrono::Duration::try_days`,
/// on the instant that `chrono::DateTime::from_timestamp` makes. Outside a
/// leap second it counts whole days of 86400 seconds, and fails exactly where
/// one of the instants lies on no date; within one, the result is left to the
/// name.
#[verifier::external_body]
pub(crate) fn days_before(now: Timestamp, days: i64) -> (r: Option<Timestamp>)
    ensures
        r == days_earlier(now, days as int),
        now.nanos < 1_000_000_000 ==> r == whole_days_earlier(now, days as int),
{
    chrono::DateTime::from_timestamp(now.secs, now.nanos)?.checked_sub_signed(
        chrono::Duration::try_days(days)?,
    ).map(|d| Timestamp { secs: d.timestamp(), nanos: d.timestamp_subsec_nanos() })
}

} // verus!
