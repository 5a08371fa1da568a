//! Instants and calendar dates, and the calls into `chrono` that read the
//! clock, the local time zone and the calendar.

use vstd::prelude::*;
use chrono::Datelike;
use chrono::Timelike;

verus! {

/// An instant in UTC: whole seconds since 1970-01-01T00:00:00Z and the
/// nanoseconds within that second (as `DateTime<Utc>` holds it).
#[derive(Clone, Copy, Debug, PartialEq, Eq, Structural)]
pub struct UtcTime {
    pub secs: i64,
    pub nanos: u32,
}

/// The day number (days since the start of the common era, 0001-01-01
/// being day 1) of 1970-01-01.
pub const UNIX_EPOCH_DAY: i64 = 719163;

/// The day number of the earliest date `chrono` represents (`NaiveDate::MIN`).
pub const DATE_MIN_DAYS: i32 = -95746129;

/// The day number of the latest date `chrono` represents (`NaiveDate::MAX`).
pub const DATE_MAX_DAYS: i32 = 95745399;

impl UtcTime {
    /// The instant counted in nanoseconds since the epoch.
    pub open spec fn total_nanos(self) -> int {
        self.secs * 1_000_000_000 + self.nanos
    }

    /// The order of instants: by second, then by nanosecond.
    pub open spec fn le(self, other: UtcTime) -> bool {
        self.secs < other.secs || (self.secs == other.secs && self.nanos <= other.nanos)
    }

    /// Whether `self` is not later than `other`.
    pub fn is_le(&self, other: &UtcTime) -> (b: bool)
        ensures
            b == self.le(*other),
    {
        self.secs < other.secs || (self.secs == other.secs && self.nanos <= other.nanos)
    }
}

/// Whether `chrono` accepts the pair as an instant (`DateTime::from_timestamp`):
/// its date lies in the supported range and the nanoseconds are below one
/// second, or below two seconds in the last second of a minute.
pub open spec fn timestamp_valid(t: UtcTime) -> bool {
    let days = t.secs / 86_400 + UNIX_EPOCH_DAY;
    let sod = t.secs % 86_400;
    &&& DATE_MIN_DAYS <= days <= DATE_MAX_DAYS
    &&& t.nanos < 2_000_000_000
    &&& (t.nanos < 1_000_000_000 || sod % 60 == 59)
}

/// An instant as read on the wall clock of the local time zone.
#[derive(Clone, Copy, Debug, PartialEq, Eq, Structural)]
pub struct LocalStamp {
    /// The local date as a day number (0001-01-01 is day 1).
    pub days: i32,
    pub year: i32,
    /// The month, 0 for January.
    pub month0: u32,
    /// The day of the month, from 1.
    pub day: u32,
    pub hour: u32,
    pub minute: u32,
    pub second: u32,
}

/// The ranges that hold of every local reading.
pub open spec fn stamp_in_range(s: LocalStamp) -> bool {
    &&& s.month0 < 12
    &&& 1 <= s.day <= 31
    &&& s.hour < 24
    &&& s.minute < 60
    &&& s.second < 60
}

/// The seconds from the start of day 0 to a local reading.
pub open spec fn local_secs(s: LocalStamp) -> int {
    s.days * 86_400 + s.hour * 3600 + s.minute * 60 + s.second
}

/// Whether `s` is a reading of the instant `t` on a local wall clock: its
/// fields are in range, it differs from the UTC reading of `t` by less than
/// a day (every offset `chrono` accepts is below 24 hours), and when its day
/// number lies in `chrono`'s range of dates its date is the calendar date
/// of that day number. (At the very ends of the range the local date may
/// lie one day outside it.)
pub open spec fn reads(t: UtcTime, s: LocalStamp) -> bool {
    &&& stamp_in_range(s)
    &&& day_in_range(s.days as int) ==> (s.year as int, s.month0 as int, s.day as int)
        == civil_date(s.days as int)
    &&& -86_400 < local_secs(s) - (t.secs + UNIX_EPOCH_DAY * 86_400) < 86_400
}

/// What reading an instant gives: the one `local_stamp` gave, a reading of
/// it when `chrono` accepts the instant, none otherwise.
pub open spec fn reading_of(t: UtcTime, r: Option<LocalStamp>) -> bool {
    &&& stamp_read(t, r)
    &&& match r {
        Some(s) => timestamp_valid(t) && reads(t, s),
        None => !timestamp_valid(t),
    }
}

/// Whether `d` is the local day of the instant `t`: the day number of the
/// reading `local_stamp` gave of `t`, or none when `chrono` does not accept
/// the instant.
pub open spec fn local_day_of(t: UtcTime, d: Option<i32>) -> bool {
    match d {
        Some(x) => timestamp_valid(t) && exists|s: LocalStamp|
            #[trigger] stamp_read(t, Some(s)) && reads(t, s) && s.days == x,
        None => !timestamp_valid(t) && stamp_read(t, None),
    }
}

/// A calendar date with its weekday.
#[derive(Clone, Copy, Debug, PartialEq, Eq, Structural)]
pub struct CalendarDate {
    pub year: i32,
    /// The month, 0 for January.
    pub month0: u32,
    /// The day of the month, from 1.
    pub day: u32,
    /// The weekday, 0 for Monday.
    pub weekday0: u32,
}

/// The year, month (from 0) and day of the month of a day number in the
/// proleptic Gregorian calendar, as `chrono` computes them.
pub uninterp spec fn civil_date(days: int) -> (int, int, int);

/// Whether a day number lies in `chrono`'s range of dates.
pub open spec fn day_in_range(days: int) -> bool {
    DATE_MIN_DAYS <= days <= DATE_MAX_DAYS
}

/// The weekday of a day number, 0 for Monday: 0001-01-01 was a Monday and
/// weekdays repeat every seven days.
pub open spec fn weekday_of(days: int) -> int {
    (days - 1) % 7
}

/// The current instant (`chrono::Utc::now`).
/// Trusted: the clock is read after 1970 and the nanoseconds stay below one
/// second (the call panics on a clock set before 1970). Which instant comes
/// back depends on the clock and is not stated.
#[verifier::external_body]
pub(crate) fn utc_now() -> (t: UtcTime)
    ensures
        t.secs >= 0,
        t.nanos < 1_000_000_000,
{
    let now = chrono::Utc::now();
    UtcTime { secs: now.timestamp(), nanos: now.timestamp_subsec_nanos() }
}

/// The current local reading of the clock (`chrono::Local::now`).
/// Trusted: the fields are in their ranges and the date is the calendar
/// date of its day number (the clock reads after 1970, far inside `chrono`'s
/// range); which reading comes back depends on the clock and the time zone
/// and is not stated. The call panics when the machine's zone data cannot
/// be read.
#[verifier::external_body]
pub(crate) fn local_now() -> (s: LocalStamp)
    ensures
        stamp_in_range(s),
        day_in_range(s.days as int),
        (s.year as int, s.month0 as int, s.day as int) == civil_date(s.days as int),
{
    let l = chrono::Local::now();
    let (days, year, month0, day) = (l.num_days_from_ce(), l.year(), l.month0(), l.day());
    LocalStamp { days, year, month0, day, hour: l.hour(), minute: l.minute(), second: l.second() }
}

/// An instant read in the local time zone (`DateTime::from_timestamp`, then
/// `with_timezone(&Local)`).
/// Trusted: a reading comes back exactly when `chrono` accepts the instant,
/// and it is a reading of `t` as `reads` says: it lies less than a day from
/// UTC (the local offset is a `FixedOffset`, which is always below 24
/// hours), and its date is the calendar date of its day number when that
/// number is in range. Near the ends of `chrono`'s range the local date can
/// lie one day outside it, which is why the day number is not promised to
/// be in range. The offset itself depends on the time zone of the machine
/// and is not stated; the call panics when the machine's zone data cannot
/// be read, as every local reading in `chrono` does.
#[verifier::external_body]
pub(crate) fn local_stamp(t: UtcTime) -> (r: Option<LocalStamp>)
    ensures
        r is Some <==> timestamp_valid(t),
        r matches Some(s) ==> reads(t, s),
{
    match chrono::DateTime::from_timestamp(t.secs, t.nanos) {
        Some(dt) => {
            let l = dt.with_timezone(&chrono::Local);
            let (days, year, month0, day) = (l.num_days_from_ce(), l.year(), l.month0(), l.day());
            Some(LocalStamp { days, year, month0, day, hour: l.hour(), minute: l.minute(), second: l.second() })
        },
        None => None,
    }
}

/// The calendar date of a day number (`NaiveDate::from_num_days_from_ce_opt`).
/// Trusted: a date comes back exactly for day numbers in `chrono`'s range;
/// its year, month and day are `civil_date(days)`, its weekday follows the
/// seven-day cycle, and month and day are in range.
#[verifier::external_body]
pub(crate) fn calendar_date(days: i32) -> (r: Option<CalendarDate>)
    ensures
        r is Some <==> day_in_range(days as int),
        r matches Some(c) ==> {
            &&& (c.year as int, c.month0 as int, c.day as int) == civil_date(days as int)
            &&& c.weekday0 as int == weekday_of(days as int)
            &&& c.month0 < 12
            &&& 1 <= c.day <= 31
        },
{
    match chrono::NaiveDate::from_num_days_from_ce_opt(days) {
        Some(d) => Some(
            CalendarDate {
                year: d.year(),
                month0: d.month0(),
                day: d.day(),
                weekday0: d.weekday().num_days_from_monday(),
            },
        ),
        None => None,
    }
}

/// Whether the clock (`utc_now`, `chrono::Utc::now`) was read and gave `t`.
pub closed spec fn clock_read(t: UtcTime) -> bool {
    call_ensures(utc_now, (), t)
}

/// Whether the local clock (`local_now`, `chrono::Local::now`) was read and
/// gave `s`.
pub closed spec fn local_now_read(s: LocalStamp) -> bool {
    call_ensures(local_now, (), s)
}

/// Whether the instant `t` was read in the local time zone (`local_stamp`)
/// and gave `r`.
pub closed spec fn stamp_read(t: UtcTime, r: Option<LocalStamp>) -> bool {
    call_ensures(local_stamp, (t,), r)
}

/// A reading of the clock is recorded as one.
pub(crate) proof fn lemma_clock_read(t: UtcTime)
    requires
        call_ensures(utc_now, (), t),
    ensures
        clock_read(t),
{
}

/// A reading of the local clock is recorded as one.
pub(crate) proof fn lemma_local_now_read(s: LocalStamp)
    requires
        call_ensures(local_now, (), s),
    ensures
        local_now_read(s),
{
}

/// A local reading of an instant is recorded as one.
pub(crate) proof fn lemma_stamp_read(t: UtcTime, r: Option<LocalStamp>)
    requires
        call_ensures(local_stamp, (t,), r),
    ensures
        stamp_read(t, r),
{
}

/// The day before a date, if there is one in range (`NaiveDate::pred_opt`).
pub open spec fn pred_day(days: int) -> Option<int> {
    if DATE_MIN_DAYS < days <= DATE_MAX_DAYS {
        Some(days - 1)
    } else {
        None
    }
}

/// The date `k` days earlier, if it is in range (`NaiveDate::checked_sub_days`).
pub open spec fn sub_days(days: int, k: int) -> Option<int> {
    if day_in_range(days) && day_in_range(days - k) {
        Some(days - k)
    } else {
        None
    }
}

/// The day before a date, if there is one in range.
pub fn day_before(days: i32) -> (r: Option<i32>)
    ensures
        r matches Some(p) ==> pred_day(days as int) == Some(p as int),
        r is None ==> pred_day(days as int) is None,
{
    if DATE_MIN_DAYS < days && days <= DATE_MAX_DAYS {
        Some(days - 1)
    } else {
        None
    }
}

/// The date `k` days earlier, if it is in range.
pub fn days_earlier(days: i32, k: u64) -> (r: Option<i32>)
    ensures
        r matches Some(p) ==> sub_days(days as int, k as int) == Some(p as int),
        r is None ==> sub_days(days as int, k as int) is None,
{
    if DATE_MIN_DAYS <= days && days <= DATE_MAX_DAYS && k <= 200_000_000 {
        let d: i64 = (days as i64) - (k as i64);
        if (DATE_MIN_DAYS as i64) <= d && d <= (DATE_MAX_DAYS as i64) {
            return Some(d as i32);
        }
    }
    None
}

} // verus!
