//! Calendar dates as day numbers of the proleptic Gregorian calendar.
//!
//! A [`Date`] holds the number of its day, counting January 1 of the year 1 as
//! day 1. Consecutive calendar days have consecutive numbers, so the
//! arithmetic on days is integer arithmetic and is verified here. What only a
//! calendar can say (how a date is written, which day a year, a month and a
//! day name, which day of the week a date falls on) is asked of `chrono`, in
//! the module `calendar`.

use chrono::{Datelike, Timelike};
use std::fmt::Write;
use vstd::prelude::*;

verus! {

/// How a date is written in the store and in the name of a journal file.
pub const DB_DATE_FORMAT: &'static str = "%Y-%m-%d";

/// How a moment is written in the store.
pub const DB_DATE_TIME_FORMAT: &'static str = "%Y-%m-%d %H:%M:%S";

/// Day number of the earliest date that `chrono::NaiveDate` can hold
/// (January 1 of the year -262143).
pub const MIN_DAY: i32 = -95_746_129;

/// Day number of the latest date that `chrono::NaiveDate` can hold
/// (December 31 of the year 262142).
pub const MAX_DAY: i32 = 95_745_399;

/// A calendar date between [`MIN_DAY`] and [`MAX_DAY`].
#[derive(Clone, Copy, Debug, PartialEq, Eq, Structural)]
pub struct Date {
    days: i32,
}

impl View for Date {
    type V = int;

    closed spec fn view(&self) -> int {
        self.days as int
    }
}

/// Whether what the clock gave is a day of the calendar, where it gave one.
pub open spec fn clock_in_range(clock: Option<int>) -> bool {
    clock matches Some(day) ==> day_in_range(day)
}

/// Whether `day` is the number of a date that a [`Date`] can hold.
pub open spec fn day_in_range(day: int) -> bool {
    MIN_DAY <= day <= MAX_DAY
}

impl Date {
    #[verifier::type_invariant]
    spec fn in_range(self) -> bool {
        MIN_DAY <= self.days <= MAX_DAY
    }

    /// The date with the given day number, if there is one.
    pub fn from_days(days: i32) -> (r: Option<Date>)
        ensures
            r is Some <==> day_in_range(days as int),
            r matches Some(d) ==> d@ == days,
    {
        if MIN_DAY <= days && days <= MAX_DAY {
            Some(Date { days })
        } else {
            None
        }
    }

    /// The day number of this date.
    pub fn days(&self) -> (r: i32)
        ensures
            r == self@,
            day_in_range(r as int),
    {
        proof {
            use_type_invariant(self);
        }
        self.days
    }

    /// The date `n` days after this one; `None` where that is past [`MAX_DAY`].
    pub fn checked_add_days(&self, n: u64) -> (r: Option<Date>)
        ensures
            r is Some <==> self@ + n <= MAX_DAY,
            r matches Some(d) ==> d@ == self@ + n,
    {
        proof {
            use_type_invariant(self);
        }
        if n <= 200_000_000 {
            let sum: i64 = self.days as i64 + n as i64;
            if sum <= MAX_DAY as i64 {
                return Some(Date { days: sum as i32 });
            }
        }
        None
    }

    /// The date `n` days before this one; `None` where that is before [`MIN_DAY`].
    pub fn checked_sub_days(&self, n: u64) -> (r: Option<Date>)
        ensures
            r is Some <==> self@ - n >= MIN_DAY,
            r matches Some(d) ==> d@ == self@ - n,
    {
        proof {
            use_type_invariant(self);
        }
        if n <= 200_000_000 {
            let diff: i64 = self.days as i64 - n as i64;
            if diff >= MIN_DAY as i64 {
                return Some(Date { days: diff as i32 });
            }
        }
        None
    }

    /// The next day; `None` after the last date.
    pub fn succ_opt(&self) -> (r: Option<Date>)
        ensures
            r is Some <==> self@ < MAX_DAY,
            r matches Some(d) ==> d@ == self@ + 1,
    {
        self.checked_add_days(1)
    }

    /// The day before; `None` before the first date.
    pub fn pred_opt(&self) -> (r: Option<Date>)
        ensures
            r is Some <==> self@ > MIN_DAY,
            r matches Some(d) ==> d@ == self@ - 1,
    {
        self.checked_sub_days(1)
    }

    /// The number of days from `earlier` to this date; negative where this
    /// date is the earlier one.
    pub fn days_since(&self, earlier: Date) -> (r: i64)
        ensures
            r == self@ - earlier@,
    {
        proof {
            use_type_invariant(self);
            use_type_invariant(&earlier);
        }
        self.days as i64 - earlier.days as i64
    }
}

/// A day of the week.
#[derive(Clone, Copy, Debug, PartialEq, Eq, Structural)]
pub enum Weekday {
    Mon,
    Tue,
    Wed,
    Thu,
    Fri,
    Sat,
    Sun,
}

impl Weekday {
    /// The number of days from Monday to this day of the week: 0 for Monday,
    /// 6 for Sunday.
    pub open spec fn spec_index(self) -> u8 {
        match self {
            Weekday::Mon => 0u8,
            Weekday::Tue => 1u8,
            Weekday::Wed => 2u8,
            Weekday::Thu => 3u8,
            Weekday::Fri => 4u8,
            Weekday::Sat => 5u8,
            Weekday::Sun => 6u8,
        }
    }

    /// The day of the week that lies `index` days after Monday; `None` where
    /// `index` is 7 or more.
    pub fn from_index(index: u8) -> (r: Option<Weekday>)
        ensures
            r is Some <==> index < 7,
            r matches Some(w) ==> w.spec_index() == index,
    {
        match index {
            0 => Some(Weekday::Mon),
            1 => Some(Weekday::Tue),
            2 => Some(Weekday::Wed),
            3 => Some(Weekday::Thu),
            4 => Some(Weekday::Fri),
            5 => Some(Weekday::Sat),
            6 => Some(Weekday::Sun),
            _ => None,
        }
    }

    /// The number of days from Monday to this day of the week.
    #[verifier::when_used_as_spec(spec_index)]
    pub fn index(self) -> (r: u8)
        ensures
            r == self.spec_index(),
            r < 7,
    {
        match self {
            Weekday::Mon => 0,
            Weekday::Tue => 1,
            Weekday::Wed => 2,
            Weekday::Thu => 3,
            Weekday::Fri => 4,
            Weekday::Sat => 5,
            Weekday::Sun => 6,
        }
    }
}

/// A moment of local wall-clock time, to the second.
#[derive(Clone, Copy, Debug, PartialEq, Eq, Structural)]
pub struct Timestamp {
    pub day: Date,
    pub second: u32,
}

impl Timestamp {
    /// Whether this moment is strictly before `other`.
    pub open spec fn spec_before(self, other: Timestamp) -> bool {
        self.day@ < other.day@ || (self.day@ == other.day@ && self.second < other.second)
    }

    /// Whether this moment is strictly before `other`.
    #[verifier::when_used_as_spec(spec_before)]
    pub fn before(self, other: Timestamp) -> (r: bool)
        ensures
            r == self.spec_before(other),
    {
        let a: i32 = self.day.days();
        let b: i32 = other.day.days();
        a < b || (a == b && self.second < other.second)
    }
}

/// The error of `chrono` for a text that is no date in the format asked for.
#[verifier::external_type_specification]
#[verifier::external_body]
pub struct ExParseError(chrono::format::ParseError);

/// The error of `chrono` for a text that names no day of the week.
#[verifier::external_type_specification]
#[verifier::external_body]
pub struct ExParseWeekdayError(chrono::ParseWeekdayError);

/// The day number of the date that `chrono` reads from `text` in the format
/// `format`; `None` where it reads none.
pub uninterp spec fn parsed_day(text: Seq<char>, format: Seq<char>) -> Option<int>;

/// How `chrono` writes the date with the day number `day` in the format `format`.
pub uninterp spec fn formatted_day(day: int, format: Seq<char>) -> Seq<char>;

/// The day number of the date that `chrono` makes of a year, a month and a
/// day of the month; `None` where there is no such date.
pub uninterp spec fn civil_day(year: int, month: int, day: int) -> Option<int>;

/// The year, by `chrono`, of the date with the day number `day`.
pub uninterp spec fn civil_year(day: int) -> int;

/// The month, by `chrono`, of the date with the day number `day`.
pub uninterp spec fn civil_month(day: int) -> int;

/// The number of days from Monday to the day of the week of the date with the
/// day number `day`: day 1 is a Monday, and the days of the week follow one
/// another without a break.
pub open spec fn weekday_index(day: int) -> int {
    (day - 1) % 7
}

/// The day number of the date that `chrono` finds `months` months after the
/// date with the day number `day`; `None` where it finds none.
pub uninterp spec fn day_months_later(day: int, months: int) -> Option<int>;

/// The day number of the date that `chrono` finds `months` months before the
/// date with the day number `day`; `None` where it finds none.
pub uninterp spec fn day_months_earlier(day: int, months: int) -> Option<int>;

/// The number of days from Monday to the day of the week that `chrono` reads
/// from `text`; `None` where it reads none.
pub uninterp spec fn parsed_weekday(text: Seq<char>) -> Option<int>;

/// Calls `chrono::NaiveDate::parse_from_str`. The contract names the date
/// that comes back, and says that it lies within the calendar of `chrono`; it
/// says nothing of which texts are dates.
#[verifier::external_body]
pub(crate) fn parse_from_str(text: &str, format: &str) -> (r: Result<Date, chrono::format::ParseError>)
    ensures
        r is Ok <==> parsed_day(text@, format@) is Some,
        r matches Ok(d) ==> parsed_day(text@, format@) == Some(d@) && day_in_range(d@),
{
    chrono::NaiveDate::parse_from_str(text, format).map(|d| Date { days: d.num_days_from_ce() })
}

/// Writes what `chrono::NaiveDate::format` hands back for `date`. The
/// contract names the text; it says nothing of what the text holds.
#[verifier::external_body]
pub(crate) fn format_date(date: Date, format: &str) -> (r: String)
    ensures
        r@ == formatted_day(date@, format@),
{
    let mut text = String::new();
    let day = chrono::NaiveDate::from_num_days_from_ce_opt(date.days).unwrap_or_default();
    let _ = write!(text, "{}", day.format(format));
    text
}

/// Calls `chrono::NaiveDate::from_ymd_opt`. The contract names the date that
/// comes back, and says that it lies within the calendar of `chrono`; it says
/// nothing of which triples are dates.
#[verifier::external_body]
pub(crate) fn from_ymd_opt(year: i32, month: u32, day: u32) -> (r: Option<Date>)
    ensures
        r is Some <==> civil_day(year as int, month as int, day as int) is Some,
        r matches Some(d) ==> civil_day(year as int, month as int, day as int) == Some(d@) && day_in_range(d@),
{
    chrono::NaiveDate::from_ymd_opt(year, month, day).map(|d| Date { days: d.num_days_from_ce() })
}

/// Calls `chrono::Datelike::year` on the date.
#[verifier::external_body]
pub(crate) fn year_of(date: Date) -> (r: i32)
    ensures
        r == civil_year(date@),
{
    chrono::NaiveDate::from_num_days_from_ce_opt(date.days).map(|d| d.year()).unwrap_or_default()
}

/// Calls `chrono::Datelike::month` on the date. `chrono` documents the result
/// as a number from 1 to 12.
#[verifier::external_body]
pub(crate) fn month_of(date: Date) -> (r: u32)
    ensures
        r == civil_month(date@),
        1 <= r <= 12,
{
    chrono::NaiveDate::from_num_days_from_ce_opt(date.days).map(|d| d.month()).unwrap_or_default()
}

/// Calls `chrono::Datelike::weekday` on the date, and
/// `chrono::Weekday::num_days_from_monday` on the day that comes back, which
/// `chrono` documents as a number from 0 to 6. The contract states the day of
/// the week: `chrono` counts January 1 of the year 1, a Monday, as day 1.
#[verifier::external_body]
pub(crate) fn weekday_of(date: Date) -> (r: u8)
    ensures
        r == weekday_index(date@),
        r < 7,
{
    chrono::NaiveDate::from_num_days_from_ce_opt(date.days)
        .map(|d| d.weekday().num_days_from_monday() as u8)
        .unwrap_or_default()
}

/// Calls `chrono::NaiveDate::checked_add_months`. The contract names the date
/// that comes back, and says that it lies within the calendar of `chrono`.
#[verifier::external_body]
pub(crate) fn checked_add_months(date: Date, months: u32) -> (r: Option<Date>)
    ensures
        r is Some <==> day_months_later(date@, months as int) is Some,
        r matches Some(d) ==> day_months_later(date@, months as int) == Some(d@) && day_in_range(d@),
{
    chrono::NaiveDate::from_num_days_from_ce_opt(date.days)
        .and_then(|d| d.checked_add_months(chrono::Months::new(months)))
        .map(|d| Date { days: d.num_days_from_ce() })
}

/// Calls `chrono::NaiveDate::checked_sub_months`. The contract names the date
/// that comes back, and says that it lies within the calendar of `chrono`.
#[verifier::external_body]
pub(crate) fn checked_sub_months(date: Date, months: u32) -> (r: Option<Date>)
    ensures
        r is Some <==> day_months_earlier(date@, months as int) is Some,
        r matches Some(d) ==> day_months_earlier(date@, months as int) == Some(d@) && day_in_range(d@),
{
    chrono::NaiveDate::from_num_days_from_ce_opt(date.days)
        .and_then(|d| d.checked_sub_months(chrono::Months::new(months)))
        .map(|d| Date { days: d.num_days_from_ce() })
}

/// Calls `str::parse` for a `chrono::Weekday`, and
/// `chrono::Weekday::num_days_from_monday` on the day that comes back, which
/// `chrono` documents as a number from 0 to 6. The contract names the day; it
/// says nothing of which texts name a day.
#[verifier::external_body]
pub(crate) fn parse_weekday(text: &str) -> (r: Result<u8, chrono::ParseWeekdayError>)
    ensures
        r is Ok <==> parsed_weekday(text@) is Some,
        r matches Ok(index) ==> parsed_weekday(text@) == Some(index as int) && index < 7,
{
    text.parse::<chrono::Weekday>().map(|w| w.num_days_from_monday() as u8)
}

/// The present moment by the local clock; `None` where the clock gives no
/// moment of the calendar. The time since the Unix epoch is read with
/// `std::time::SystemTime::duration_since`, which fails where the clock
/// stands before the epoch; `chrono::DateTime::from_timestamp` makes a moment
/// of it, `chrono::DateTime::with_timezone` moves it to the local time zone,
/// and `chrono::NaiveDateTime::checked_add_offset` gives the local date and
/// time, each of them `None` outside the calendar of `chrono`. `chrono`
/// documents the seconds since midnight as less than 86400; which moment
/// comes is whatever the clock says.
#[verifier::external_body]
pub(crate) fn now() -> (r: Option<Timestamp>)
    ensures
        r matches Some(t) ==> t.second < 86_400 && day_in_range(t.day@),
{
    let since = std::time::SystemTime::now().duration_since(std::time::UNIX_EPOCH).ok()?;
    let utc = chrono::DateTime::from_timestamp(i64::try_from(since.as_secs()).ok()?, since.subsec_nanos())?;
    let local = utc.with_timezone(&chrono::Local);
    let t = local.naive_utc().checked_add_offset(*local.offset())?;
    Some(Timestamp { day: Date { days: t.date().num_days_from_ce() }, second: t.time().num_seconds_from_midnight() })
}

/// Today's date by the local clock: the day of the present moment; `None`
/// where the clock gives no moment of the calendar.
pub(crate) fn today() -> (r: Option<Date>)
    ensures
        r matches Some(d) ==> day_in_range(d@),
{
    match now() {
        Some(t) => {
            let _ = t.day.days();
            Some(t.day)
        },
        None => None,
    }
}

} // verus!
