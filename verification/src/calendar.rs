//! Unix time as calendar dates: the day a log file is named after, and the
//! two date spellings the WebDAV bridge writes.

use crate::text::{padded, push_padded};
use vstd::prelude::*;

verus! {

/// Seconds in one day.
pub const SECS_PER_DAY: i64 = 86_400;

/// Whether `year` has a 29 February.
pub open spec fn is_leap(year: int) -> bool {
    year % 4 == 0 && (year % 100 != 0 || year % 400 == 0)
}

/// How many days `month` of `year` has.
pub open spec fn days_in_month(year: int, month: int) -> int {
    if month == 2 {
        if is_leap(year) {
            29
        } else {
            28
        }
    } else if month == 4 || month == 6 || month == 9 || month == 11 {
        30
    } else {
        31
    }
}

/// `year`, `month` and `day` name a day of the Gregorian calendar.
pub open spec fn is_date(year: int, month: int, day: int) -> bool {
    1 <= month <= 12 && 1 <= day <= days_in_month(year, month)
}

/// How many days `year` begins after 1 January of the year 1.
pub open spec fn days_before_year(year: int) -> int {
    365 * (year - 1) + (year - 1) / 4 - (year - 1) / 100 + (year - 1) / 400
}

/// How many days of `year` come before `month`.
pub open spec fn days_before_month(year: int, month: int) -> int
    decreases month,
{
    if month <= 1 {
        0
    } else {
        days_before_month(year, month - 1) + days_in_month(year, month - 1)
    }
}

/// How many days the given date comes after 1 January 1970.
pub open spec fn day_number(year: int, month: int, day: int) -> int {
    days_before_year(year) + days_before_month(year, month) + day - 1 - 719_162
}

/// One day of the calendar.
#[derive(Debug, Clone, Copy, PartialEq, Eq, Structural)]
pub struct Date {
    pub year: i64,
    pub month: u32,
    pub day: u32,
}

impl Date {
    /// This is the date `days` days after 1 January 1970.
    pub open spec fn is_day(self, days: int) -> bool {
        is_date(self.year as int, self.month as int, self.day as int) && day_number(
            self.year as int,
            self.month as int,
            self.day as int,
        ) == days
    }
}

/// The days before each month of a year, in numbers.
proof fn lemma_days_before_month(year: int)
    ensures
        days_before_month(year, 1) == 0,
        days_before_month(year, 2) == 31,
        days_before_month(year, 3) == 59 + (if is_leap(year) { 1int } else { 0 }),
        days_before_month(year, 4) == 90 + (if is_leap(year) { 1int } else { 0 }),
        days_before_month(year, 5) == 120 + (if is_leap(year) { 1int } else { 0 }),
        days_before_month(year, 6) == 151 + (if is_leap(year) { 1int } else { 0 }),
        days_before_month(year, 7) == 181 + (if is_leap(year) { 1int } else { 0 }),
        days_before_month(year, 8) == 212 + (if is_leap(year) { 1int } else { 0 }),
        days_before_month(year, 9) == 243 + (if is_leap(year) { 1int } else { 0 }),
        days_before_month(year, 10) == 273 + (if is_leap(year) { 1int } else { 0 }),
        days_before_month(year, 11) == 304 + (if is_leap(year) { 1int } else { 0 }),
        days_before_month(year, 12) == 334 + (if is_leap(year) { 1int } else { 0 }),
{
    reveal_with_fuel(days_before_month, 13);
}

/// The first day of the year `yoe` of an era of four hundred years that
/// begin in March.
spec fn year_start(yoe: int) -> int {
    365 * yoe + yoe / 4 - yoe / 100
}

/// The year of the era that a day of the era falls in.
proof fn lemma_year_of_era(doe: int)
    requires
        0 <= doe < 146_097,
    ensures
        ({
            let yoe = (doe - doe / 1460 + doe / 36_524 - doe / 146_096) / 365;
            &&& 0 <= yoe <= 399
            &&& year_start(yoe) <= doe
            &&& doe - year_start(yoe) <= 365
            &&& doe < year_start(yoe + 1) + (yoe + 1) / 400
        }),
{
    // A day is placed by century, then by four years, then by year.
    let c = if doe == 146_096 {
        3int
    } else {
        doe / 36_524
    };
    let r = doe - c * 36_524;
    let q = if r >= 1460 * 24 + 1460 {
        24int
    } else {
        r / 1461
    };
    let yoe = (doe - doe / 1460 + doe / 36_524 - doe / 146_096) / 365;
    assert(0 <= c <= 3);
    assert(0 <= r <= 36_524);
    if c == 0 {
        lemma_year_of_century(doe, 0, r);
    } else if c == 1 {
        lemma_year_of_century(doe, 1, r);
    } else if c == 2 {
        lemma_year_of_century(doe, 2, r);
    } else {
        lemma_year_of_century(doe, 3, r);
    }
}

proof fn lemma_year_of_century(doe: int, c: int, r: int)
    requires
        0 <= c <= 3,
        doe == c * 36_524 + r,
        0 <= r < 36_524 || (c == 3 && r == 36_524),
    ensures
        ({
            let yoe = (doe - doe / 1460 + doe / 36_524 - doe / 146_096) / 365;
            &&& 0 <= yoe <= 399
            &&& year_start(yoe) <= doe
            &&& doe - year_start(yoe) <= 365
            &&& doe < year_start(yoe + 1) + (yoe + 1) / 400
        }),
{
    let yoe = (doe - doe / 1460 + doe / 36_524 - doe / 146_096) / 365;
    // The year within the century.
    let y = yoe - 100 * c;
    assert(0 <= y <= 99);
    assert(yoe / 100 == c);
    assert(yoe / 4 == 25 * c + y / 4);
}

/// The day of the era, and the bounds that keep the arithmetic in range.
proof fn lemma_parts(days: int, era: int, doe: int, yoe: int)
    requires
        -200_000_000_000_000 <= days <= 200_000_000_000_000,
        era == (days + 719_468) / 146_097,
        doe == days + 719_468 - era * 146_097,
        yoe == (doe - doe / 1460 + doe / 36_524 - doe / 146_096) / 365,
    ensures
        -1_400_000_000 <= era <= 1_400_000_000,
        0 <= doe < 146_097,
        0 <= yoe <= 399,
        0 <= doe - year_start(yoe) <= 365,
        doe < year_start(yoe + 1) + (yoe + 1) / 400,
{
    lemma_year_of_era(doe);
}

/// The date `days` days after 1 January 1970.
pub fn civil_from_days(days: i64) -> (date: Date)
    requires
        -200_000_000_000_000 <= days <= 200_000_000_000_000,
    ensures
        date.is_day(days as int),
        -600_000_000_000 <= date.year <= 600_000_000_000,
{
    let z: i64 = days + 719_468;
    let era: i64 = if z % 146_097 < 0 {
        z / 146_097 - 1
    } else {
        z / 146_097
    };
    let doe: i64 = z - era * 146_097;
    let yoe: i64 = (doe - doe / 1460 + doe / 36_524 - doe / 146_096) / 365;
    proof {
        lemma_parts(days as int, era as int, doe as int, yoe as int);
    }
    civil_from_parts(Ghost(days as int), era, doe, yoe)
}

/// The month and the day, once the era and the year of the era are known.
fn civil_from_parts(Ghost(days): Ghost<int>, era: i64, doe: i64, yoe: i64) -> (date: Date)
    requires
        -1_400_000_000 <= era <= 1_400_000_000,
        0 <= doe < 146_097,
        0 <= yoe <= 399,
        0 <= doe - year_start(yoe as int) <= 365,
        doe < year_start(yoe + 1) + (yoe + 1) / 400,
        days == era * 146_097 + doe - 719_468,
    ensures
        date.is_day(days),
        -600_000_000_000 <= date.year <= 600_000_000_000,
{
    let doy: i64 = doe - (365 * yoe + yoe / 4 - yoe / 100);
    proof {
        lemma_month(doy as int);
    }
    let mp: i64 = (5 * doy + 2) / 153;
    let day: i64 = doy - (153 * mp + 2) / 5 + 1;
    let month: i64 = if mp < 10 {
        mp + 3
    } else {
        mp - 9
    };
    let base: i64 = yoe + era * 400;
    let year: i64 = if month <= 2 {
        base + 1
    } else {
        base
    };
    proof {
        lemma_date(era as int, yoe as int, doy as int, month as int, day as int, year as int);
    }
    Date { year, month: month as u32, day: day as u32 }
}

/// Where a day of a year that begins in March falls.
proof fn lemma_month(doy: int)
    requires
        0 <= doy <= 365,
    ensures
        ({
            let mp = (5 * doy + 2) / 153;
            let day = doy - (153 * mp + 2) / 5 + 1;
            &&& 0 <= mp <= 11
            &&& 1 <= day <= 31
            &&& (mp == 1 || mp == 3 || mp == 6 || mp == 8) ==> day <= 30
            &&& mp == 11 ==> day <= 29 && doy == 337 + day - 1
        }),
{
}

proof fn lemma_date(era: int, yoe: int, doy: int, month: int, day: int, year: int)
    requires
        0 <= yoe <= 399,
        0 <= doy <= 365,
        year_start(yoe) + doy < year_start(yoe + 1) + (yoe + 1) / 400,
        month == (if (5 * doy + 2) / 153 < 10 {
            (5 * doy + 2) / 153 + 3
        } else {
            (5 * doy + 2) / 153 - 9
        }),
        day == doy - (153 * ((5 * doy + 2) / 153) + 2) / 5 + 1,
        year == yoe + era * 400 + (if month <= 2 { 1int } else { 0 }),
    ensures
        is_date(year, month, day),
        day_number(year, month, day) == era * 146_097 + year_start(yoe) + doy - 719_468,
{
    let mp = (5 * doy + 2) / 153;
    lemma_month(doy);
    lemma_days_before_month(year);
    let y0 = yoe + era * 400;
    // The year that begins in March, counted through the eras.
    assert(y0 / 4 == yoe / 4 + era * 100);
    assert(y0 / 100 == yoe / 100 + era * 4);
    assert(y0 / 400 == era);
    assert((y0 + 1) / 400 == era + (yoe + 1) / 400);
    assert(days_before_year(y0 + 1) == era * 146_097 + year_start(yoe));
    // A leap day ends the year `yoe` exactly when the next one is a leap year.
    assert((y0 + 1) % 4 == (yoe + 1) % 4);
    assert((y0 + 1) % 100 == (yoe + 1) % 100);
    assert((y0 + 1) % 400 == (yoe + 1) % 400);
    assert(year_start(yoe + 1) + (yoe + 1) / 400 - year_start(yoe) == 365 + (if is_leap(y0 + 1) {
        1int
    } else {
        0
    }));
    if month <= 2 {
        assert(year == y0 + 1);
    } else {
        assert(year == y0);
        assert(days_before_year(y0 + 1) == days_before_year(y0) + 365 + (if is_leap(y0) {
            1int
        } else {
            0
        })) by {
            lemma_year_length(y0);
        }
    }
}

proof fn lemma_by_4(y: int)
    ensures
        y / 4 == (y - 1) / 4 + (if y % 4 == 0 {
            1int
        } else {
            0
        }),
{
}

proof fn lemma_by_100(y: int)
    ensures
        y / 100 == (y - 1) / 100 + (if y % 100 == 0 {
            1int
        } else {
            0
        }),
        y % 100 == 0 ==> y % 4 == 0,
{
}

proof fn lemma_by_400(y: int)
    ensures
        y / 400 == (y - 1) / 400 + (if y % 400 == 0 {
            1int
        } else {
            0
        }),
        y % 400 == 0 ==> y % 100 == 0,
{
}

/// A year is 365 days long, and one more where it is a leap year.
proof fn lemma_year_length(year: int)
    ensures
        days_before_year(year + 1) == days_before_year(year) + 365 + (if is_leap(year) {
            1int
        } else {
            0
        }),
{
    lemma_by_4(year);
    lemma_by_100(year);
    lemma_by_400(year);
}

/// The day that the Unix time `secs` falls on, counted from 1 January 1970,
/// and the second of that day.
pub fn split_day(secs: i64) -> (parts: (i64, i64))
    ensures
        parts.0 == secs as int / 86_400,
        parts.1 == secs as int % 86_400,
{
    let q: i64 = secs / 86_400;
    let r: i64 = secs % 86_400;
    if r < 0 {
        (q - 1, r + 86_400)
    } else {
        (q, r)
    }
}

// ---------------------------------------------------------------------------
// One date for each day, in order.
// ---------------------------------------------------------------------------

/// Years come one after another.
proof fn lemma_year_order(a: int, b: int)
    requires
        a < b,
    ensures
        days_before_year(a + 1) <= days_before_year(b),
    decreases b - a,
{
    if a + 1 < b {
        lemma_year_order(a + 1, b);
        lemma_year_length(a + 1);
    }
}

/// A date falls inside its year.
proof fn lemma_day_of_year(year: int, month: int, day: int)
    requires
        is_date(year, month, day),
    ensures
        0 <= days_before_month(year, month) + day - 1 < 365 + (if is_leap(year) {
            1int
        } else {
            0
        }),
{
    lemma_days_before_month(year);
}

/// An earlier date has a smaller day number.
pub proof fn lemma_dates_in_order(y1: int, m1: int, d1: int, y2: int, m2: int, d2: int)
    requires
        is_date(y1, m1, d1),
        is_date(y2, m2, d2),
        y1 < y2 || (y1 == y2 && (m1 < m2 || (m1 == m2 && d1 < d2))),
    ensures
        day_number(y1, m1, d1) < day_number(y2, m2, d2),
{
    lemma_day_of_year(y1, m1, d1);
    lemma_day_of_year(y2, m2, d2);
    if y1 < y2 {
        lemma_year_order(y1, y2);
        lemma_year_length(y1);
    } else {
        lemma_days_before_month(y1);
    }
}

/// No day has two dates.
pub proof fn lemma_one_date(y1: int, m1: int, d1: int, y2: int, m2: int, d2: int)
    requires
        is_date(y1, m1, d1),
        is_date(y2, m2, d2),
        day_number(y1, m1, d1) == day_number(y2, m2, d2),
    ensures
        y1 == y2,
        m1 == m2,
        d1 == d2,
{
    if y1 < y2 || (y1 == y2 && (m1 < m2 || (m1 == m2 && d1 < d2))) {
        lemma_dates_in_order(y1, m1, d1, y2, m2, d2);
    } else if y1 != y2 || m1 != m2 || d1 != d2 {
        lemma_dates_in_order(y2, m2, d2, y1, m1, d1);
    }
}

/// The year, the month and the day that come `days` days after 1 January
/// 1970.
pub open spec fn date_of(days: int) -> (int, int, int) {
    choose|date: (int, int, int)|
        is_date(date.0, date.1, date.2) && day_number(date.0, date.1, date.2) == days
}

/// A date with a day number is the date of that day.
pub proof fn lemma_date_of(year: int, month: int, day: int)
    requires
        is_date(year, month, day),
    ensures
        date_of(day_number(year, month, day)) == (year, month, day),
{
    let days = day_number(year, month, day);
    let date = (year, month, day);
    assert(is_date(date.0, date.1, date.2) && day_number(date.0, date.1, date.2) == days);
    let found = date_of(days);
    assert(is_date(found.0, found.1, found.2) && day_number(found.0, found.1, found.2) == days);
    lemma_one_date(year, month, day, found.0, found.1, found.2);
}

// ---------------------------------------------------------------------------
// Spelling.
// ---------------------------------------------------------------------------

/// One Unix time as its UTC calendar fields.
#[derive(Debug, Clone, Copy, PartialEq, Eq, Structural)]
pub struct Civil {
    pub year: i64,
    pub month: u32,
    pub day: u32,
    pub hour: u32,
    pub minute: u32,
    pub second: u32,
    /// 0 is Sunday.
    pub weekday: u32,
}

impl Civil {
    /// These are the fields of the Unix time `secs`: its date, its time of
    /// day, and the day of the week, counted from the Thursday that 1 January
    /// 1970 was.
    pub open spec fn is_time(self, secs: int) -> bool {
        &&& (self.year as int, self.month as int, self.day as int) == date_of(secs / 86_400)
        &&& self.hour as int == secs % 86_400 / 3600
        &&& self.minute as int == secs % 3600 / 60
        &&& self.second as int == secs % 60
        &&& self.weekday as int == (secs / 86_400 + 4) % 7
    }

    /// The fields are in their ranges.
    pub open spec fn in_range(self) -> bool {
        &&& 1 <= self.month <= 12
        &&& 1 <= self.day <= 31
        &&& self.hour < 24
        &&& self.minute < 60
        &&& self.second < 60
        &&& self.weekday < 7
    }
}

/// The day of the week of the day `days` days after 1 January 1970.
fn weekday_of(days: i64) -> (weekday: u32)
    requires
        -200_000_000_000_000 <= days <= 200_000_000_000_000,
    ensures
        weekday as int == (days + 4) % 7,
{
    let shifted: i64 = days + 4;
    let rem: i64 = shifted % 7;
    if rem < 0 {
        (rem + 7) as u32
    } else {
        rem as u32
    }
}

/// The hour, the minute and the second of a Unix time.
fn time_of_day(secs_of_day: i64) -> (time: (u32, u32, u32))
    requires
        0 <= secs_of_day < 86_400,
    ensures
        time.0 == secs_of_day as int / 3600,
        time.1 == secs_of_day as int % 3600 / 60,
        time.2 == secs_of_day as int % 60,
        time.0 < 24,
        time.1 < 60,
        time.2 < 60,
{
    (
        (secs_of_day / 3600) as u32,
        (secs_of_day % 3600 / 60) as u32,
        (secs_of_day % 60) as u32,
    )
}

proof fn lemma_secs(secs: int)
    ensures
        secs % 86_400 % 3600 == secs % 3600,
        secs % 86_400 % 60 == secs % 60,
{
}

/// The UTC calendar fields of a Unix time.
pub fn civil_from_unix(unix_secs: i64) -> (civil: Civil)
    ensures
        civil.is_time(unix_secs as int),
        civil.in_range(),
{
    let (days, secs_of_day) = split_day(unix_secs);
    let date = civil_from_days(days);
    let (hour, minute, second) = time_of_day(secs_of_day);
    let weekday = weekday_of(days);
    proof {
        lemma_date_of(date.year as int, date.month as int, date.day as int);
        lemma_secs(unix_secs as int);
    }
    Civil { year: date.year, month: date.month, day: date.day, hour, minute, second, weekday }
}

/// The short English name of a day of the week.
pub open spec fn weekday_name(weekday: int) -> Seq<char> {
    if weekday == 0 {
        "Sun"@
    } else if weekday == 1 {
        "Mon"@
    } else if weekday == 2 {
        "Tue"@
    } else if weekday == 3 {
        "Wed"@
    } else if weekday == 4 {
        "Thu"@
    } else if weekday == 5 {
        "Fri"@
    } else {
        "Sat"@
    }
}

/// The short English name of a month.
pub open spec fn month_name(month: int) -> Seq<char> {
    if month == 1 {
        "Jan"@
    } else if month == 2 {
        "Feb"@
    } else if month == 3 {
        "Mar"@
    } else if month == 4 {
        "Apr"@
    } else if month == 5 {
        "May"@
    } else if month == 6 {
        "Jun"@
    } else if month == 7 {
        "Jul"@
    } else if month == 8 {
        "Aug"@
    } else if month == 9 {
        "Sep"@
    } else if month == 10 {
        "Oct"@
    } else if month == 11 {
        "Nov"@
    } else {
        "Dec"@
    }
}

fn weekday_text(weekday: u32) -> (name: &'static str)
    ensures
        name@ == weekday_name(weekday as int),
{
    match weekday {
        0 => "Sun",
        1 => "Mon",
        2 => "Tue",
        3 => "Wed",
        4 => "Thu",
        5 => "Fri",
        _ => "Sat",
    }
}

fn month_text(month: u32) -> (name: &'static str)
    ensures
        name@ == month_name(month as int),
{
    match month {
        1 => "Jan",
        2 => "Feb",
        3 => "Mar",
        4 => "Apr",
        5 => "May",
        6 => "Jun",
        7 => "Jul",
        8 => "Aug",
        9 => "Sep",
        10 => "Oct",
        11 => "Nov",
        _ => "Dec",
    }
}

/// The time of day of the Unix time `secs`, as `12:00:00`.
pub open spec fn clock_of(secs: int) -> Seq<char> {
    padded(secs % 86_400 / 3600, 2) + ":"@ + padded(secs % 3600 / 60, 2) + ":"@ + padded(
        secs % 60,
        2,
    )
}

/// The Unix time `secs` in the spelling of RFC 1123, as
/// `Tue, 09 Sep 2025 12:00:00 GMT`.
pub open spec fn rfc1123_of(secs: int) -> Seq<char> {
    let date = date_of(secs / 86_400);
    weekday_name((secs / 86_400 + 4) % 7) + ", "@ + padded(date.2, 2) + " "@ + month_name(date.1)
        + " "@ + padded(date.0, 4) + " "@ + clock_of(secs) + " GMT"@
}

/// The Unix time `secs` in the spelling of ISO 8601, as
/// `2025-09-09T12:00:00Z`.
pub open spec fn iso8601_of(secs: int) -> Seq<char> {
    let date = date_of(secs / 86_400);
    padded(date.0, 4) + "-"@ + padded(date.1, 2) + "-"@ + padded(date.2, 2) + "T"@ + clock_of(secs)
        + "Z"@
}

/// The day of the Unix time `secs`, as `20250909`.
pub open spec fn day_key_of(secs: int) -> Seq<char> {
    let date = date_of(secs / 86_400);
    padded(date.0, 4) + padded(date.1, 2) + padded(date.2, 2)
}

fn push_clock(out: &mut String, civil: &Civil, Ghost(secs): Ghost<int>)
    requires
        civil.is_time(secs),
    ensures
        final(out)@ == old(out)@ + clock_of(secs),
{
    push_padded(out, civil.hour as i64, 2);
    out.push_str(":");
    push_padded(out, civil.minute as i64, 2);
    out.push_str(":");
    push_padded(out, civil.second as i64, 2);
    assert(out@ =~= old(out)@ + clock_of(secs));
}

/// `Tue, 09 Sep 2025 12:00:00 GMT`: the spelling of the `Date` and
/// `Last-Modified` headers and of `getlastmodified`.
pub fn rfc1123(unix_secs: i64) -> (text: String)
    ensures
        text@ == rfc1123_of(unix_secs as int),
{
    let civil = civil_from_unix(unix_secs);
    let mut text = String::new();
    text.push_str(weekday_text(civil.weekday));
    text.push_str(", ");
    push_padded(&mut text, civil.day as i64, 2);
    text.push_str(" ");
    text.push_str(month_text(civil.month));
    text.push_str(" ");
    push_padded(&mut text, civil.year, 4);
    text.push_str(" ");
    push_clock(&mut text, &civil, Ghost(unix_secs as int));
    text.push_str(" GMT");
    assert(text@ =~= rfc1123_of(unix_secs as int));
    text
}

/// `2025-09-09T12:00:00Z`: the spelling of `creationdate`.
pub fn iso8601(unix_secs: i64) -> (text: String)
    ensures
        text@ == iso8601_of(unix_secs as int),
{
    let civil = civil_from_unix(unix_secs);
    let mut text = String::new();
    push_padded(&mut text, civil.year, 4);
    text.push_str("-");
    push_padded(&mut text, civil.month as i64, 2);
    text.push_str("-");
    push_padded(&mut text, civil.day as i64, 2);
    text.push_str("T");
    push_clock(&mut text, &civil, Ghost(unix_secs as int));
    text.push_str("Z");
    assert(text@ =~= iso8601_of(unix_secs as int));
    text
}

/// The UTC day of a Unix time as the eight digits a day file is named with:
/// `YYYYMMDD`.
pub fn day_key(unix_secs: i64) -> (text: String)
    ensures
        text@ == day_key_of(unix_secs as int),
{
    let civil = civil_from_unix(unix_secs);
    let mut text = String::new();
    push_padded(&mut text, civil.year, 4);
    push_padded(&mut text, civil.month as i64, 2);
    push_padded(&mut text, civil.day as i64, 2);
    assert(text@ =~= day_key_of(unix_secs as int));
    text
}

/// Every day has a date.
pub proof fn lemma_every_day_has_a_date(days: int)
    ensures
        ({
            let date = date_of(days);
            is_date(date.0, date.1, date.2) && day_number(date.0, date.1, date.2) == days
        }),
{
    let z = days + 719_468;
    let era = z / 146_097;
    let doe = z - era * 146_097;
    let yoe = (doe - doe / 1460 + doe / 36_524 - doe / 146_096) / 365;
    lemma_year_of_era(doe);
    let doy = doe - year_start(yoe);
    let mp = (5 * doy + 2) / 153;
    let day = doy - (153 * mp + 2) / 5 + 1;
    let month = if mp < 10 {
        mp + 3
    } else {
        mp - 9
    };
    let year = yoe + era * 400 + (if month <= 2 {
        1int
    } else {
        0
    });
    lemma_date(era, yoe, doy, month, day, year);
    lemma_date_of(year, month, day);
}

} // verus!
