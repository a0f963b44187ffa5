//! Calendar dates and times as plain values, the iCalendar UTC text form,
//! and the calls into `chrono` / `chrono-tz` that the schedule needs.

use vstd::prelude::*;
use crate::text::{padded_decimal, push_char, push_padded};
use chrono::{Datelike, Timelike};

verus! {

/// The earliest year a calendar date can have.
pub const MIN_YEAR: i32 = -262143;

/// The latest year a calendar date can have.
pub const MAX_YEAR: i32 = 262142;

/// The strftime format of the iCalendar UTC form.
pub const ICAL_UTC_FORMAT: &'static str = "%Y%m%dT%H%M%SZ";

/// A calendar date in the proleptic Gregorian calendar.
#[derive(Clone, Copy, Debug, PartialEq, Eq, Structural)]
pub struct Date {
    pub year: i32,
    pub month: u32,
    pub day: u32,
}

/// A wall-clock date and time with no time zone attached.
#[derive(Clone, Copy, Debug, PartialEq, Eq, Structural)]
pub struct LocalDateTime {
    pub year: i32,
    pub month: u32,
    pub day: u32,
    pub hour: u32,
    pub minute: u32,
    pub second: u32,
}

/// An instant, given by its date and time in UTC.
#[derive(Clone, Copy, Debug, PartialEq, Eq, Structural)]
pub struct UtcDateTime {
    pub year: i32,
    pub month: u32,
    pub day: u32,
    pub hour: u32,
    pub minute: u32,
    pub second: u32,
}

pub open spec fn is_leap_year(y: int) -> bool {
    y % 4 == 0 && (y % 100 != 0 || y % 400 == 0)
}

pub open spec fn days_in_month(y: int, m: int) -> int {
    if m == 2 {
        if is_leap_year(y) { 29 } else { 28 }
    } else if m == 4 || m == 6 || m == 9 || m == 11 {
        30
    } else {
        31
    }
}

/// `y-m-d` names a day of the supported calendar.
pub open spec fn valid_ymd(y: int, m: int, d: int) -> bool {
    &&& MIN_YEAR <= y <= MAX_YEAR
    &&& 1 <= m <= 12
    &&& 1 <= d <= days_in_month(y, m)
}

pub open spec fn valid_date(d: Date) -> bool {
    valid_ymd(d.year as int, d.month as int, d.day as int)
}

pub open spec fn valid_time(h: int, mi: int, s: int) -> bool {
    0 <= h < 24 && 0 <= mi < 60 && 0 <= s < 60
}

pub open spec fn valid_utc(t: UtcDateTime) -> bool {
    valid_ymd(t.year as int, t.month as int, t.day as int) && valid_time(
        t.hour as int,
        t.minute as int,
        t.second as int,
    )
}

/// The last day of the supported calendar.
pub open spec fn is_last_date(d: Date) -> bool {
    d.year == MAX_YEAR && d.month == 12 && d.day == 31
}

/// The day after `d`.
pub open spec fn following_day(d: Date) -> Date {
    if (d.day as int) < days_in_month(d.year as int, d.month as int) {
        Date { year: d.year, month: d.month, day: (d.day + 1) as u32 }
    } else if d.month < 12 {
        Date { year: d.year, month: (d.month + 1) as u32, day: 1 }
    } else {
        Date { year: (d.year + 1) as i32, month: 1, day: 1 }
    }
}

/// Midnight UTC at the start of `d`.
pub open spec fn utc_midnight(d: Date) -> UtcDateTime {
    UtcDateTime { year: d.year, month: d.month, day: d.day, hour: 0, minute: 0, second: 0 }
}

/// The wall-clock reading of a UTC instant.
pub open spec fn naive_of(t: UtcDateTime) -> LocalDateTime {
    LocalDateTime {
        year: t.year,
        month: t.month,
        day: t.day,
        hour: t.hour,
        minute: t.minute,
        second: t.second,
    }
}

/// A wall-clock reading taken as UTC.
pub open spec fn utc_of(t: LocalDateTime) -> UtcDateTime {
    UtcDateTime {
        year: t.year,
        month: t.month,
        day: t.day,
        hour: t.hour,
        minute: t.minute,
        second: t.second,
    }
}

/// A year as strftime's `%Y` writes it: four digits at least, with a sign
/// outside 0..=9999.
pub open spec fn year_text(y: int) -> Seq<char> {
    if 0 <= y < 10000 {
        padded_decimal(y as nat, 4)
    } else if y < 0 {
        seq!['-'] + padded_decimal((-y) as nat, 4)
    } else {
        seq!['+'] + padded_decimal(y as nat, 4)
    }
}

/// The iCalendar UTC form `YYYYMMDDTHHMMSSZ` of an instant
/// (strftime `%Y%m%dT%H%M%SZ`).
pub open spec fn ical_utc_text(t: UtcDateTime) -> Seq<char> {
    year_text(t.year as int) + padded_decimal(t.month as nat, 2) + padded_decimal(t.day as nat, 2)
        + seq!['T'] + padded_decimal(t.hour as nat, 2) + padded_decimal(t.minute as nat, 2)
        + padded_decimal(t.second as nat, 2) + seq!['Z']
}

/// Days from 1970-01-01 to `y-m-d` in the proleptic Gregorian calendar
/// (the civil-to-days count, computed per 400-year era).
pub open spec fn days_from_civil(y: int, m: int, d: int) -> int {
    let y1 = if m <= 2 { y - 1 } else { y };
    let era = y1 / 400;
    let yoe = y1 - era * 400;
    let mp = if m > 2 { m - 3 } else { m + 9 };
    let doy = (153 * mp + 2) / 5 + d - 1;
    let doe = yoe * 365 + yoe / 4 - yoe / 100 + doy;
    era * 146097 + doe - 719468
}

/// Seconds since the Unix epoch of a UTC instant.
pub open spec fn unix_seconds(t: UtcDateTime) -> int {
    days_from_civil(t.year as int, t.month as int, t.day as int) * 86400 + t.hour * 3600
        + t.minute * 60 + t.second
}

/// What `NaiveDateTime::parse_from_str` gives for text `s` and strftime format `fmt`.
pub uninterp spec fn chrono_naive_parse(s: Seq<char>, fmt: Seq<char>) -> Option<LocalDateTime>;

/// The UTC instant of a US/Eastern wall-clock reading when the reading names
/// exactly one instant (`None` when it names none or two, or is no valid reading).
pub uninterp spec fn eastern_local_to_utc(local: LocalDateTime) -> Option<UtcDateTime>;

#[verifier::external_type_specification]
#[verifier::external_body]
pub struct ExChronoParseError(chrono::format::ParseError);

/// Calls chrono's `NaiveDateTime::parse_from_str(s, fmt)` and returns the
/// fields of the parsed reading. Claimed: the result is `Ok` exactly when
/// `chrono_naive_parse` is `Some`, and then holds that reading.
#[verifier::external_body]
pub(crate) fn naive_parse(s: &str, fmt: &str) -> (r: Result<LocalDateTime, chrono::format::ParseError>)
    ensures
        (r is Ok) == (chrono_naive_parse(s@, fmt@) is Some),
        r matches Ok(v) ==> chrono_naive_parse(s@, fmt@) == Some(v),
{
    match chrono::NaiveDateTime::parse_from_str(s, fmt) {
        Ok(n) => Ok(LocalDateTime {
            year: n.year(),
            month: n.month(),
            day: n.day(),
            hour: n.hour(),
            minute: n.minute(),
            second: n.second(),
        }),
        Err(e) => Err(e),
    }
}

/// Calls chrono-tz: builds the reading with `NaiveDate::from_ymd_opt` and
/// `and_hms_opt`, places it in `US/Eastern` with `and_local_timezone(..).single()`,
/// and returns the UTC fields of that instant. Claimed: the result is
/// `eastern_local_to_utc(*local)`.
#[verifier::external_body]
pub(crate) fn eastern_to_utc(local: &LocalDateTime) -> (r: Option<UtcDateTime>)
    ensures
        r == eastern_local_to_utc(*local),
        r matches Some(t) ==> valid_utc(t),
{
    let date = match chrono::NaiveDate::from_ymd_opt(local.year, local.month, local.day) {
        Some(d) => d,
        None => return None,
    };
    let naive = match date.and_hms_opt(local.hour, local.minute, local.second) {
        Some(n) => n,
        None => return None,
    };
    match naive.and_local_timezone(chrono_tz::US::Eastern).single() {
        Some(t) => {
            let u = t.naive_utc();
            Some(UtcDateTime { year: u.year(), month: u.month(), day: u.day(), hour: u.hour(), minute: u.minute(), second: u.second() })
        },
        None => None,
    }
}

/// Reads the system clock (`std::time::SystemTime::now()`), converts it with
/// chrono's `From<SystemTime> for DateTime<Utc>` (which also takes clocks set
/// before 1970) and returns its UTC fields. Claimed: the fields name a valid
/// instant; nothing is claimed of which one. The conversion still panics on
/// a clock set past chrono's last year (262142), a state no precondition can
/// name.
#[verifier::external_body]
pub(crate) fn utc_now() -> (r: UtcDateTime)
    ensures
        valid_utc(r),
{
    let u = chrono::DateTime::<chrono::Utc>::from(std::time::SystemTime::now()).naive_utc();
    UtcDateTime { year: u.year(), month: u.month(), day: u.day(), hour: u.hour(), minute: u.minute(), second: u.second() }
}

/// The UTC instant of a US/Eastern wall-clock reading, when there is exactly one.
pub fn from_eastern_local(local: &LocalDateTime) -> (r: Option<UtcDateTime>)
    ensures
        r == eastern_local_to_utc(*local),
        r matches Some(t) ==> valid_utc(t),
{
    eastern_to_utc(local)
}

fn push_year(s: &mut String, y: i32)
    ensures
        final(s)@ == old(s)@ + year_text(y as int),
{
    if 0 <= y && y < 10000 {
        push_padded(s, y as u64, 4);
    } else if y < 0 {
        let ghost s0 = s@;
        push_char(s, '-');
        push_padded(s, (-(y as i64)) as u64, 4);
        assert(s@ =~= s0 + year_text(y as int));
    } else {
        let ghost s0 = s@;
        push_char(s, '+');
        push_padded(s, y as u64, 4);
        assert(s@ =~= s0 + year_text(y as int));
    }
}

/// Appends the iCalendar UTC form of `t`.
pub fn push_ical_utc(s: &mut String, t: &UtcDateTime)
    ensures
        final(s)@ == old(s)@ + ical_utc_text(*t),
{
    let ghost s0 = s@;
    push_year(s, t.year);
    push_padded(s, t.month as u64, 2);
    push_padded(s, t.day as u64, 2);
    push_char(s, 'T');
    push_padded(s, t.hour as u64, 2);
    push_padded(s, t.minute as u64, 2);
    push_padded(s, t.second as u64, 2);
    push_char(s, 'Z');
    assert(s@ =~= s0 + ical_utc_text(*t));
}

/// The iCalendar UTC form `YYYYMMDDTHHMMSSZ` of an instant.
pub fn utc_dt_to_ical(t: &UtcDateTime) -> (s: String)
    ensures
        s@ == ical_utc_text(*t),
{
    let mut s = String::new();
    push_ical_utc(&mut s, t);
    s
}

/// The day after `d`, or `None` when `d` is the last day of the calendar.
pub fn next_day(d: &Date) -> (r: Option<Date>)
    requires
        valid_date(*d),
    ensures
        r == if is_last_date(*d) { None } else { Some(following_day(*d)) },
        r matches Some(n) ==> valid_date(n),
{
    let dim: u32 = if d.month == 2 {
        if d.year % 4 == 0 && (d.year % 100 != 0 || d.year % 400 == 0) { 29 } else { 28 }
    } else if d.month == 4 || d.month == 6 || d.month == 9 || d.month == 11 {
        30
    } else {
        31
    };
    assert(dim == days_in_month(d.year as int, d.month as int));
    if d.day < dim {
        Some(Date { year: d.year, month: d.month, day: d.day + 1 })
    } else if d.month < 12 {
        Some(Date { year: d.year, month: d.month + 1, day: 1 })
    } else if d.year == MAX_YEAR {
        None
    } else {
        Some(Date { year: d.year + 1, month: 1, day: 1 })
    }
}

/// Seconds since the Unix epoch of a UTC instant.
pub fn unix_timestamp(t: &UtcDateTime) -> (r: i64)
    requires
        valid_utc(*t),
    ensures
        r == unix_seconds(*t),
{
    let m = t.month as i64;
    let y: i64 = if m <= 2 { t.year as i64 - 1 } else { t.year as i64 };
    let era: i64 = (y + 400000) / 400 - 1000;
    assert(era == (if m <= 2 { t.year - 1 } else { t.year as int }) / 400) by (nonlinear_arith)
        requires
            y == (if m <= 2 { t.year - 1 } else { t.year as int }),
            era == (y + 400000) / 400 - 1000,
            y + 400000 >= 0,
    ;
    let yoe: i64 = y - era * 400;
    assert(0 <= yoe < 400) by (nonlinear_arith)
        requires
            yoe == y - era * 400,
            era == y / 400,
    ;
    let mp: i64 = if m > 2 { m - 3 } else { m + 9 };
    let doy: i64 = (153 * mp + 2) / 5 + t.day as i64 - 1;
    let doe: i64 = yoe * 365 + yoe / 4 - yoe / 100 + doy;
    let days: i64 = era * 146097 + doe - 719468;
    assert(-1000 <= era <= 1000) by (nonlinear_arith)
        requires
            era == y / 400,
            -262144 <= y <= 262142,
    ;
    days * 86400 + t.hour as i64 * 3600 + t.minute as i64 * 60 + t.second as i64
}

/// The day after `d` starts 86400 seconds after `d` starts: consecutive
/// UTC midnights are one day apart.
pub proof fn lemma_next_midnight_is_a_day_later(d: Date)
    requires
        valid_date(d),
        !is_last_date(d),
    ensures
        unix_seconds(utc_midnight(following_day(d))) == unix_seconds(utc_midnight(d)) + 86400,
{
    let n = following_day(d);
    let y = d.year as int;
    let m = d.month as int;
    let dd = d.day as int;
    assert(days_from_civil(n.year as int, n.month as int, n.day as int) == days_from_civil(y, m, dd) + 1) by {
        if dd < days_in_month(y, m) {
        } else if m == 2 {
            let yy = y - 1;
            let era = yy / 400;
            let k = yy - era * 400;
            assert(0 <= k < 400);
            if k < 399 {
                assert(y / 400 == era && y - era * 400 == k + 1);
                assert((y % 4 == 0) == ((k + 1) % 4 == 0));
                assert((y % 100 == 0) == ((k + 1) % 100 == 0));
                assert(y % 400 != 0);
            } else {
                assert(y / 400 == era + 1 && y - (era + 1) * 400 == 0);
                assert(y % 400 == 0 && y % 4 == 0);
            }
        } else if m < 12 {
        } else {
        }
    }
}

} // verus!
