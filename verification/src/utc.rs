//! Calendar time in UTC and its textual forms.
use vstd::prelude::*;
use crate::text;

verus! {

/// A point in time, broken down in UTC.
#[derive(Debug, Clone, Copy, PartialEq, Eq, Structural)]
pub struct UtcTime {
    pub year: i32,
    /// 1 to 12.
    pub month: u8,
    /// 1 to 31.
    pub day: u8,
    pub hour: u8,
    pub minute: u8,
    pub second: u8,
    /// 0 is Monday.
    pub weekday: u8,
}

/// -9999-01-01T00:00:00Z in seconds since the Unix epoch.
pub const MIN_SECONDS: i64 = -377705116800;

/// 9999-12-31T23:59:59Z in seconds since the Unix epoch.
pub const MAX_SECONDS: i64 = 253402300799;

pub open spec fn is_leap(year: int) -> bool {
    year % 4 == 0 && (year % 100 != 0 || year % 400 == 0)
}

/// The leap days in the years up to and including `year`, counted from the
/// year 0 on.
pub open spec fn leap_days(year: int) -> int {
    year / 4 - year / 100 + year / 400
}

/// The days of a year before a month begins.
pub open spec fn days_before_month(year: int, month: int) -> int {
    let leap: int = if is_leap(year) {
        1
    } else {
        0
    };
    if month <= 1 {
        0
    } else if month == 2 {
        31
    } else if month == 3 {
        59 + leap
    } else if month == 4 {
        90 + leap
    } else if month == 5 {
        120 + leap
    } else if month == 6 {
        151 + leap
    } else if month == 7 {
        181 + leap
    } else if month == 8 {
        212 + leap
    } else if month == 9 {
        243 + leap
    } else if month == 10 {
        273 + leap
    } else if month == 11 {
        304 + leap
    } else if month == 12 {
        334 + leap
    } else {
        365 + leap
    }
}

/// The days from 1970-01-01 to a date of the proleptic Gregorian calendar.
pub open spec fn days_since_epoch(year: int, month: int, day: int) -> int {
    365 * (year - 1970) + leap_days(year - 1) - leap_days(1969) + days_before_month(year, month) + day - 1
}

/// Whether `t` is the UTC time `seconds` after the Unix epoch.
pub open spec fn denotes(t: UtcTime, seconds: int) -> bool {
    &&& 1 <= t.month <= 12
    &&& 1 <= t.day
    &&& t.day <= days_before_month(t.year as int, t.month + 1) - days_before_month(t.year as int, t.month as int)
    &&& days_since_epoch(t.year as int, t.month as int, t.day as int) == seconds / 86400
    &&& t.hour == (seconds % 86400) / 3600
    &&& t.minute == (seconds % 3600) / 60
    &&& t.second == seconds % 60
    &&& t.weekday == (seconds / 86400 + 3) % 7
}

/// The UTC time of a second.
pub open spec fn at(seconds: int) -> UtcTime {
    choose|t: UtcTime| denotes(t, seconds)
}

/// The seconds since the Unix epoch that a text denotes under a format
/// description, if it does.
pub uninterp spec fn parsed_seconds(value: Seq<char>, format: Seq<char>) -> Option<i64>;

/// `time::PrimitiveDateTime::parse` with a format description in the first
/// version of its syntax, taken as UTC: the seconds since the Unix epoch, or
/// nothing if the text does not have the format or denotes no time. Only that
/// the result depends on the two texts is claimed.
#[verifier::external_body]
pub(crate) fn parse_seconds(value: &str, format: &str) -> (r: Option<i64>)
    ensures
        r == parsed_seconds(value@, format@),
{
    let description = time::format_description::parse_borrowed::<1>(format).ok()?;
    let moment = time::PrimitiveDateTime::parse(value, &description).ok()?;
    Some(moment.assume_utc().unix_timestamp())
}


/// `time::OffsetDateTime::from_unix_timestamp` and the getters of what it
/// returns: the UTC calendar date and time of day of every second of the
/// years -9999 to 9999, and nothing outside of them.
#[verifier::external_body]
pub(crate) fn utc(seconds: i64) -> (r: Option<UtcTime>)
    ensures
        r is Some <==> MIN_SECONDS <= seconds <= MAX_SECONDS,
        r is Some ==> denotes(r->0, seconds as int),
{
    let t = time::OffsetDateTime::from_unix_timestamp(seconds).ok()?;
    Some(UtcTime {
        year: t.year(),
        month: t.month() as u8,
        day: t.day(),
        hour: t.hour(),
        minute: t.minute(),
        second: t.second(),
        weekday: t.weekday().number_days_from_monday(),
    })
}

/// A second of the years -9999 to 9999 has exactly one UTC time.
pub proof fn utc_time_is_unique(a: UtcTime, b: UtcTime, seconds: int)
    requires
        denotes(a, seconds),
        denotes(b, seconds),
    ensures
        a == b,
{
    lemma_year_is_unique(a, b, seconds);
    lemma_year_is_unique(b, a, seconds);
    lemma_month_is_unique(a.year as int, a.month as int, a.day as int, b.month as int, b.day as int);
}

proof fn lemma_leap_step(z: int)
    ensures
        leap_days(z) == leap_days(z - 1) + (if is_leap(z) {
            1int
        } else {
            0int
        }),
{
}

proof fn lemma_leap_monotone(z: int, w: int)
    requires
        z <= w,
    ensures
        leap_days(z) <= leap_days(w),
    decreases w - z,
{
    if z < w {
        lemma_leap_monotone(z, w - 1);
        lemma_leap_step(w);
    }
}

/// A day of a year lies within the length of that year.
proof fn lemma_day_in_year(year: int, month: int, day: int)
    requires
        1 <= month <= 12,
        1 <= day <= days_before_month(year, month + 1) - days_before_month(year, month),
    ensures
        0 <= days_before_month(year, month) + day - 1 < (if is_leap(year) {
            366int
        } else {
            365int
        }),
{
}

proof fn lemma_year_is_unique(a: UtcTime, b: UtcTime, seconds: int)
    requires
        denotes(a, seconds),
        denotes(b, seconds),
    ensures
        a.year <= b.year,
{
    let y = a.year as int;
    let z = b.year as int;
    if z < y {
        lemma_day_in_year(y, a.month as int, a.day as int);
        lemma_day_in_year(z, b.month as int, b.day as int);
        lemma_leap_step(z);
        lemma_leap_monotone(z, y - 1);
    }
}

proof fn lemma_month_is_unique(year: int, m: int, d: int, n: int, e: int)
    requires
        1 <= m <= 12,
        1 <= n <= 12,
        1 <= d <= days_before_month(year, m + 1) - days_before_month(year, m),
        1 <= e <= days_before_month(year, n + 1) - days_before_month(year, n),
        days_before_month(year, m) + d == days_before_month(year, n) + e,
    ensures
        m == n,
        d == e,
{
}

pub open spec fn day_name(weekday: u8) -> Seq<char> {
    if weekday == 0 {
        "Mon"@
    } else if weekday == 1 {
        "Tue"@
    } else if weekday == 2 {
        "Wed"@
    } else if weekday == 3 {
        "Thu"@
    } else if weekday == 4 {
        "Fri"@
    } else if weekday == 5 {
        "Sat"@
    } else {
        "Sun"@
    }
}

pub open spec fn month_name(month: u8) -> Seq<char> {
    if month == 1 {
        "Jan"@
    } else if month == 2 {
        "Feb"@
    } else if month == 3 {
        "Mar"@
    } else if month == 4 {
        "Apr"@
    } else if month == 5 {
        "May"@
    } else if month == 6 {
        "Jun"@
    } else if month == 7 {
        "Jul"@
    } else if month == 8 {
        "Aug"@
    } else if month == 9 {
        "Sep"@
    } else if month == 10 {
        "Oct"@
    } else if month == 11 {
        "Nov"@
    } else {
        "Dec"@
    }
}

fn day_abbreviation(weekday: u8) -> (r: &'static str)
    ensures
        r@ == day_name(weekday),
{
    match weekday {
        0 => "Mon",
        1 => "Tue",
        2 => "Wed",
        3 => "Thu",
        4 => "Fri",
        5 => "Sat",
        _ => "Sun",
    }
}

fn month_abbreviation(month: u8) -> (r: &'static str)
    ensures
        r@ == month_name(month),
{
    match month {
        1 => "Jan",
        2 => "Feb",
        3 => "Mar",
        4 => "Apr",
        5 => "May",
        6 => "Jun",
        7 => "Jul",
        8 => "Aug",
        9 => "Sep",
        10 => "Oct",
        11 => "Nov",
        _ => "Dec",
    }
}

/// The HTTP date of a UTC time, as in `Sun, 06 Nov 1994 08:49:37 GMT`.
pub open spec fn http_date_text(t: UtcTime) -> Seq<char> {
    day_name(t.weekday) + ", "@ + text::padded(t.day as nat, 2) + " "@ + month_name(t.month) + " "@
        + text::signed_decimal(t.year as int) + " "@ + text::padded(t.hour as nat, 2) + ":"@ + text::padded(
        t.minute as nat,
        2,
    ) + ":"@ + text::padded(t.second as nat, 2) + " GMT"@
}

/// The HTTP date of a second; none outside of the years -9999 to 9999.
pub fn http_date(seconds: i64) -> (r: Option<String>)
    ensures
        r is Some <==> MIN_SECONDS <= seconds <= MAX_SECONDS,
        r is Some ==> r->0@ == http_date_text(at(seconds as int)),
{
    let t = match utc(seconds) {
        Some(t) => t,
        None => return None,
    };
    proof {
        utc_time_is_unique(t, at(seconds as int), seconds as int);
    }
    Some(format_http_date(&t))
}

pub fn format_http_date(t: &UtcTime) -> (r: String)
    ensures
        r@ == http_date_text(*t),
{
    let mut out = text::owned(day_abbreviation(t.weekday));
    out.push_str(", ");
    text::push_padded(&mut out, t.day as u64, 2);
    out.push_str(" ");
    out.push_str(month_abbreviation(t.month));
    out.push_str(" ");
    text::push_signed(&mut out, t.year);
    out.push_str(" ");
    text::push_padded(&mut out, t.hour as u64, 2);
    out.push_str(":");
    text::push_padded(&mut out, t.minute as u64, 2);
    out.push_str(":");
    text::push_padded(&mut out, t.second as u64, 2);
    out.push_str(" GMT");
    out
}

/// A date and time to the minute, as in `2026-07-23 12:00`.
pub open spec fn minute_text(t: UtcTime) -> Seq<char> {
    text::signed_padded(t.year as int, 4) + "-"@ + text::padded(t.month as nat, 2) + "-"@ + text::padded(
        t.day as nat,
        2,
    ) + " "@ + text::padded(t.hour as nat, 2) + ":"@ + text::padded(t.minute as nat, 2)
}

pub fn format_minute(t: &UtcTime) -> (r: String)
    ensures
        r@ == minute_text(*t),
{
    let mut out = String::new();
    text::push_signed_padded(&mut out, t.year, 4);
    assert(out@ =~= text::signed_padded(t.year as int, 4));
    out.push_str("-");
    text::push_padded(&mut out, t.month as u64, 2);
    out.push_str("-");
    text::push_padded(&mut out, t.day as u64, 2);
    out.push_str(" ");
    text::push_padded(&mut out, t.hour as u64, 2);
    out.push_str(":");
    text::push_padded(&mut out, t.minute as u64, 2);
    out
}

/// RFC 3339 with milliseconds, as in `2026-07-23T12:00:00.123Z`.
pub open spec fn rfc3339_text(t: UtcTime, millis: nat) -> Seq<char> {
    text::signed_padded(t.year as int, 4) + "-"@ + text::padded(t.month as nat, 2) + "-"@ + text::padded(
        t.day as nat,
        2,
    ) + "T"@ + text::padded(t.hour as nat, 2) + ":"@ + text::padded(t.minute as nat, 2) + ":"@ + text::padded(
        t.second as nat,
        2,
    ) + "."@ + text::padded(millis, 3) + "Z"@
}

pub fn format_rfc3339(t: &UtcTime, millis: u64) -> (r: String)
    ensures
        r@ == rfc3339_text(*t, millis as nat),
{
    let mut out = String::new();
    text::push_signed_padded(&mut out, t.year, 4);
    assert(out@ =~= text::signed_padded(t.year as int, 4));
    out.push_str("-");
    text::push_padded(&mut out, t.month as u64, 2);
    out.push_str("-");
    text::push_padded(&mut out, t.day as u64, 2);
    out.push_str("T");
    text::push_padded(&mut out, t.hour as u64, 2);
    out.push_str(":");
    text::push_padded(&mut out, t.minute as u64, 2);
    out.push_str(":");
    text::push_padded(&mut out, t.second as u64, 2);
    out.push_str(".");
    text::push_padded(&mut out, millis, 3);
    out.push_str("Z");
    out
}

/// The months have their days: thirty-one or thirty, and February twenty-eight,
/// with one more in a leap year. A year has 365 or 366 days.
pub proof fn the_months_have_their_days(y: int)
    ensures
        forall|m: int|
            1 <= m <= 12 ==> #[trigger] days_before_month(y, m + 1) - days_before_month(y, m) == if m == 2 {
                if y % 4 == 0 && (y % 100 != 0 || y % 400 == 0) {
                    29int
                } else {
                    28
                }
            } else if m == 4 || m == 6 || m == 9 || m == 11 {
                30
            } else {
                31
            },
        days_before_month(y, 1) == 0,
{
}

} // verus!
