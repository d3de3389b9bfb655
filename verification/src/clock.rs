//! Calendar dates and clock readings, as text and as numbers.
use vstd::prelude::*;
use crate::text::{padded, push_padded, text_of};

verus! {

/// The name of what `chrono::NaiveDateTime::parse_from_str` reads from a text by a format: the
/// seconds since 1970 and the nanoseconds within the second, or nothing where it refuses the text.
pub uninterp spec fn moment_in(text: Seq<char>, format: Seq<char>) -> Option<(i64, u32)>;

/// Calls `chrono::NaiveDateTime::parse_from_str`. The result is a function of the text and the
/// format alone; it is handed on as seconds since 1970 and nanoseconds, which order moments as
/// chrono does.
#[verifier::external_body]
pub(crate) fn parse_moment(text: &str, format: &str) -> (r: Option<(i64, u32)>)
    ensures
        r == moment_in(text@, format@),
{
    chrono::NaiveDateTime::parse_from_str(text, format).ok().map(
        |t| (t.and_utc().timestamp(), t.and_utc().timestamp_subsec_nanos()),
    )
}

/// Is the first moment later than the second?
pub open spec fn later(a: (i64, u32), b: (i64, u32)) -> bool {
    a.0 > b.0 || (a.0 == b.0 && a.1 > b.1)
}

/// How a date is written in a header of HTTP.
pub const HTTP_DATE_FORMAT: &'static str = "%a, %d %b %Y %H:%M:%S GMT";

/// How the database writes a moment.
pub const EXPIRY_FORMAT: &'static str = "%Y-%m-%d %H:%M:%S";

/// The last second of the year 9999.
pub const LAST_COMMON_SECOND: i64 = 253402300799;

/// The start of 1970 in a header of HTTP.
pub const HTTP_EPOCH: &'static str = "Thu, 01 Jan 1970 00:00:00 GMT";

/// The name of what `chrono::DateTime::format` writes for a moment, given in seconds since 1970, in
/// universal time; nothing where `chrono::DateTime::from_timestamp` has no such moment.
pub uninterp spec fn moment_text(seconds: i64, format: Seq<char>) -> Option<Seq<char>>;

/// Calls `chrono::DateTime::from_timestamp` and writes the moment with `chrono::DateTime::format`.
/// The result is a function of the seconds and the format alone. The format is one that chrono can
/// write. From the start of 1970 to the end of the year 9999 there is a text, and in the format of
/// the database `chrono::NaiveDateTime::parse_from_str` reads the moment back from it.
#[verifier::external_body]
pub(crate) fn format_moment(seconds: i64, format: &str) -> (r: Option<String>)
    requires
        format@ == HTTP_DATE_FORMAT@ || format@ == EXPIRY_FORMAT@,
    ensures
        text_of(r) == moment_text(seconds, format@),
        0 <= seconds <= LAST_COMMON_SECOND ==> r is Some,
        0 <= seconds <= LAST_COMMON_SECOND && format@ == EXPIRY_FORMAT@ ==> moment_in(
            r->0@,
            EXPIRY_FORMAT@,
        ) == Some((seconds, 0u32)),
{
    chrono::DateTime::from_timestamp(seconds, 0).map(|t| t.format(format).to_string())
}

/// A count of seconds read as a signed number of 64 bits.
pub open spec fn as_signed(n: u64) -> i64 {
    if n <= i64::MAX {
        n as i64
    } else {
        (n - 0x1_0000_0000_0000_0000) as i64
    }
}

/// The date of a moment in a header of HTTP; the start of 1970 where the moment is unknown or
/// cannot be written.
pub fn http_date(timestamp: u64) -> (r: String)
    ensures
        r@ == if timestamp == 0 {
            HTTP_EPOCH@
        } else {
            match moment_text(as_signed(timestamp), HTTP_DATE_FORMAT@) {
                Some(t) => t,
                None => HTTP_EPOCH@,
            }
        },
        0 < timestamp <= LAST_COMMON_SECOND ==> moment_text(timestamp as i64, HTTP_DATE_FORMAT@)
            == Some(r@),
{
    if timestamp == 0 {
        return HTTP_EPOCH.to_owned();
    }
    let seconds: i64 = if timestamp <= 0x7FFF_FFFF_FFFF_FFFF {
        timestamp as i64
    } else {
        (timestamp as i128 - 0x1_0000_0000_0000_0000) as i64
    };
    date_or_epoch(format_moment(seconds, HTTP_DATE_FORMAT))
}

/// A date, or the start of 1970 where there is none.
pub fn date_or_epoch(text: Option<String>) -> (r: String)
    ensures
        r@ == match text_of(text) {
            Some(t) => t,
            None => HTTP_EPOCH@,
        },
{
    match text {
        Some(t) => t,
        None => HTTP_EPOCH.to_owned(),
    }
}

/// Intervals of 100 nanoseconds from the start of 1601 to that of 1970.
pub const FILETIME_EPOCH: u64 = 116444736000000000;

/// The last second of which Windows can write the time in 64 bits.
pub const MAX_FILETIME_SECS: u64 = 1833029933770;

/// A moment as Windows counts it, given in seconds since 1970.
pub open spec fn filetime(secs: int) -> int {
    secs * 10000000 + FILETIME_EPOCH
}

/// A moment as Windows counts it, given in seconds since 1970.
pub fn unix_to_filetime(secs: u64) -> (r: u64)
    requires
        secs <= MAX_FILETIME_SECS,
    ensures
        r == filetime(secs as int),
{
    secs * 10_000_000 + FILETIME_EPOCH
}

/// The count of Windows grows with the seconds, and by ten million for each.
pub proof fn law_filetime_is_monotone(a: int, b: int)
    ensures
        filetime(b) - filetime(a) == (b - a) * 10000000,
        a < b ==> filetime(a) < filetime(b),
        filetime(0) == 116444736000000000,
{
}

/// Is it a leap year?
pub open spec fn is_leap(y: int) -> bool {
    y % 4 == 0 && (y % 100 != 0 || y % 400 == 0)
}

/// The number of days in a month.
pub open spec fn days_in_month(y: int, m: int) -> int {
    if m == 2 {
        if is_leap(y) {
            29
        } else {
            28
        }
    } else if m == 4 || m == 6 || m == 9 || m == 11 {
        30
    } else {
        31
    }
}

/// The number of days in a year before a month.
pub open spec fn days_before_month(y: int, m: int) -> int
    decreases m,
{
    if m <= 1 {
        0
    } else {
        days_before_month(y, m - 1) + days_in_month(y, m - 1)
    }
}

/// The number of leap years from the year 0 up to a year.
pub open spec fn leap_years_before(y: int) -> int {
    (y + 3) / 4 - (y + 99) / 100 + (y + 399) / 400
}

/// The number of days from the start of 1970 to a date of the Gregorian calendar.
pub open spec fn day_number(y: int, m: int, d: int) -> int {
    365 * y + leap_years_before(y) + days_before_month(y, m) + (d - 1) - 719528
}

/// Is there such a date?
pub open spec fn is_date(y: int, m: int, d: int) -> bool {
    0 <= y && 1 <= m <= 12 && 1 <= d <= days_in_month(y, m)
}

/// A date and a time of the day as text.
pub open spec fn moment_line(y: int, m: int, d: int, secs_of_day: int) -> Seq<char> {
    padded(y as nat, 4) + "-"@ + padded(m as nat, 2) + "-"@ + padded(d as nat, 2) + " "@ + padded(
        (secs_of_day / 3600) as nat,
        2,
    ) + ":"@ + padded((secs_of_day % 3600 / 60) as nat, 2) + ":"@ + padded(
        (secs_of_day % 60) as nat,
        2,
    )
}

/// The number of leap years grows by one behind each leap year.
pub proof fn law_leap_years(y: int)
    requires
        0 <= y,
    ensures
        leap_years_before(y + 1) == leap_years_before(y) + if is_leap(y) {
            1int
        } else {
            0
        },
{
    let a = y % 4;
    let b = y % 100;
    let c = y % 400;
    assert((y + 4) / 4 == y / 4 + 1);
    assert((y + 100) / 100 == y / 100 + 1);
    assert((y + 400) / 400 == y / 400 + 1);
    assert((y + 3) / 4 == y / 4 + if a == 0 {
        0int
    } else {
        1
    });
    assert((y + 99) / 100 == y / 100 + if b == 0 {
        0int
    } else {
        1
    });
    assert((y + 399) / 400 == y / 400 + if c == 0 {
        0int
    } else {
        1
    });
    assert(b == 0 ==> a == 0);
    assert(c == 0 ==> b == 0);
}

proof fn lemma_months(y: int)
    ensures
        days_before_month(y, 1) == 0,
        days_before_month(y, 2) == 31,
        days_before_month(y, 3) == 31 + days_in_month(y, 2),
        days_before_month(y, 4) == 62 + days_in_month(y, 2),
        days_before_month(y, 5) == 92 + days_in_month(y, 2),
        days_before_month(y, 6) == 123 + days_in_month(y, 2),
        days_before_month(y, 7) == 153 + days_in_month(y, 2),
        days_before_month(y, 8) == 184 + days_in_month(y, 2),
        days_before_month(y, 9) == 215 + days_in_month(y, 2),
        days_before_month(y, 10) == 245 + days_in_month(y, 2),
        days_before_month(y, 11) == 276 + days_in_month(y, 2),
        days_before_month(y, 12) == 306 + days_in_month(y, 2),
        days_before_month(y, 13) == 337 + days_in_month(y, 2),
{
    reveal_with_fuel(days_before_month, 14);
}

/// The days from the first of March of the year 0 to that of another year.
pub open spec fn march_days(y: int) -> int {
    365 * y + y / 4 - y / 100 + y / 400
}

/// The year of four hundred years that a day lies in, counted from March.
#[verifier::spinoff_prover]
#[verifier::rlimit(60)]
proof fn lemma_year_of_era(doe: int, yoe: int)
    requires
        0 <= doe < 146097,
        yoe == (doe - doe / 1460 + doe / 36524 - doe / 146096) / 365,
    ensures
        0 <= yoe < 400,
        365 * yoe + yoe / 4 - yoe / 100 <= doe,
        doe <= 365 * yoe + yoe / 4 - yoe / 100 + 365,
        doe == 365 * yoe + yoe / 4 - yoe / 100 + 365 ==> is_leap(yoe + 1),
{
}

/// The days from March to March of four hundred years, and of the years among them.
proof fn lemma_march_days(era: int, yoe: int)
    requires
        0 <= era,
        0 <= yoe < 400,
    ensures
        march_days(yoe + era * 400) == era * 146097 + 365 * yoe + yoe / 4 - yoe / 100,
        is_leap(yoe + era * 400) == is_leap(yoe),
        is_leap(yoe + 1 + era * 400) == is_leap(yoe + 1),
{
    let y = yoe + era * 400;
    assert(y / 400 == era);
    assert(y / 100 == yoe / 100 + era * 4);
    assert(y / 4 == yoe / 4 + era * 100);
    assert(y % 4 == yoe % 4);
    assert(y % 100 == yoe % 100);
    assert(y % 400 == yoe % 400);
    assert((y + 1) % 4 == (yoe + 1) % 4);
    assert((y + 1) % 100 == (yoe + 1) % 100);
    assert((y + 1) % 400 == (yoe + 1) % 400);
}

/// The first of March of a year, counted from that of the year 0.
proof fn lemma_first_of_march(y: int)
    requires
        0 <= y,
    ensures
        day_number(y, 3, 1) + 719468 == march_days(y),
        day_number(y + 1, 1, 1) + 719468 == march_days(y) + 306,
{
    lemma_months(y);
    law_leap_years(y);
    assert((y + 4) / 4 == y / 4 + 1);
    assert((y + 100) / 100 == y / 100 + 1);
    assert((y + 400) / 400 == y / 400 + 1);
    lemma_months(y + 1);
}

/// The month and the day of a day counted from the first of March.
proof fn lemma_month_and_day(y: int, doy: int, mp: int)
    requires
        0 <= y,
        0 <= doy <= 365,
        doy == 365 ==> is_leap(y + 1),
        mp == (5 * doy + 2) / 153,
    ensures
        0 <= mp <= 11,
        ({
            let d = doy - (153 * mp + 2) / 5 + 1;
            let m = if mp < 10 {
                mp + 3
            } else {
                mp - 9
            };
            let year = if m <= 2 {
                y + 1
            } else {
                y
            };
            is_date(year, m, d) && day_number(year, m, d) + 719468 == march_days(y) + doy
        }),
{
    lemma_months(y);
    lemma_months(y + 1);
    lemma_first_of_march(y);
    assert(0 <= mp <= 11);
    assert(mp == 0 || mp == 1 || mp == 2 || mp == 3 || mp == 4 || mp == 5 || mp == 6 || mp == 7 || mp
        == 8 || mp == 9 || mp == 10 || mp == 11);
}

/// A moment, given in seconds since 1970, as date and time in universal time.
pub fn format_unix_utc(secs: u64) -> (r: String)
    ensures
        exists|y: int, m: int, d: int|
            is_date(y, m, d) && #[trigger] day_number(y, m, d) == secs as int / 86400 && r@
                == moment_line(y, m, d, secs as int % 86400),
{
    let days: u64 = secs / 86400;
    let rem: u64 = secs % 86400;
    let z: u64 = days + 719468;
    let era: u64 = z / 146097;
    let doe: u64 = z % 146097;
    proof {
        assert(z == era * 146097 + doe);
        assert(doe / 1460 <= 100 && doe / 36524 <= 4 && doe / 146096 <= 1 && doe / 1460 <= doe);
        assert(doe >= 146096 ==> doe / 36524 >= 1);
        lemma_year_of_era(
            doe as int,
            (doe as int - doe as int / 1460 + doe as int / 36524 - doe as int / 146096) / 365,
        );
    }
    let yoe: u64 = (doe - doe / 1460 + doe / 36524 - doe / 146096) / 365;
    let doy: u64 = doe - (365 * yoe + yoe / 4 - yoe / 100);
    let mp: u64 = (5 * doy + 2) / 153;
    proof {
        lemma_march_days(era as int, yoe as int);
        lemma_month_and_day(yoe + era * 400, doy as int, mp as int);
    }
    let d: u64 = doy - (153 * mp + 2) / 5 + 1;
    let m: u64 = if mp < 10 { mp + 3 } else { mp - 9 };
    let y: u64 = yoe + era * 400 + if m <= 2 { 1 } else { 0 };
    proof {
        assert(is_date(y as int, m as int, d as int));
        assert(day_number(y as int, m as int, d as int) == secs as int / 86400);
    }
    let mut out: String = String::new();
    push_padded(&mut out, y, 4);
    out.append("-");
    push_padded(&mut out, m, 2);
    out.append("-");
    push_padded(&mut out, d, 2);
    out.append(" ");
    push_padded(&mut out, rem / 3600, 2);
    out.append(":");
    push_padded(&mut out, rem % 3600 / 60, 2);
    out.append(":");
    push_padded(&mut out, rem % 60, 2);
    proof {
        assert(out@ =~= moment_line(y as int, m as int, d as int, secs as int % 86400));
    }
    out
}

proof fn lemma_month_monotone(y: int, m: int, n: int)
    requires
        1 <= m < n <= 13,
    ensures
        days_before_month(y, m) + days_in_month(y, m) <= days_before_month(y, n),
    decreases n - m,
{
    if n > m + 1 {
        lemma_month_monotone(y, m, n - 1);
    }
}

proof fn lemma_year_monotone(y: int, z: int)
    requires
        0 <= y < z,
    ensures
        365 * y + leap_years_before(y) + 365 + (if is_leap(y) {
            1int
        } else {
            0
        }) <= 365 * z + leap_years_before(z),
    decreases z - y,
{
    law_leap_years(z - 1);
    law_leap_years(y);
    if z > y + 1 {
        lemma_year_monotone(y, z - 1);
    }
}

/// A later date has a larger number.
pub proof fn law_later_dates_have_larger_numbers(y: int, m: int, d: int, y2: int, m2: int, d2: int)
    requires
        is_date(y, m, d),
        is_date(y2, m2, d2),
        y < y2 || (y == y2 && (m < m2 || (m == m2 && d < d2))),
    ensures
        day_number(y, m, d) < day_number(y2, m2, d2),
{
    lemma_months(y);
    lemma_months(y2);
    if y < y2 {
        lemma_year_monotone(y, y2);
        lemma_month_monotone(y, m, 13);
        if m2 > 1 {
            lemma_month_monotone(y2, 1, m2);
        }
    } else if m < m2 {
        lemma_month_monotone(y, m, m2);
    }
}

/// Windows counts ten million ticks in a second, from the start of the year 1601 on, which is
/// 11644473600 seconds before 1970.
pub proof fn law_windows_time(secs: int, more: int)
    ensures
        filetime(secs + more) - filetime(secs) == more * 10000000,
        filetime(-11644473600) == 0,
{
}

/// Of two moments the one with more seconds is later; within a second, the one with more
/// nanoseconds. No moment is later than itself.
pub proof fn law_later(a: (i64, u32), b: (i64, u32))
    ensures
        a.0 > b.0 ==> later(a, b) && !later(b, a),
        a.0 == b.0 && a.1 > b.1 ==> later(a, b) && !later(b, a),
        !later(a, a),
        a != b ==> later(a, b) || later(b, a),
{
}

/// Seconds that fit are not changed by reading them as a signed number.
pub proof fn law_signed_seconds(n: u64)
    requires
        n <= i64::MAX,
    ensures
        as_signed(n) == n,
{
}

/// The days are numbered one after the other from the start of 1970 on: the day after another has the
/// next number, also over the ends of months and years.
pub proof fn law_days_are_numbered(y: int, m: int, d: int)
    requires
        is_date(y, m, d),
    ensures
        day_number(1970, 1, 1) == 0,
        day_number(y, m, d + 1) == day_number(y, m, d) + 1,
        m < 12 && d == days_in_month(y, m) ==> day_number(y, m + 1, 1) == day_number(y, m, d) + 1,
        m == 12 && d == 31 ==> day_number(y + 1, 1, 1) == day_number(y, m, d) + 1,
{
    reveal_with_fuel(days_before_month, 13);
    if m == 12 {
        assert(days_before_month(y, 12) == if is_leap(y) {
            335int
        } else {
            334
        });
        assert(leap_years_before(y + 1) - leap_years_before(y) == if is_leap(y) {
            1int
        } else {
            0
        }) by {
            law_leap_years(y);
        }
    }
}

/// A moment is written with its date, and with the hours, the minutes and the seconds of the day.
pub proof fn law_moments_are_written(y: int, m: int, d: int, h: int, min: int, s: int)
    requires
        0 <= h < 24,
        0 <= min < 60,
        0 <= s < 60,
    ensures
        moment_line(y, m, d, h * 3600 + min * 60 + s) == padded(y as nat, 4) + "-"@ + padded(
            m as nat,
            2,
        ) + "-"@ + padded(d as nat, 2) + " "@ + padded(h as nat, 2) + ":"@ + padded(min as nat, 2)
            + ":"@ + padded(s as nat, 2),
{
    let t = h * 3600 + min * 60 + s;
    assert(t / 3600 == h && t % 3600 / 60 == min && t % 60 == s) by (nonlinear_arith)
        requires
            0 <= h < 24,
            0 <= min < 60,
            0 <= s < 60,
            t == h * 3600 + min * 60 + s,
    ;
}

} // verus!
