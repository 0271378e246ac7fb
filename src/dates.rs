//! UTC calendar dates and ISO 8601 timestamps from Unix time.

use vstd::prelude::*;
use crate::numfmt::{push_padded, zero_padded};
use crate::text::string_of;

verus! {

/// Leap years of the Gregorian calendar.
pub open spec fn is_leap(y: int) -> bool {
    (y % 4 == 0 && y % 100 != 0) || y % 400 == 0
}

/// Days in year `y`.
pub open spec fn year_days(y: int) -> int {
    if is_leap(y) {
        366
    } else {
        365
    }
}

/// Days in month `m` (1 to 12) of year `y`.
pub open spec fn month_days(y: int, m: int) -> int {
    if m == 2 {
        if is_leap(y) {
            29
        } else {
            28
        }
    } else if m == 4 || m == 6 || m == 9 || m == 11 {
        30
    } else {
        31
    }
}

/// Days from 1970-01-01 to the first day of year `y` (from 1970 on).
pub open spec fn days_before_year(y: int) -> int
    decreases y - 1970,
{
    if y <= 1970 {
        0
    } else {
        days_before_year(y - 1) + year_days(y - 1)
    }
}

/// Days from the first of year `y` to the first of month `m`.
pub open spec fn days_before_month(y: int, m: int) -> int
    decreases m,
{
    if m <= 1 {
        0
    } else {
        days_before_month(y, m - 1) + month_days(y, m - 1)
    }
}

/// `(year, month, day, hour, minute, second)` is the UTC time `secs`
/// seconds after the Unix epoch.
pub open spec fn is_time_of(secs: int, c: (u64, u64, u64, u64, u64, u64)) -> bool {
    let (y, mo, d, h, mi, s) = c;
    &&& y >= 1970
    &&& 1 <= mo <= 12
    &&& 1 <= d <= month_days(y as int, mo as int)
    &&& days_before_year(y as int) + days_before_month(y as int, mo as int) + d - 1 == secs / 86400
    &&& h == (secs % 86400) / 3600
    &&& mi == (secs % 3600) / 60
    &&& s == secs % 60
}

/// The calendar components of `secs` seconds after the Unix epoch.
pub fn components_of(secs: u64) -> (r: (u64, u64, u64, u64, u64, u64))
    ensures
        is_time_of(secs as int, r),
{
    let days = secs / 86400;
    let mut rem: u64 = days;
    let mut year: u64 = 1970;
    loop
        invariant
            1970 <= year <= 1970 + days - rem,
            rem <= days,
            days == secs / 86400,
            days_before_year(year as int) + rem == days,
        ensures
            rem < year_days(year as int),
        decreases rem,
    {
        let len: u64 = if (year % 4 == 0 && year % 100 != 0) || year % 400 == 0 { 366 } else { 365 };
        if rem < len {
            break;
        }
        rem = rem - len;
        year = year + 1;
    }
    let leap = (year % 4 == 0 && year % 100 != 0) || year % 400 == 0;
    let mut month: u64 = 1;
    loop
        invariant
            1 <= month <= 12,
            leap == is_leap(year as int),
            days_before_year(year as int) + days_before_month(year as int, month as int) + rem == days,
            rem < year_days(year as int) - days_before_month(year as int, month as int),
        ensures
            rem < month_days(year as int, month as int),
        decreases 12 - month,
    {
        let len: u64 = if month == 2 {
            if leap { 29 } else { 28 }
        } else if month == 4 || month == 6 || month == 9 || month == 11 {
            30
        } else {
            31
        };
        if rem < len {
            break;
        }
        if month == 12 {
            proof {
                assert(days_before_month(year as int, 12) == year_days(year as int) - 31) by {
                    reveal_with_fuel(days_before_month, 12);
                }
            }
            break;
        }
        rem = rem - len;
        month = month + 1;
    }
    let day = rem + 1;
    let day_secs = secs % 86400;
    let hour = day_secs / 3600;
    let min = (day_secs % 3600) / 60;
    let sec = day_secs % 60;
    proof {
        assert((secs as int % 86400) % 3600 == secs as int % 3600) by (nonlinear_arith);
        assert((secs as int % 86400) % 60 == secs as int % 60) by (nonlinear_arith);
    }
    (year, month, day, hour, min, sec)
}

/// Relies on `SystemTime::now`: the seconds elapsed since the Unix epoch
/// (zero for a clock set before it).
#[verifier::external_body]
fn unix_now() -> (r: u64) {
    match std::time::SystemTime::now().duration_since(std::time::UNIX_EPOCH) {
        Ok(d) => d.as_secs(),
        Err(_) => 0,
    }
}

/// The calendar components of the current UTC time.
pub fn now_components() -> (r: (u64, u64, u64, u64, u64, u64))
    ensures
        exists|secs: int| 0 <= secs <= u64::MAX && is_time_of(secs, r),
{
    let secs = unix_now();
    components_of(secs)
}

/// `YYYY-MM-DD` for the date of `c`.
pub open spec fn iso_date(c: (u64, u64, u64, u64, u64, u64)) -> Seq<char> {
    zero_padded(c.0 as nat, 4) + "-"@ + zero_padded(c.1 as nat, 2) + "-"@ + zero_padded(c.2 as nat, 2)
}

/// `YYYY-MM-DDThh:mm:ssZ` for `c`.
pub open spec fn iso_timestamp(c: (u64, u64, u64, u64, u64, u64)) -> Seq<char> {
    iso_date(c) + "T"@ + zero_padded(c.3 as nat, 2) + ":"@ + zero_padded(c.4 as nat, 2) + ":"@
        + zero_padded(c.5 as nat, 2) + "Z"@
}

/// The date of `c` as `YYYY-MM-DD`.
pub fn date_string(c: (u64, u64, u64, u64, u64, u64)) -> (r: String)
    ensures
        r@ == iso_date(c),
{
    proof {
        reveal_strlit("-");
    }
    let mut out: Vec<char> = Vec::new();
    push_padded(&mut out, c.0, 4);
    out.push('-');
    push_padded(&mut out, c.1, 2);
    out.push('-');
    push_padded(&mut out, c.2, 2);
    proof {
        assert(out@ =~= iso_date(c));
    }
    string_of(&out)
}

/// `c` as `YYYY-MM-DDThh:mm:ssZ`.
pub fn timestamp_string(c: (u64, u64, u64, u64, u64, u64)) -> (r: String)
    ensures
        r@ == iso_timestamp(c),
{
    proof {
        reveal_strlit("-");
        reveal_strlit("T");
        reveal_strlit(":");
        reveal_strlit("Z");
    }
    let mut out: Vec<char> = Vec::new();
    push_padded(&mut out, c.0, 4);
    out.push('-');
    push_padded(&mut out, c.1, 2);
    out.push('-');
    push_padded(&mut out, c.2, 2);
    out.push('T');
    push_padded(&mut out, c.3, 2);
    out.push(':');
    push_padded(&mut out, c.4, 2);
    out.push(':');
    push_padded(&mut out, c.5, 2);
    out.push('Z');
    proof {
        assert(out@ =~= iso_timestamp(c));
    }
    string_of(&out)
}

/// The current UTC time as `YYYY-MM-DDThh:mm:ssZ`.
pub fn format_iso8601() -> (r: String)
    ensures
        exists|c: (u64, u64, u64, u64, u64, u64)|
            (exists|secs: int| 0 <= secs <= u64::MAX && is_time_of(secs, c)) && r@ == iso_timestamp(c),
{
    let c = now_components();
    timestamp_string(c)
}

/// The current UTC date as `YYYY-MM-DD`.
pub fn format_iso8601_date() -> (r: String)
    ensures
        exists|c: (u64, u64, u64, u64, u64, u64)|
            (exists|secs: int| 0 <= secs <= u64::MAX && is_time_of(secs, c)) && r@ == iso_date(c),
{
    let c = now_components();
    date_string(c)
}

} // verus!
