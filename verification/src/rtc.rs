//! The hardware wakeup register's value and its conversions.
//!
//! The register stores calendar fields in a fixed layout, read as UTC. An
//! absolute instant is converted into those fields for staging, and a read
//! register is converted back into the instant it names; both directions are
//! exact, so a round trip through the register reconstructs the instant. A
//! local offset is applied only for display, by the surrounding process,
//! never here.

use vstd::prelude::*;

use crate::error::Error;

verus! {

/// Gregorian leap year.
pub open spec fn is_leap_year(y: int) -> bool {
    y % 4 == 0 && (y % 100 != 0 || y % 400 == 0)
}

pub open spec fn days_in_year(y: int) -> int {
    if is_leap_year(y) {
        366
    } else {
        365
    }
}

/// Days of month `m` (1 to 12) of year `y`.
pub open spec fn days_in_month(y: int, m: int) -> int {
    if m == 2 {
        if is_leap_year(y) {
            29
        } else {
            28
        }
    } else if m == 4 || m == 6 || m == 9 || m == 11 {
        30
    } else {
        31
    }
}

/// Days from the epoch to the first day of year `y`.
pub open spec fn days_before_year(y: int) -> int
    decreases y - 1970,
{
    if y <= 1970 {
        0
    } else {
        days_before_year(y - 1) + days_in_year(y - 1)
    }
}

/// Days from the first day of year `y` to the first day of its month `m`.
pub open spec fn days_before_month(y: int, m: int) -> int
    decreases m,
{
    if m <= 1 {
        0
    } else {
        days_before_month(y, m - 1) + days_in_month(y, m - 1)
    }
}

/// The instant named by the given UTC calendar fields, in seconds since the
/// epoch; month `mon` counts from 1 and day `d` from 1.
pub open spec fn civil_to_unix(y: int, mon: int, d: int, h: int, mi: int, s: int) -> int {
    (days_before_year(y) + days_before_month(y, mon) + (d - 1)) * 86400 + h * 3600 + mi * 60 + s
}

/// The last instant whose calendar fields the register interface accepts:
/// the final second of year 9999.
pub open spec fn rtc_unix_max() -> int {
    days_before_year(10000) * 86400 - 1
}

/// The register's wakeup time, in the hardware's field layout: seconds,
/// minutes and hours as on a clock face, day of month from 1, month from 0,
/// and years counted from 1900.
#[derive(Clone, Copy, Debug)]
pub struct RtcTime {
    pub tm_sec: i32,
    pub tm_min: i32,
    pub tm_hour: i32,
    pub tm_mday: i32,
    pub tm_mon: i32,
    pub tm_year: i32,
    /// Unused; written as zero and ignored on read.
    pub tm_wday: i32,
    /// Unused; written as zero and ignored on read.
    pub tm_yday: i32,
    /// Unused; written as zero and ignored on read.
    pub tm_isdst: i32,
}

/// The whole wakeup register: an enable flag, a pending-interrupt flag that
/// this system ignores, and the wakeup time.
#[derive(Clone, Copy, Debug)]
pub struct RtcWkalm {
    /// Whether the alarm interrupt is enabled.
    pub enabled: bool,
    /// Pending interrupt for reading; ignored.
    pub pending: bool,
    /// Wakeup time.
    pub time: RtcTime,
}

/// Calendar fields that lie in the representable bounds: years from the
/// epoch through 9999, and a real calendar date and clock time.
pub open spec fn rtc_time_valid(t: RtcTime) -> bool {
    &&& 1970 <= t.tm_year + 1900 <= 9999
    &&& 0 <= t.tm_mon <= 11
    &&& 1 <= t.tm_mday <= days_in_month(t.tm_year + 1900, t.tm_mon + 1)
    &&& 0 <= t.tm_hour <= 23
    &&& 0 <= t.tm_min <= 59
    &&& 0 <= t.tm_sec <= 59
}

/// The instant a valid register time names.
pub open spec fn rtc_unix(t: RtcTime) -> int {
    civil_to_unix(
        t.tm_year + 1900,
        t.tm_mon + 1,
        t.tm_mday as int,
        t.tm_hour as int,
        t.tm_min as int,
        t.tm_sec as int,
    )
}

/// Days before the start of a year never shrink as years advance.
proof fn lemma_dby_monotone(y1: int, y2: int)
    requires
        y1 <= y2,
    ensures
        days_before_year(y1) <= days_before_year(y2),
    decreases y2 - y1,
{
    if y1 < y2 {
        lemma_dby_monotone(y1, y2 - 1);
    }
}

/// The months of a year sum to the year's days.
proof fn lemma_months_sum(y: int)
    ensures
        days_before_month(y, 13) == days_in_year(y),
{
    reveal_with_fuel(days_before_month, 14);
}

/// Days before a month never shrink as months advance.
proof fn lemma_dbm_monotone(y: int, m1: int, m2: int)
    requires
        1 <= m1 <= m2,
    ensures
        days_before_month(y, m1) <= days_before_month(y, m2),
    decreases m2 - m1,
{
    if m1 < m2 {
        lemma_dbm_monotone(y, m1, m2 - 1);
    }
}

fn days_in_year_x(y: i32) -> (r: u32)
    requires
        1970 <= y <= 9999,
    ensures
        r == days_in_year(y as int),
{
    if y % 4 == 0 && (y % 100 != 0 || y % 400 == 0) {
        366
    } else {
        365
    }
}

fn days_in_month_x(y: i32, m: i32) -> (r: u32)
    requires
        1970 <= y <= 9999,
        1 <= m <= 12,
    ensures
        r == days_in_month(y as int, m as int),
{
    if m == 2 {
        if y % 4 == 0 && (y % 100 != 0 || y % 400 == 0) {
            29
        } else {
            28
        }
    } else if m == 4 || m == 6 || m == 9 || m == 11 {
        30
    } else {
        31
    }
}

/// Convert an absolute instant to register fields, read as UTC. Fails with
/// the range error exactly when the instant lies before the epoch or past
/// year 9999.
pub fn rtc_of_unix(t: i64) -> (r: Result<RtcTime, Error>)
    ensures
        r is Err <==> !(0 <= t <= rtc_unix_max()),
        r matches Err(e) ==> e == Error::RtcRange,
        r matches Ok(rt) ==> {
            &&& rtc_time_valid(rt)
            &&& rtc_unix(rt) == t
            &&& rt.tm_wday == 0
            &&& rt.tm_yday == 0
            &&& rt.tm_isdst == 0
        },
{
    if t < 0 {
        proof {
            lemma_dby_monotone(1970, 10000);
        }
        return Err(Error::RtcRange);
    }
    let total = t as u64;
    let mut days: u64 = total / 86400;
    let secs: u64 = total % 86400;
    let mut y: i32 = 1970;
    loop
        invariant
            1970 <= y <= 9999,
            0 <= t,
            total == t as u64,
            secs == total as int % 86400,
            days_before_year(y as int) + days == total as int / 86400,
        ensures
            1970 <= y <= 9999,
            days_before_year(y as int) + days == total as int / 86400,
            days < days_in_year(y as int),
        decreases days,
    {
        let diy = days_in_year_x(y) as u64;
        if days < diy {
            break;
        }
        if y == 9999 {
            proof {
                assert(days_before_year(10000) == days_before_year(9999) + days_in_year(9999));
                assert(total as int / 86400 >= days_before_year(10000));
                vstd::arithmetic::div_mod::lemma_fundamental_div_mod(total as int, 86400);
                assert(t > rtc_unix_max());
            }
            return Err(Error::RtcRange);
        }
        days = days - diy;
        y = y + 1;
    }
    let mut m: i32 = 1;
    let ghost y_fixed = y as int;
    let ghost days_at_month_start = days as int;
    while m < 12 && days >= days_in_month_x(y, m) as u64
        invariant
            1970 <= y <= 9999,
            y as int == y_fixed,
            1 <= m <= 12,
            days_before_month(y as int, m as int) + days == days_at_month_start,
            days_at_month_start < days_in_year(y as int),
        decreases 12 - m,
    {
        days = days - days_in_month_x(y, m) as u64;
        m = m + 1;
    }
    proof {
        if m == 12 {
            lemma_months_sum(y as int);
            assert(days_before_month(y as int, 13) == days_before_month(y as int, 12)
                + days_in_month(y as int, 12));
        }
        assert(days < days_in_month(y as int, m as int));
    }
    let mday = (days + 1) as i32;
    let hour = (secs / 3600) as i32;
    let min = ((secs % 3600) / 60) as i32;
    let sec = (secs % 60) as i32;
    let rt = RtcTime {
        tm_sec: sec,
        tm_min: min,
        tm_hour: hour,
        tm_mday: mday,
        tm_mon: m - 1,
        tm_year: y - 1900,
        tm_wday: 0,
        tm_yday: 0,
        tm_isdst: 0,
    };
    proof {
        vstd::arithmetic::div_mod::lemma_fundamental_div_mod(total as int, 86400);
        vstd::arithmetic::div_mod::lemma_fundamental_div_mod(secs as int, 3600);
        vstd::arithmetic::div_mod::lemma_fundamental_div_mod(secs as int % 3600, 60);
        assert(secs as int % 3600 % 60 == secs as int % 60) by {
            vstd::arithmetic::div_mod::lemma_mod_mod(secs as int, 60, 60);
            assert(3600 == 60 * 60);
        }
        assert(rtc_unix(rt) == t);
        lemma_dby_monotone(y as int + 1, 10000);
        assert(days_before_year(y as int + 1) == days_before_year(y as int) + days_in_year(
            y as int,
        ));
        assert(t <= rtc_unix_max());
    }
    Ok(rt)
}

/// Reconstruct the absolute instant a register time names, read as UTC.
/// Fails with the range error exactly when the fields are out of bounds.
pub fn unix_of_rtc(rt: &RtcTime) -> (r: Result<i64, Error>)
    ensures
        r is Err <==> !rtc_time_valid(*rt),
        r matches Err(e) ==> e == Error::RtcRange,
        r matches Ok(t) ==> t == rtc_unix(*rt) && 0 <= t <= rtc_unix_max(),
{
    if rt.tm_year < 70 || rt.tm_year > 9999 - 1900 {
        return Err(Error::RtcRange);
    }
    if rt.tm_mon < 0 || rt.tm_mon > 11 {
        return Err(Error::RtcRange);
    }
    let y = rt.tm_year + 1900;
    let mon = rt.tm_mon + 1;
    if rt.tm_mday < 1 || (rt.tm_mday as u32) > days_in_month_x(y, mon) {
        return Err(Error::RtcRange);
    }
    if rt.tm_hour < 0 || rt.tm_hour > 23 || rt.tm_min < 0 || rt.tm_min > 59 || rt.tm_sec < 0
        || rt.tm_sec > 59 {
        return Err(Error::RtcRange);
    }
    let mut acc: u64 = 0;
    let mut yy: i32 = 1970;
    while yy < y
        invariant
            1970 <= yy <= y <= 9999,
            acc == days_before_year(yy as int),
            acc <= days_before_year(yy as int),
        decreases y - yy,
    {
        proof {
            lemma_dby_monotone(yy as int + 1, 10000);
            lemma_dby_bound(yy as int);
        }
        acc = acc + days_in_year_x(yy) as u64;
        yy = yy + 1;
    }
    let mut mm: i32 = 1;
    let mut macc: u64 = 0;
    while mm < mon
        invariant
            1 <= mm <= mon <= 12,
            1970 <= y <= 9999,
            y == rt.tm_year + 1900,
            macc == days_before_month(y as int, mm as int),
            macc <= 366,
        decreases mon - mm,
    {
        proof {
            lemma_dbm_monotone(y as int, mm as int + 1, 13);
            lemma_months_sum(y as int);
        }
        macc = macc + days_in_month_x(y, mm) as u64;
        mm = mm + 1;
    }
    proof {
        lemma_dby_bound(y as int);
        lemma_dbm_monotone(y as int, mon as int + 1, 13);
        lemma_months_sum(y as int);
        assert(days_before_month(y as int, mon as int + 1) == days_before_month(y as int, mon as int)
            + days_in_month(y as int, mon as int));
    }
    let total_days: u64 = acc + macc + (rt.tm_mday as u64 - 1);
    let t: u64 = total_days * 86400 + (rt.tm_hour as u64) * 3600 + (rt.tm_min as u64) * 60
        + (rt.tm_sec as u64);
    proof {
        lemma_dby_monotone(y as int + 1, 10000);
        assert(days_before_year(y as int + 1) == days_before_year(y as int) + days_in_year(
            y as int,
        ));
        assert(total_days < days_before_year(10000));
        lemma_dby_bound(10000);
    }
    Ok(t as i64)
}

/// Days before any representable year stay below the days before year 10000,
/// which itself is small enough for every computation here.
proof fn lemma_dby_bound(y: int)
    requires
        y <= 10000,
    ensures
        days_before_year(y) <= 366 * (10000 - 1970),
    decreases 10000 - y,
{
    if y > 1970 {
        if y < 10000 {
            lemma_dby_monotone(y, 10000);
        }
        lemma_dby_bound_aux(y);
    }
}

proof fn lemma_dby_bound_aux(y: int)
    requires
        1970 <= y <= 10000,
    ensures
        days_before_year(y) <= 366 * (y - 1970),
        days_before_year(y) >= 0,
    decreases y - 1970,
{
    if y > 1970 {
        lemma_dby_bound_aux(y - 1);
    }
}

impl RtcWkalm {
    /// The sentinel record that disables the wakeup slot: interrupt off, all
    /// fields at the epoch.
    pub fn disabled() -> (r: RtcWkalm)
        ensures
            !r.enabled,
            !r.pending,
            r.time.tm_sec == 0 && r.time.tm_min == 0 && r.time.tm_hour == 0,
            r.time.tm_mday == 1 && r.time.tm_mon == 0 && r.time.tm_year == 70,
            r.time.tm_wday == 0 && r.time.tm_yday == 0 && r.time.tm_isdst == 0,
    {
        RtcWkalm {
            enabled: false,
            pending: false,
            time: RtcTime {
                tm_sec: 0,
                tm_min: 0,
                tm_hour: 0,
                tm_mday: 1,
                tm_mon: 0,
                tm_year: 70,
                tm_wday: 0,
                tm_yday: 0,
                tm_isdst: 0,
            },
        }
    }

    /// The register record that stages a wakeup at the given instant.
    pub fn for_unix(t: i64) -> (r: Result<RtcWkalm, Error>)
        ensures
            r is Err <==> !(0 <= t <= rtc_unix_max()),
            r matches Err(e) ==> e == Error::RtcRange,
            r matches Ok(w) ==> {
                &&& w.enabled
                &&& !w.pending
                &&& rtc_time_valid(w.time)
                &&& rtc_unix(w.time) == t
            },
    {
        match rtc_of_unix(t) {
            Ok(time) => Ok(RtcWkalm { enabled: true, pending: false, time }),
            Err(e) => Err(e),
        }
    }

    /// The instant a read register stages, or `None` when the slot is
    /// disabled or holds fields out of bounds.
    pub fn staged_unix(&self) -> (r: Option<i64>)
        ensures
            match r {
                Some(t) => self.enabled && rtc_time_valid(self.time) && t == rtc_unix(self.time)
                    && 0 <= t <= rtc_unix_max(),
                None => !self.enabled || !rtc_time_valid(self.time),
            },
    {
        if !self.enabled {
            return None;
        }
        match unix_of_rtc(&self.time) {
            Ok(t) => Some(t),
            Err(_) => None,
        }
    }
}

} // verus!
