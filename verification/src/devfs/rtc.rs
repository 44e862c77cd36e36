//! The real-time-clock device: converting between seconds since the epoch and calendar
//! time, its `stat` record and its ioctls.
use vstd::prelude::*;
use vstd::arithmetic::div_mod::lemma_fundamental_div_mod_converse;
use crate::errno::{Errno, SysResult};
use crate::uapi::FileStat;
use crate::vfs::{FileFlags, S_IFCHR};

verus! {

pub const RTC_RD_TIME: usize = 0x80247009;
pub const RTC_SET_TIME: usize = 0x4024700a;

/// Calendar time as the `rtc_time` record holds it.
#[derive(Clone, Copy, PartialEq, Eq, Structural, Debug)]
pub struct RtcTime {
    pub tm_sec: i32,
    pub tm_min: i32,
    pub tm_hour: i32,
    pub tm_mday: i32,
    /// Months since January, `0..12`.
    pub tm_mon: i32,
    /// Years since 1900.
    pub tm_year: i32,
    /// Days since Sunday, `0..7`.
    pub tm_wday: i32,
    /// Days since January 1, `0..366`.
    pub tm_yday: i32,
    pub tm_isdst: i32,
}

/// A request the clock understands.
#[derive(Clone, Copy, PartialEq, Eq, Structural, Debug)]
pub enum RtcRequest {
    ReadTime,
    SetTime,
}

/// Leap years of the Gregorian calendar.
pub open spec fn is_leap_spec(year: int) -> bool {
    (year % 4 == 0 && year % 100 != 0) || year % 400 == 0
}

/// Days in a year.
pub open spec fn days_in_year(year: int) -> int {
    if is_leap_spec(year) { 366 } else { 365 }
}

/// Days in month `m` (from 0).
pub open spec fn month_days(m: int, leap: bool) -> int {
    if m == 1 { if leap { 29 } else { 28 } }
    else if m == 3 || m == 5 || m == 8 || m == 10 { 30 }
    else { 31 }
}

/// Days in the months before month `m`.
pub open spec fn days_before_month(m: int, leap: bool) -> int
    decreases m,
{
    if m <= 0 { 0 } else { days_before_month(m - 1, leap) + month_days(m - 1, leap) }
}

/// Division rounding toward zero, as machine division does.
pub open spec fn trunc_div(x: int, d: int) -> int {
    if x >= 0 { x / d } else { -((-x) / d) }
}

/// Remainder of division rounding toward zero.
pub open spec fn trunc_rem(x: int, d: int) -> int {
    if x >= 0 { x % d } else { -((-x) % d) }
}

/// Leap days in the years before `year`, counting from year 0.
pub open spec fn leap_days_before_spec(year: int) -> int {
    trunc_div(year - 1, 4) - trunc_div(year - 1, 100) + trunc_div(year - 1, 400)
}

/// Days from 1970-01-01 to January 1 of `year`.
pub open spec fn days_before_year_spec(year: int) -> int {
    365 * (year - 1970) + leap_days_before_spec(year) - leap_days_before_spec(1970)
}

/// The year a day count from January 1 of `year` falls in, and the day within it; a negative
/// count stays in `year`.
pub open spec fn year_split(days: int, year: int) -> (int, int)
    decreases days,
{
    if days < days_in_year(year) || days < 0 {
        (year, days)
    } else {
        year_split(days - days_in_year(year), year + 1)
    }
}

/// The month a day of the year falls in, from month `m` on, and the day within it; past
/// December the month is January again and the days are what is left.
pub open spec fn month_split(rem: int, m: int, leap: bool) -> (int, int)
    decreases 12 - m,
{
    if m >= 12 {
        (0, rem)
    } else if rem < month_days(m, leap) {
        (m, rem)
    } else {
        month_split(rem - month_days(m, leap), m + 1, leap)
    }
}

/// Seconds as the clock reads an unsigned count: counts past the signed range wrap negative.
pub open spec fn signed_secs(epoch: u64) -> int {
    if epoch <= i64::MAX { epoch as int } else { epoch - 0x1_0000_0000_0000_0000 }
}

/// The calendar time of `epoch` seconds since 1970-01-01 00:00:00.
pub open spec fn epoch_to_rtc_spec(epoch: u64) -> RtcTime {
    let secs = signed_secs(epoch);
    let days = secs / 86400;
    let day_secs = secs % 86400;
    let (year, yd) = year_split(days, 1970);
    let yday = yd as i32;
    let leap = is_leap_spec(year);
    let (mon, rem) = month_split(yday as int, 0, leap);
    RtcTime {
        tm_sec: (day_secs % 60) as i32,
        tm_min: ((day_secs / 60) % 60) as i32,
        tm_hour: (day_secs / 3600) as i32,
        tm_mday: (rem + 1) as i32,
        tm_mon: mon as i32,
        tm_year: (year - 1900) as i32,
        tm_wday: trunc_rem(days + 4, 7) as i32,
        tm_yday: yday,
        tm_isdst: 0,
    }
}

/// Seconds since the epoch of a calendar time, or `EINVAL` for a field out of range or a
/// year before 1970.
pub open spec fn rtc_to_epoch_spec(t: RtcTime) -> Result<u64, Errno> {
    let year = t.tm_year + 1900;
    let leap = is_leap_spec(year);
    if t.tm_sec < 0 || t.tm_sec >= 60 || t.tm_min < 0 || t.tm_min >= 60 || t.tm_hour < 0 || t.tm_hour >= 24
        || t.tm_mon < 0 || t.tm_mon >= 12 {
        Err(Errno::EINVAL)
    } else if year < 1970 {
        Err(Errno::EINVAL)
    } else if t.tm_mday <= 0 || t.tm_mday > month_days(t.tm_mon as int, leap) {
        Err(Errno::EINVAL)
    } else {
        let days = days_before_year_spec(year) + days_before_month(t.tm_mon as int, leap) + t.tm_mday - 1;
        Ok((days * 86400 + t.tm_hour * 3600 + t.tm_min * 60 + t.tm_sec) as u64)
    }
}

/// Whether `year` is a leap year.
pub fn is_leap(year: i64) -> (r: bool)
    requires
        year >= 0,
    ensures
        r == is_leap_spec(year as int),
{
    (year % 4 == 0 && year % 100 != 0) || year % 400 == 0
}

/// Leap days in the years before `year`, counting from year 0.
pub fn leap_days_before(year: i64) -> (r: i64)
    requires
        year > i64::MIN,
    ensures
        r == leap_days_before_spec(year as int),
{
    let prev = year - 1;
    prev / 4 - prev / 100 + prev / 400
}

/// Days from 1970-01-01 to January 1 of `year`.
pub fn days_before_year(year: i64) -> (r: i64)
    requires
        -0x100_0000_0000 <= year <= 0x100_0000_0000,
    ensures
        r == days_before_year_spec(year as int),
{
    let elapsed_years = year - 1970;
    365 * elapsed_years + leap_days_before(year) - leap_days_before(1970)
}

/// Days in month `m` (from 0) of a year.
pub fn days_in_month(m: usize, leap: bool) -> (r: i32)
    requires
        m < 12,
    ensures
        r == month_days(m as int, leap),
{
    if m == 1 {
        if leap { 29 } else { 28 }
    } else if m == 3 || m == 5 || m == 8 || m == 10 {
        30
    } else {
        31
    }
}

/// The month (from 0) a day of the year falls in and the day within that month.
pub fn split_yday(yday: i32, leap: bool) -> (r: (i32, i32))
    ensures
        r.0 == month_split(yday as int, 0, leap).0,
        r.1 == month_split(yday as int, 0, leap).1,
        r.1 < 31 || r.1 <= yday - 365,
{
    let mut remaining = yday;
    let mut mi: usize = 0;
    proof {
        reveal_with_fuel(days_before_month, 13);
        assert(days_before_month(12, leap) >= 365);
    }
    while mi < 12
        invariant_except_break
            mi <= 12,
            month_split(yday as int, 0, leap) == month_split(remaining as int, mi as int, leap),
            remaining == yday - days_before_month(mi as int, leap),
            days_before_month(12, leap) >= 365,
        ensures
            mi < 12 ==> month_split(yday as int, 0, leap) == (mi as int, remaining as int) && remaining < 31,
            mi >= 12 ==> month_split(yday as int, 0, leap) == (0int, remaining as int) && remaining <= yday - 365,
        decreases 12 - mi,
    {
        let md = days_in_month(mi, leap);
        if remaining < md {
            break;
        }
        remaining = remaining - md;
        mi += 1;
    }
    if mi < 12 { (mi as i32, remaining) } else { (0, remaining) }
}

/// The calendar time of `epoch` seconds since 1970-01-01 00:00:00.
pub fn epoch_to_rtc_time(epoch: u64) -> (r: RtcTime)
    ensures
        r == epoch_to_rtc_spec(epoch),
{
    let secs: i64 = if epoch <= i64::MAX as u64 { epoch as i64 } else { (epoch - 0x8000_0000_0000_0000u64) as i64 - 0x4000_0000_0000_0000i64 - 0x4000_0000_0000_0000i64 };
    assert(secs == signed_secs(epoch));
    let q = secs / 86400;
    let m = secs % 86400;
    let (days, day_secs): (i64, i64) = if m < 0 { (q - 1, m + 86400) } else { (q, m) };
    proof {
        assert(0 <= day_secs < 86400);
        assert(secs == days * 86400 + day_secs);
        lemma_fundamental_div_mod_converse(secs as int, 86400, days as int, day_secs as int);
    }
    let sec = (day_secs % 60) as i32;
    let min = ((day_secs / 60) % 60) as i32;
    let hour = (day_secs / 3600) as i32;
    let wday = ((days + 4) % 7) as i32;
    assert(wday == trunc_rem(days + 4, 7));
    let mut d = days;
    let mut year: i64 = 1970;
    loop
        invariant
            year_split(days as int, 1970) == year_split(d as int, year as int),
            1970 <= year,
            (year - 1970) * 365 <= days - d,
            d <= days,
            d >= 0 || d == days,
            days <= i64::MAX / 86400 + 1,
        ensures
            year_split(days as int, 1970) == (year as int, d as int),
            1970 <= year,
            (year - 1970) * 365 <= days - d,
            d <= days,
            d >= 0 || d == days,
        decreases d,
    {
        let diy: i64 = if is_leap(year) { 366 } else { 365 };
        if d < diy {
            break;
        }
        d = d - diy;
        year = year + 1;
    }
    let yday = #[verifier::truncate] (d as i32);
    let leap = is_leap(year);
    let (mon, remaining) = split_yday(yday, leap);
    RtcTime {
        tm_sec: sec,
        tm_min: min,
        tm_hour: hour,
        tm_mday: remaining + 1,
        tm_mon: mon,
        tm_year: #[verifier::truncate] ((year - 1900) as i32),
        tm_wday: wday,
        tm_yday: yday,
        tm_isdst: 0,
    }
}

/// Seconds since the epoch of a calendar time; `EINVAL` for a field out of range or a year
/// before 1970.
pub fn rtc_time_to_epoch(time: RtcTime) -> (r: SysResult<u64>)
    ensures
        r == rtc_to_epoch_spec(time),
{
    if time.tm_sec < 0 || time.tm_sec >= 60 || time.tm_min < 0 || time.tm_min >= 60 || time.tm_hour < 0
        || time.tm_hour >= 24 || time.tm_mon < 0 || time.tm_mon >= 12 {
        return Err(Errno::EINVAL);
    }
    let year = time.tm_year as i64 + 1900;
    if year < 1970 {
        return Err(Errno::EINVAL);
    }
    let leap = is_leap(year);
    let mon = time.tm_mon as usize;
    if time.tm_mday <= 0 || time.tm_mday > days_in_month(mon, leap) {
        return Err(Errno::EINVAL);
    }
    let mut days = days_before_year(year);
    let mut m: usize = 0;
    while m < mon
        invariant
            m <= mon < 12,
            days == days_before_year_spec(year as int) + days_before_month(m as int, leap),
            0 <= days_before_month(m as int, leap) <= 31 * m,
            1970 <= year <= 0x8000_0000 + 1900,
        decreases mon - m,
    {
        days = days + days_in_month(m, leap) as i64;
        m += 1;
    }
    days = days + (time.tm_mday - 1) as i64;
    proof { lemma_days_before_year_bounds(year as int); }
    let seconds = days * 86400 + time.tm_hour as i64 * 3600 + time.tm_min as i64 * 60 + time.tm_sec as i64;
    Ok(seconds as u64)
}

/// Days before a year from 1970 on are between none and 366 a year.
proof fn lemma_days_before_year_bounds(year: int)
    requires
        1970 <= year <= 0x8000_0000 + 1900,
    ensures
        0 <= days_before_year_spec(year) <= 366 * (year - 1970),
{
    assert(leap_days_before_spec(year) - leap_days_before_spec(1970) <= year - 1970);
}

/// Which clock request an ioctl number names, or `ENOTTY`.
pub fn rtc_request(request: usize) -> (r: SysResult<RtcRequest>)
    ensures
        r == (if request as u32 == RTC_RD_TIME as u32 { Ok::<RtcRequest, Errno>(RtcRequest::ReadTime) }
            else if request as u32 == RTC_SET_TIME as u32 { Ok::<RtcRequest, Errno>(RtcRequest::SetTime) }
            else { Err::<RtcRequest, Errno>(Errno::ENOTTY) }),
{
    let code = request as u32;
    if code == RTC_RD_TIME as u32 {
        Ok(RtcRequest::ReadTime)
    } else if code == RTC_SET_TIME as u32 {
        Ok(RtcRequest::SetTime)
    } else {
        Err(Errno::ENOTTY)
    }
}

/// Setting the clock needs the capability to set the time.
pub fn set_time_allowed(capable: bool) -> (r: SysResult<()>)
    ensures
        r == (if capable { Ok::<(), Errno>(()) } else { Err::<(), Errno>(Errno::EPERM) }),
{
    if capable { Ok(()) } else { Err(Errno::EPERM) }
}

/// The clock device node.
pub struct RtcInode {
    pub ino: u32,
}

impl RtcInode {
    /// The clock node with inode number `ino`.
    pub fn new(ino: u32) -> (r: Self)
        ensures
            r.ino == ino,
    {
        RtcInode { ino }
    }

    /// Its inode number.
    pub fn get_ino(&self) -> (r: u32)
        ensures
            r == self.ino,
    {
        self.ino
    }

    /// A read-only character device.
    pub fn mode(&self) -> (r: u32)
        ensures
            r == S_IFCHR | 0o444,
    {
        S_IFCHR | 0o444
    }

    /// Its `stat` record: a read-only character device of size 0 owned by root.
    pub fn fstat(&self) -> (r: FileStat)
        ensures
            r == (FileStat { st_ino: self.ino as u64, st_mode: S_IFCHR | 0o444, st_nlink: 1, ..FileStat::zeroed_spec() }),
    {
        let mut kstat = FileStat::zeroed();
        kstat.st_ino = self.ino as u64;
        kstat.st_size = 0;
        kstat.st_mode = S_IFCHR | 0o444;
        kstat.st_nlink = 1;
        kstat.st_gid = 0;
        kstat.st_uid = 0;
        kstat
    }

    /// Reading the node gives nothing.
    pub fn readat(&self, buf_len: usize, offset: usize) -> (r: SysResult<usize>)
        ensures
            r == Ok::<usize, Errno>(0),
    {
        Ok(0)
    }

    /// Writing the node is refused.
    pub fn writeat(&self, buf_len: usize, offset: usize) -> (r: SysResult<usize>)
        ensures
            r == Err::<usize, Errno>(Errno::EACCES),
    {
        Err(Errno::EACCES)
    }
}

/// The flags an open clock file reports: never writable nor appending.
pub fn rtc_file_flags(flags: FileFlags) -> (r: FileFlags)
    ensures
        r == (FileFlags { writable: false, append: false, ..flags }),
{
    FileFlags { readable: flags.readable, writable: false, blocked: flags.blocked, append: false, direct: flags.direct }
}

/// A quotient steps up by one exactly at a multiple of the divisor.
proof fn lemma_div_step(y: int, d: int)
    requires
        y >= 1,
        d > 0,
    ensures
        y / d - (y - 1) / d == if y % d == 0 { 1int } else { 0int },
{
    let q = y / d;
    let r = y % d;
    vstd::arithmetic::div_mod::lemma_fundamental_div_mod(y, d);
    assert(0 <= r < d);
    assert(y == q * d + r) by (nonlinear_arith)
        requires
            y == d * q + r,
    ;
    assert((q - 1) * d == q * d - d) by (nonlinear_arith);
    if r == 0 {
        lemma_fundamental_div_mod_converse(y - 1, d, q - 1, d - 1);
    } else {
        lemma_fundamental_div_mod_converse(y - 1, d, q, r - 1);
    }
}

/// One more year adds that year's days.
#[verifier::spinoff_prover]
proof fn lemma_days_before_next_year(y: int)
    requires
        y >= 1970,
    ensures
        days_before_year_spec(y + 1) == days_before_year_spec(y) + days_in_year(y),
{
    assert(leap_days_before_spec(y + 1) - leap_days_before_spec(y) == if is_leap_spec(y) { 1int } else { 0int }) by {
        lemma_div_step(y, 4);
        lemma_div_step(y, 100);
        lemma_div_step(y, 400);
    }
}

/// The split of a day count into a year and a day of that year adds back up.
proof fn lemma_year_split(days: int, year: int)
    requires
        days >= 0,
        year >= 1970,
    ensures
        ({
            let (y, d) = year_split(days, year);
            &&& y >= year
            &&& 0 <= d < days_in_year(y)
            &&& days_before_year_spec(y) + d == days_before_year_spec(year) + days
            &&& 365 * (y - year) <= days
        }),
    decreases days,
{
    if days >= days_in_year(year) {
        lemma_year_split(days - days_in_year(year), year + 1);
        lemma_days_before_next_year(year);
    }
}

/// The split of a day of the year into a month and a day of that month adds back up.
proof fn lemma_month_split(rem: int, m: int, leap: bool)
    requires
        0 <= m <= 12,
        0 <= rem,
        rem + days_before_month(m, leap) < if leap { 366int } else { 365int },
    ensures
        ({
            let (mon, r) = month_split(rem, m, leap);
            &&& m <= mon < 12
            &&& 0 <= r < month_days(mon, leap)
            &&& days_before_month(mon, leap) + r == days_before_month(m, leap) + rem
        }),
    decreases 12 - m,
{
    reveal_with_fuel(days_before_month, 13);
    if m < 12 && rem >= month_days(m, leap) {
        lemma_month_split(rem - month_days(m, leap), m + 1, leap);
    }
}

/// Month lengths are the Gregorian ones: January 31 days, February 28 (29 in a leap year),
/// March 31, April 30, May 31, June 30, July 31, August 31, September 30, October 31,
/// November 30, December 31.
pub proof fn law_month_lengths(leap: bool)
    ensures
        month_days(0, leap) == 31,
        month_days(1, leap) == if leap { 29int } else { 28int },
        month_days(2, leap) == 31,
        month_days(3, leap) == 30,
        month_days(4, leap) == 31,
        month_days(5, leap) == 30,
        month_days(6, leap) == 31,
        month_days(7, leap) == 31,
        month_days(8, leap) == 30,
        month_days(9, leap) == 31,
        month_days(10, leap) == 30,
        month_days(11, leap) == 31,
{
}

/// Days of a year before the first of month `m` in the Gregorian calendar.
pub open spec fn gregorian_days_before(m: int, leap: bool) -> int {
    seq![0int, 31, 59, 90, 120, 151, 181, 212, 243, 273, 304, 334][m] + if leap && m >= 2 { 1int } else { 0int }
}

/// The calendar date of any time from the epoch on is a Gregorian one: the month is in
/// `0..12`, the day of the month is at least 1 and within that month's Gregorian length, and
/// the day of the year counts the Gregorian days of the months before it plus the day of the
/// month, less one.
pub proof fn law_calendar_date(epoch: u64)
    requires
        epoch < 0x80_0000_0000_0000,
    ensures
        ({
            let t = epoch_to_rtc_spec(epoch);
            let leap = is_leap_spec(t.tm_year + 1900);
            let before = gregorian_days_before(t.tm_mon as int, leap);
            let next = if t.tm_mon == 11 { days_in_year(t.tm_year + 1900) }
                else { gregorian_days_before(t.tm_mon + 1, leap) };
            &&& 0 <= t.tm_mon < 12
            &&& 1 <= t.tm_mday
            &&& before + t.tm_mday <= next
            &&& t.tm_yday == before + t.tm_mday - 1
        }),
{
    let secs = signed_secs(epoch);
    let days = secs / 86400;
    lemma_year_split(days, 1970);
    let (year, yd) = year_split(days, 1970);
    let leap = is_leap_spec(year);
    assert(days_before_month(0, leap) == 0);
    lemma_month_split(yd, 0, leap);
    let (mon, rem) = month_split(yd, 0, leap);
    assert(year - 1970 <= days / 365);
    assert(days <= 0x80_0000_0000_0000int / 86400);
    let t = epoch_to_rtc_spec(epoch);
    assert(t.tm_year + 1900 == year);
    reveal_with_fuel(days_before_month, 13);
    assert(days_before_month(mon, leap) == gregorian_days_before(mon, leap));
    if mon < 11 {
        assert(days_before_month(mon + 1, leap) == gregorian_days_before(mon + 1, leap));
    }
}

/// A time from the epoch on is its calendar fields read back with the Gregorian calendar: the
/// seconds are the days before its year, plus the Gregorian days of the months before its
/// month, plus its day of the month less one, all times a day's seconds, plus the time of day;
/// and as 1970-01-01 was a Thursday, the weekday counts on from there.
pub proof fn law_calendar_fields(epoch: u64)
    requires
        epoch < 0x80_0000_0000_0000,
    ensures
        ({
            let t = epoch_to_rtc_spec(epoch);
            let year = t.tm_year + 1900;
            let d = days_before_year_spec(year) + gregorian_days_before(t.tm_mon as int, is_leap_spec(year)) + t.tm_mday - 1;
            &&& 0 <= t.tm_hour < 24
            &&& 0 <= t.tm_min < 60
            &&& 0 <= t.tm_sec < 60
            &&& epoch == d * 86400 + t.tm_hour * 3600 + t.tm_min * 60 + t.tm_sec
            &&& t.tm_wday == (d + 4) % 7
        }),
{
    law_calendar_date(epoch);
    let secs = signed_secs(epoch);
    let days = secs / 86400;
    let day_secs = secs % 86400;
    lemma_year_split(days, 1970);
    let (year, yd) = year_split(days, 1970);
    assert(year - 1970 <= days / 365);
    assert(days <= 0x80_0000_0000_0000int / 86400);
    let t = epoch_to_rtc_spec(epoch);
    assert(t.tm_year + 1900 == year);
    assert(days_before_year_spec(1970) == 0);
    assert(days_before_year_spec(year) + yd == days);
    assert(t.tm_hour * 3600 + t.tm_min * 60 + t.tm_sec == day_secs);
    assert(days * 86400 + day_secs == secs);
}

/// Counting days from the epoch, each year adds its own length: 366 days when it is divisible
/// by 4 but not by 100, or by 400, and 365 otherwise.
pub proof fn law_years_accumulate(y: int)
    requires
        y >= 1970,
    ensures
        days_before_year_spec(y + 1) - days_before_year_spec(y)
            == if (y % 4 == 0 && y % 100 != 0) || y % 400 == 0 { 366int } else { 365int },
{
    lemma_days_before_next_year(y);
}

/// Reading the clock as calendar time and setting it from that calendar time gives back the
/// same count of seconds, for every count whose year fits the record.
pub proof fn law_rtc_round_trip(epoch: u64)
    requires
        epoch < 0x80_0000_0000_0000,
    ensures
        rtc_to_epoch_spec(epoch_to_rtc_spec(epoch)) == Ok::<u64, Errno>(epoch),
{
    let secs = signed_secs(epoch);
    let days = secs / 86400;
    let day_secs = secs % 86400;
    lemma_year_split(days, 1970);
    let (year, yd) = year_split(days, 1970);
    let leap = is_leap_spec(year);
    assert(days_before_month(0, leap) == 0);
    lemma_month_split(yd, 0, leap);
    let (mon, rem) = month_split(yd, 0, leap);
    assert(year - 1970 <= days / 365);
    assert(days <= 0x80_0000_0000_0000int / 86400);
    let t = epoch_to_rtc_spec(epoch);
    assert(t.tm_year + 1900 == year);
    assert(t.tm_hour * 3600 + t.tm_min * 60 + t.tm_sec == day_secs);
    assert(days * 86400 + day_secs == secs);
}

} // verus!
