//! Civil (proleptic Gregorian) calendar dates and instants.
//!
//! A `Date` is a day number counted from 1970-01-01 (day 0); an `Instant`
//! is a count of milliseconds from 1970-01-01 00:00:00.  The year, month,
//! day-of-month and weekday of a day number are defined by the recursive
//! calendar functions below, and the executable conversions are proved
//! against them.

use vstd::prelude::*;

verus! {

use vstd::arithmetic::div_mod::lemma_fundamental_div_mod;
use vstd::arithmetic::div_mod::lemma_fundamental_div_mod_converse;
use vstd::arithmetic::div_mod::lemma_mod_bound;

/// Milliseconds in one civil day.
pub const DAY_MS: i64 = 86_400_000;

/// Day number of 9999-12-31, the last date this library represents.
pub const MAX_DAY: i64 = 2_932_896;

/// One past the largest instant: the midnight that closes 9999-12-31.
pub const MAX_INSTANT_MS: i64 = (MAX_DAY + 1) * DAY_MS;

pub open spec fn is_leap_year(y: int) -> bool {
    (y % 4 == 0 && y % 100 != 0) || y % 400 == 0
}

pub open spec fn days_in_year(y: int) -> int {
    if is_leap_year(y) { 366 } else { 365 }
}

pub open spec fn days_in_month(y: int, m: int) -> int {
    if m == 2 {
        if is_leap_year(y) { 29 } else { 28 }
    } else if m == 4 || m == 6 || m == 9 || m == 11 {
        30
    } else {
        31
    }
}

pub open spec fn valid_ymd(y: int, m: int, d: int) -> bool {
    1 <= m <= 12 && 1 <= d <= days_in_month(y, m)
}

/// Days from 1970-01-01 to January 1st of year `y`.
pub open spec fn days_before_year(y: int) -> int
    decreases y,
{
    if y <= 1970 { 0 } else { days_before_year(y - 1) + days_in_year(y - 1) }
}

/// Days from January 1st to the first of month `m` in year `y`.
pub open spec fn days_before_month(y: int, m: int) -> int
    decreases m,
{
    if m <= 1 { 0 } else { days_before_month(y, m - 1) + days_in_month(y, m - 1) }
}

/// The day number of the civil date `y`-`m`-`d`.
pub open spec fn date_to_days(y: int, m: int, d: int) -> int {
    days_before_year(y) + days_before_month(y, m) + (d - 1)
}

/// The year reached from year `y` after `rem` further days.
pub open spec fn year_from(y: int, rem: int) -> int
    decreases rem,
{
    if rem < days_in_year(y) { y } else { year_from(y + 1, rem - days_in_year(y)) }
}

/// The year in which day number `n` falls.
pub open spec fn year_of_days(n: int) -> int {
    year_from(1970, n)
}

/// The month reached from month `m` of year `y` after `rem` further days.
pub open spec fn month_from(y: int, m: int, rem: int) -> int
    decreases 12 - m,
{
    if m >= 12 || rem < days_in_month(y, m) {
        m
    } else {
        month_from(y, m + 1, rem - days_in_month(y, m))
    }
}

/// The month (1..=12) in which day number `n` falls.
pub open spec fn month_of_days(n: int) -> int {
    month_from(year_of_days(n), 1, n - days_before_year(year_of_days(n)))
}

/// The day of the month (1..=31) of day number `n`.
pub open spec fn day_of_month_of_days(n: int) -> int {
    n - days_before_year(year_of_days(n))
        - days_before_month(year_of_days(n), month_of_days(n)) + 1
}

/// The weekday of day number `n`, 1 = Monday .. 7 = Sunday.
/// Day 0 (1970-01-01) is a Thursday.
pub open spec fn weekday_of_day(n: int) -> int {
    (n + 3) % 7 + 1
}

/// The twelve months of a year together hold `days_in_year` days.
pub proof fn lemma_months_cover_year(y: int)
    ensures
        days_before_month(y, 13) == days_in_year(y),
{
    reveal_with_fuel(days_before_month, 13);
}

/// The days before a month never count backwards.
pub proof fn lemma_days_before_month_nonneg(y: int, m: int)
    ensures
        0 <= days_before_month(y, m),
    decreases m,
{
    if m > 1 {
        lemma_days_before_month_nonneg(y, m - 1);
    }
}

/// Within a year, a valid month-and-day offset stays below the year's length.
pub proof fn lemma_day_of_year_bound(y: int, m: int)
    requires
        1 <= m <= 12,
    ensures
        0 <= days_before_month(y, m),
        days_before_month(y, m) + days_in_month(y, m) <= days_in_year(y),
    decreases 13 - m,
{
    lemma_days_before_month_nonneg(y, m);
    if m == 12 {
        lemma_months_cover_year(y);
    } else {
        lemma_day_of_year_bound(y, m + 1);
    }
}

/// `days_before_year` grows with the year.
pub proof fn lemma_days_before_year_monotone(a: int, b: int)
    requires
        a <= b,
    ensures
        days_before_year(a) <= days_before_year(b),
    decreases b - a,
{
    if a < b {
        lemma_days_before_year_monotone(a, b - 1);
    }
}

/// Leap years in 1..=a: one per multiple of 4, except the centuries
/// that are not multiples of 400.
pub open spec fn leap_count(a: int) -> int {
    a / 4 - a / 100 + a / 400
}

/// Stepping the dividend down by one drops the quotient exactly on
/// multiples of the divisor.
proof fn lemma_div_step(y: int, d: int)
    requires
        d > 0,
    ensures
        y / d - (y - 1) / d == if y % d == 0 { 1int } else { 0int },
{
    lemma_fundamental_div_mod(y, d);
    lemma_mod_bound(y, d);
    let q: int = y / d;
    let r: int = y % d;
    assert(y == d * q + r);
    if r == 0 {
        assert(y - 1 == (q - 1) * d + (d - 1)) by (nonlinear_arith)
            requires
                y == d * q + r,
                r == 0,
        ;
        lemma_fundamental_div_mod_converse(y - 1, d, q - 1, d - 1);
    } else {
        assert(y - 1 == q * d + (r - 1)) by (nonlinear_arith)
            requires
                y == d * q + r,
        ;
        lemma_fundamental_div_mod_converse(y - 1, d, q, r - 1);
    }
}

/// Crossing year `y` adds one to the leap count exactly when `y` is leap.
proof fn lemma_leap_count_step(y: int)
    requires
        y >= 1,
    ensures
        leap_count(y) - leap_count(y - 1) == if is_leap_year(y) { 1int } else { 0int },
{
    lemma_div_step(y, 4);
    lemma_div_step(y, 100);
    lemma_div_step(y, 400);
    if y % 400 == 0 {
        lemma_fundamental_div_mod(y, 400);
        lemma_fundamental_div_mod_converse(y, 100, 4 * (y / 400), 0);
        lemma_fundamental_div_mod_converse(y, 4, 100 * (y / 400), 0);
    }
    if y % 100 == 0 {
        lemma_fundamental_div_mod(y, 100);
        lemma_fundamental_div_mod_converse(y, 4, 25 * (y / 100), 0);
    }
}

/// Closed form for `days_before_year` over the leap count.
proof fn lemma_days_before_year_formula(y: int)
    requires
        y >= 1970,
    ensures
        days_before_year(y) == 365 * (y - 1970) + leap_count(y - 1) - leap_count(1969),
    decreases y,
{
    if y > 1970 {
        lemma_days_before_year_formula(y - 1);
        lemma_leap_count_step(y - 1);
    }
}

/// Day number of January 1st, 10000: one past the last representable day.
pub proof fn lemma_days_before_year_10000()
    ensures
        days_before_year(10000) == MAX_DAY + 1,
{
    lemma_days_before_year_formula(10000);
    lemma_fundamental_div_mod_converse(9999, 4, 2499, 3);
    lemma_fundamental_div_mod_converse(9999, 100, 99, 99);
    lemma_fundamental_div_mod_converse(9999, 400, 24, 399);
    lemma_fundamental_div_mod_converse(1969, 4, 492, 1);
    lemma_fundamental_div_mod_converse(1969, 100, 19, 69);
    lemma_fundamental_div_mod_converse(1969, 400, 4, 369);
}

/// A valid date of a year up to 9999 has a representable day number.
pub proof fn lemma_date_to_days_in_range(y: int, m: int, d: int)
    requires
        valid_ymd(y, m, d),
        1970 <= y <= 9999,
    ensures
        0 <= date_to_days(y, m, d) <= MAX_DAY,
{
    lemma_day_of_year_bound(y, m);
    lemma_days_before_year_monotone(1970, y);
    assert(days_before_year(y + 1) == days_before_year(y) + days_in_year(y));
    lemma_days_before_year_monotone(y + 1, 10000);
    lemma_days_before_year_10000();
}

/// `year_from` finds the year whose days bracket the remaining count.
proof fn lemma_year_from_range(y: int, rem: int)
    requires
        1970 <= y,
        0 <= rem,
    ensures
        y <= year_from(y, rem),
        days_before_year(year_from(y, rem)) - days_before_year(y) <= rem,
        rem < days_before_year(year_from(y, rem)) + days_in_year(year_from(y, rem))
            - days_before_year(y),
    decreases rem,
{
    if rem >= days_in_year(y) {
        lemma_year_from_range(y + 1, rem - days_in_year(y));
    }
}

/// `month_from` finds the month whose days bracket the remaining count.
proof fn lemma_month_from_range(y: int, m: int, rem: int)
    requires
        1 <= m <= 12,
        0 <= rem,
        rem + days_before_month(y, m) < days_in_year(y),
    ensures
        m <= month_from(y, m, rem) <= 12,
        days_before_month(y, month_from(y, m, rem)) - days_before_month(y, m) <= rem,
        rem < days_before_month(y, month_from(y, m, rem))
            + days_in_month(y, month_from(y, m, rem)) - days_before_month(y, m),
    decreases 12 - m,
{
    if m == 12 {
        lemma_months_cover_year(y);
    } else if rem >= days_in_month(y, m) {
        lemma_month_from_range(y, m + 1, rem - days_in_month(y, m));
    }
}

/// Every non-negative day number is the day number of the valid civil
/// date that the calendar functions read off it.
pub proof fn lemma_day_number_reconstruct(n: int)
    requires
        0 <= n,
    ensures
        valid_ymd(year_of_days(n), month_of_days(n), day_of_month_of_days(n)),
        date_to_days(year_of_days(n), month_of_days(n), day_of_month_of_days(n)) == n,
        1970 <= year_of_days(n),
        days_before_year(year_of_days(n)) <= n,
{
    lemma_year_from_range(1970, n);
    let y: int = year_of_days(n);
    let doy: int = n - days_before_year(y);
    lemma_month_from_range(y, 1, doy);
}

/// The days before a month grow with the month.
proof fn lemma_days_before_month_monotone(y: int, a: int, b: int)
    requires
        a <= b,
    ensures
        days_before_month(y, a) <= days_before_month(y, b),
    decreases b - a,
{
    if a < b {
        lemma_days_before_month_monotone(y, a, b - 1);
    }
}

/// Reading the year, month and day of month off a valid date's day
/// number gives that date back: the calendar functions invert
/// `date_to_days`.
pub proof fn lemma_date_components_of_days(y: int, m: int, d: int)
    requires
        valid_ymd(y, m, d),
        1970 <= y,
    ensures
        year_of_days(date_to_days(y, m, d)) == y,
        month_of_days(date_to_days(y, m, d)) == m,
        day_of_month_of_days(date_to_days(y, m, d)) == d,
{
    let n = date_to_days(y, m, d);
    lemma_day_of_year_bound(y, m);
    lemma_days_before_year_monotone(1970, y);
    assert(days_before_year(y + 1) == days_before_year(y) + days_in_year(y));
    assert(days_before_year(y) <= n < days_before_year(y + 1));
    lemma_year_from_range(1970, n);
    let fy = year_of_days(n);
    if fy < y {
        lemma_days_before_year_monotone(fy + 1, y);
        assert(days_before_year(fy + 1) == days_before_year(fy) + days_in_year(fy));
        assert(false);
    }
    if fy > y {
        lemma_days_before_year_monotone(y + 1, fy);
        assert(false);
    }
    let doy = n - days_before_year(y);
    lemma_month_from_range(y, 1, doy);
    let fm = month_of_days(n);
    if fm < m {
        lemma_days_before_month_monotone(y, fm + 1, m);
        assert(days_before_month(y, fm + 1)
            == days_before_month(y, fm) + days_in_month(y, fm));
        assert(false);
    }
    if fm > m {
        lemma_days_before_month_monotone(y, m + 1, fm);
        assert(days_before_month(y, m + 1)
            == days_before_month(y, m) + days_in_month(y, m));
        assert(false);
    }
}

/// Day numbers up to `MAX_DAY` stay within year 9999.
pub proof fn lemma_year_of_days_le_9999(n: int)
    requires
        0 <= n <= MAX_DAY,
    ensures
        1970 <= year_of_days(n) <= 9999,
{
    lemma_year_from_range(1970, n);
    if year_of_days(n) > 9999 {
        lemma_days_before_year_monotone(10000, year_of_days(n));
        lemma_days_before_year_10000();
    }
}

fn leap_year(y: i64) -> (r: bool)
    requires
        0 <= y,
    ensures
        r == is_leap_year(y as int),
{
    (y % 4 == 0 && y % 100 != 0) || y % 400 == 0
}

pub(crate) fn days_in_month_exec(y: i64, m: i64) -> (r: i64)
    requires
        0 <= y,
    ensures
        r == days_in_month(y as int, m as int),
        28 <= r <= 31,
{
    if m == 2 {
        if leap_year(y) { 29 } else { 28 }
    } else if m == 4 || m == 6 || m == 9 || m == 11 {
        30
    } else {
        31
    }
}

/// The civil date (year, month, day-of-month) of day number `n`.
pub(crate) fn ymd_from_days(n: i64) -> (r: (i64, i64, i64))
    requires
        0 <= n,
    ensures
        r.0 == year_of_days(n as int),
        r.1 == month_of_days(n as int),
        r.2 == day_of_month_of_days(n as int),
        valid_ymd(r.0 as int, r.1 as int, r.2 as int),
        1970 <= r.0,
        365 * (r.0 - 1970) <= n,
        date_to_days(r.0 as int, r.1 as int, r.2 as int) == n,
{
    let mut y: i64 = 1970;
    let mut rem: i64 = n;
    loop
        invariant
            0 <= n,
            1970 <= y,
            0 <= rem,
            rem == n - days_before_year(y as int),
            365 * (y - 1970) <= days_before_year(y as int),
            year_from(y as int, rem as int) == year_of_days(n as int),
        ensures
            1970 <= y,
            0 <= rem < days_in_year(y as int),
            rem == n - days_before_year(y as int),
            365 * (y - 1970) <= days_before_year(y as int),
            year_from(y as int, rem as int) == year_of_days(n as int),
        decreases rem,
    {
        let diy: i64 = if leap_year(y) { 366 } else { 365 };
        if rem < diy {
            break;
        }
        rem = rem - diy;
        y = y + 1;
    }
    let ghost doy: int = rem as int;
    assert(y as int == year_of_days(n as int));
    let mut m: i64 = 1;
    loop
        invariant
            0 <= y,
            1 <= m <= 12,
            0 <= rem,
            rem == doy - days_before_month(y as int, m as int),
            doy < days_in_year(y as int),
            month_from(y as int, m as int, rem as int) == month_from(y as int, 1, doy),
        ensures
            1 <= m <= 12,
            0 <= rem < days_in_month(y as int, m as int),
            rem == doy - days_before_month(y as int, m as int),
            month_from(y as int, m as int, rem as int) == month_from(y as int, 1, doy),
        decreases 12 - m,
    {
        let dim: i64 = days_in_month_exec(y, m);
        if m >= 12 || rem < dim {
            proof {
                if m >= 12 {
                    lemma_months_cover_year(y as int);
                    assert(days_before_month(y as int, 13)
                        == days_before_month(y as int, 12) + days_in_month(y as int, 12));
                }
            }
            break;
        }
        rem = rem - dim;
        m = m + 1;
    }
    let d: i64 = rem + 1;
    proof {
        lemma_day_of_year_bound(y as int, m as int);
    }
    (y, m, d)
}

/// The day number of the civil date `y`-`m`-`d`, for years 1970..=9999.
pub(crate) fn days_from_ymd(y: i64, m: i64, d: i64) -> (r: i64)
    requires
        1970 <= y <= 9999,
        valid_ymd(y as int, m as int, d as int),
    ensures
        r == date_to_days(y as int, m as int, d as int),
        0 <= r <= MAX_DAY,
{
    let mut yy: i64 = 1970;
    let mut acc: i64 = 0;
    while yy < y
        invariant
            1970 <= yy <= y <= 9999,
            acc == days_before_year(yy as int),
            0 <= acc,
        decreases y - yy,
    {
        proof {
            lemma_days_before_year_monotone(yy + 1, 10000);
            lemma_days_before_year_10000();
        }
        let diy: i64 = if leap_year(yy) { 366 } else { 365 };
        acc = acc + diy;
        yy = yy + 1;
    }
    let mut mm: i64 = 1;
    let mut macc: i64 = 0;
    while mm < m
        invariant
            1 <= mm <= m <= 12,
            0 <= y,
            macc == days_before_month(y as int, mm as int),
            0 <= macc <= 366,
        decreases m - mm,
    {
        proof {
            lemma_day_of_year_bound(y as int, mm as int);
        }
        macc = macc + days_in_month_exec(y, mm);
        mm = mm + 1;
    }
    proof {
        lemma_date_to_days_in_range(y as int, m as int, d as int);
    }
    acc + macc + (d - 1)
}

/// A civil calendar date: the day number counted from 1970-01-01 (day 0).
#[derive(Clone, Copy, Debug, PartialEq, Eq, Structural)]
pub struct Date {
    pub days: i64,
}

impl View for Date {
    type V = int;

    open spec fn view(&self) -> int {
        self.days as int
    }
}

impl Date {
    /// A date is well formed when it lies between 1970-01-01 and 9999-12-31.
    pub open spec fn wf(self) -> bool {
        0 <= self.days <= MAX_DAY
    }

    /// The date with the given day number, if representable.
    pub fn from_days(days: i64) -> (r: Option<Date>)
        ensures
            r is Some <==> 0 <= days <= MAX_DAY,
            r matches Some(dt) ==> dt@ == days && dt.wf(),
    {
        if 0 <= days && days <= MAX_DAY {
            Some(Date { days })
        } else {
            None
        }
    }

    /// The date of the civil day `y`-`m`-`d`, if it is a valid date of a
    /// year between 1970 and 9999.
    pub fn from_ymd(y: i32, m: u32, d: u32) -> (r: Option<Date>)
        ensures
            r is Some <==> (1970 <= y <= 9999 && valid_ymd(y as int, m as int, d as int)),
            r matches Some(dt) ==> dt@ == date_to_days(y as int, m as int, d as int) && dt.wf(),
    {
        if y < 1970 || y > 9999 || m < 1 || m > 12 {
            return None;
        }
        let dim: i64 = days_in_month_exec(y as i64, m as i64);
        if d < 1 || (d as i64) > dim {
            return None;
        }
        Some(Date { days: days_from_ymd(y as i64, m as i64, d as i64) })
    }

    /// The year of this date.
    pub fn year(&self) -> (r: i32)
        requires
            self.wf(),
        ensures
            r == year_of_days(self@),
    {
        let (y, _m, _d): (i64, i64, i64) = ymd_from_days(self.days);
        y as i32
    }

    /// The month of this date, 1..=12.
    pub fn month(&self) -> (r: u32)
        requires
            self.wf(),
        ensures
            r == month_of_days(self@),
            1 <= r <= 12,
    {
        let (_y, m, _d): (i64, i64, i64) = ymd_from_days(self.days);
        m as u32
    }

    /// The day of the month of this date, 1..=31.
    pub fn day(&self) -> (r: u32)
        requires
            self.wf(),
        ensures
            r == day_of_month_of_days(self@),
            1 <= r <= 31,
    {
        let (_y, _m, d): (i64, i64, i64) = ymd_from_days(self.days);
        d as u32
    }

    /// The weekday of this date, 1 = Monday .. 7 = Sunday.
    pub fn weekday(&self) -> (r: u32)
        requires
            self.wf(),
        ensures
            r == weekday_of_day(self@),
            1 <= r <= 7,
    {
        (((self.days + 3) % 7) + 1) as u32
    }

    /// The instant at `h`:`mi`:`s` of this date, if those are a valid
    /// time of day.
    pub fn and_hms(&self, h: u32, mi: u32, s: u32) -> (r: Option<Instant>)
        requires
            self.wf(),
        ensures
            r is Some <==> (h < 24 && mi < 60 && s < 60),
            r matches Some(i) ==> i@ == self@ * DAY_MS + (h * 3600 + mi * 60 + s) * 1000
                && i.wf(),
    {
        if h < 24 && mi < 60 && s < 60 {
            let tod: i64 = ((h as i64) * 3600 + (mi as i64) * 60 + (s as i64)) * 1000;
            Some(Instant { millis: self.days * DAY_MS + tod })
        } else {
            None
        }
    }
}

/// An instant: milliseconds counted from 1970-01-01 00:00:00.
#[derive(Clone, Copy, Debug, PartialEq, Eq, Structural)]
pub struct Instant {
    pub millis: i64,
}

impl View for Instant {
    type V = int;

    open spec fn view(&self) -> int {
        self.millis as int
    }
}

impl Instant {
    /// An instant is well formed when it lies under the last representable
    /// midnight.
    pub open spec fn wf(self) -> bool {
        0 <= self.millis <= MAX_INSTANT_MS
    }

    /// The instant with the given millisecond count, if representable.
    pub fn from_millis(millis: i64) -> (r: Option<Instant>)
        ensures
            r is Some <==> 0 <= millis <= MAX_INSTANT_MS,
            r matches Some(i) ==> i@ == millis && i.wf(),
    {
        if 0 <= millis && millis <= MAX_INSTANT_MS {
            Some(Instant { millis })
        } else {
            None
        }
    }

    /// The count of whole seconds since the epoch at this instant.
    pub fn epoch_seconds(&self) -> (r: i64)
        requires
            self.wf(),
        ensures
            r == self@ / 1000,
    {
        self.millis / 1000
    }

    /// The instant with the given count of seconds since the epoch, if
    /// representable.
    pub fn from_epoch_seconds(seconds: i64) -> (r: Option<Instant>)
        ensures
            r is Some <==> 0 <= seconds * 1000 <= MAX_INSTANT_MS,
            r matches Some(i) ==> i@ == seconds * 1000 && i.wf(),
    {
        if 0 <= seconds && seconds <= MAX_INSTANT_MS / 1000 {
            Some(Instant { millis: seconds * 1000 })
        } else {
            None
        }
    }
}

} // verus!
