//! The time interval an event occupies: either a range of whole days or a
//! precise range of instants.
//!
//! A period answers containment and ordering questions against a query
//! date, can be relocated to a new start date without changing its
//! duration, and exposes the weekday, day-of-month and month spans that
//! the recurrence rules project against.  Every answer is a function of
//! the period and the date alone: the wall clock plays no part, so the
//! same query always gets the same answer.

use vstd::prelude::*;
use crate::date::{
    date_to_days, day_of_month_of_days, days_from_ymd, days_in_month, days_in_month_exec,
    month_of_days, weekday_of_day, year_of_days, ymd_from_days, Date, Instant, DAY_MS,
    MAX_DAY, MAX_INSTANT_MS,
};
use crate::error::CalendarError;

verus! {

use vstd::arithmetic::div_mod::lemma_mod_bound;

/// An all-day period: a closed range of dates.  The end may run past the
/// last representable date when a long period is relocated near it.
#[derive(Clone, Copy, Debug, PartialEq, Eq, Structural)]
pub struct WholeDays(pub Date, pub Date);

/// A precise period: a closed range of instants.  The end may run past
/// the last representable instant when a long period is relocated near it.
#[derive(Clone, Copy, Debug, PartialEq, Eq, Structural)]
pub struct StartEnd(pub Instant, pub Instant);

/// The time interval an event's occurrence occupies.
#[derive(Clone, Copy, Debug, PartialEq, Eq, Structural)]
pub enum Period {
    WholeDays(WholeDays),
    StartEnd(StartEnd),
}

impl WholeDays {
    /// The start is a representable date, the end does not precede it,
    /// and the duration is at most the whole representable range.
    pub open spec fn wf(self) -> bool {
        &&& self.0.wf()
        &&& self.0@ <= self.1@
        &&& self.1@ - self.0@ <= MAX_DAY
    }
}

impl StartEnd {
    /// The start is a representable instant, the end does not precede it,
    /// and the duration is at most the whole representable range.
    pub open spec fn wf(self) -> bool {
        &&& self.0.wf()
        &&& self.0@ <= self.1@
        &&& self.1@ - self.0@ <= MAX_INSTANT_MS
    }
}

impl Period {
    pub open spec fn wf(self) -> bool {
        match self {
            Period::WholeDays(w) => w.wf(),
            Period::StartEnd(se) => se.wf(),
        }
    }

    /// The instant the period starts at, in ms (midnight for an all-day
    /// period).
    pub open spec fn start_ms(self) -> int {
        match self {
            Period::WholeDays(w) => w.0@ * DAY_MS,
            Period::StartEnd(se) => se.0@,
        }
    }

    /// The instant the period ends at, in ms (the closing midnight for an
    /// all-day period).
    pub open spec fn end_ms(self) -> int {
        match self {
            Period::WholeDays(w) => w.1@ * DAY_MS,
            Period::StartEnd(se) => se.1@,
        }
    }

    /// The exact duration the period spans, in ms.
    pub open spec fn duration_ms(self) -> int {
        self.end_ms() - self.start_ms()
    }

    /// The day number of the day the period starts on.
    pub open spec fn start_day_num(self) -> int {
        match self {
            Period::WholeDays(w) => w.0@,
            Period::StartEnd(se) => se.0@ / (DAY_MS as int),
        }
    }

    /// The day number of the day the period ends on.
    pub open spec fn end_day_num(self) -> int {
        match self {
            Period::WholeDays(w) => w.1@,
            Period::StartEnd(se) => se.1@ / (DAY_MS as int),
        }
    }

    /// Whether the period is present on the day with number `day`: an
    /// all-day range contains the day when it lies inside the range,
    /// inclusive on both ends; a precise range is present when some
    /// instant of the day, midnight to closing midnight inclusive, falls
    /// inside it.
    pub open spec fn contains_day(self, day: int) -> bool {
        match self {
            Period::WholeDays(w) => w.0@ <= day <= w.1@,
            Period::StartEnd(se) => se.0@ <= (day + 1) * DAY_MS && se.1@ >= day * DAY_MS,
        }
    }

    /// Whether the period starts strictly before the midnight that opens
    /// the day with number `day`.
    pub open spec fn starts_before_day(self, day: int) -> bool {
        self.start_ms() < day * DAY_MS
    }

    /// The period moved so that it starts on date `d`, keeping its
    /// duration, and for a precise range its time of day.
    pub open spec fn relocate_spec(self, d: Date) -> Period {
        match self {
            Period::WholeDays(w) => Period::WholeDays(
                WholeDays(d, Date { days: (d@ + (w.1@ - w.0@)) as i64 }),
            ),
            Period::StartEnd(se) => {
                let ns = d@ * DAY_MS + se.0@ % (DAY_MS as int);
                Period::StartEnd(
                    StartEnd(
                        Instant { millis: ns as i64 },
                        Instant { millis: (ns + (se.1@ - se.0@)) as i64 },
                    ),
                )
            },
        }
    }

    /// An all-day period over the closed date range `from`..=`to`; a range
    /// whose end precedes its start is rejected.
    pub fn whole_days(from: Date, to: Date) -> (r: Result<Period, CalendarError>)
        requires
            from.wf(),
            to.wf(),
        ensures
            r matches Ok(p) ==> p == Period::WholeDays(WholeDays(from, to)) && p.wf(),
            r is Ok <==> from@ <= to@,
            r matches Err(e) ==> e == CalendarError::InvalidRange,
    {
        if from.days <= to.days {
            Ok(Period::WholeDays(WholeDays(from, to)))
        } else {
            Err(CalendarError::InvalidRange)
        }
    }

    /// A precise period over the closed instant range `start`..=`end`; a
    /// range whose end precedes its start is rejected.
    pub fn from_to(start: Instant, end: Instant) -> (r: Result<Period, CalendarError>)
        requires
            start.wf(),
            end.wf(),
        ensures
            r matches Ok(p) ==> p == Period::StartEnd(StartEnd(start, end)) && p.wf(),
            r is Ok <==> start@ <= end@,
            r matches Err(e) ==> e == CalendarError::InvalidRange,
    {
        if start.millis <= end.millis {
            Ok(Period::StartEnd(StartEnd(start, end)))
        } else {
            Err(CalendarError::InvalidRange)
        }
    }

    /// Whether the period is present on the given date.
    pub fn contains(&self, date: Date) -> (r: bool)
        requires
            self.wf(),
            date.wf(),
        ensures
            r == self.contains_day(date@),
    {
        match self {
            Period::WholeDays(w) => w.0.days <= date.days && date.days <= w.1.days,
            Period::StartEnd(se) => {
                se.0.millis <= (date.days + 1) * DAY_MS && se.1.millis >= date.days * DAY_MS
            },
        }
    }

    /// Whether the period starts strictly before the start of the given
    /// date's day.
    pub fn starts_before(&self, date: Date) -> (r: bool)
        requires
            self.wf(),
            date.wf(),
        ensures
            r == self.starts_before_day(date@),
    {
        match self {
            Period::WholeDays(w) => w.0.days < date.days,
            Period::StartEnd(se) => se.0.millis < date.days * DAY_MS,
        }
    }

    /// The instant the period starts at (midnight for an all-day period).
    pub fn get_date_time_start(&self) -> (r: Instant)
        requires
            self.wf(),
        ensures
            r@ == self.start_ms(),
            r.wf(),
    {
        match self {
            Period::WholeDays(w) => Instant { millis: w.0.days * DAY_MS },
            Period::StartEnd(se) => se.0,
        }
    }

    /// A new period of the same duration whose start is moved to `date`
    /// (keeping the time of day for a precise range).  The original
    /// period is left untouched.
    pub fn with_new_start(&self, date: Date) -> (r: Period)
        requires
            self.wf(),
            date.wf(),
        ensures
            r == self.relocate_spec(date),
            r.wf(),
    {
        match self {
            Period::WholeDays(w) => {
                let len: i64 = w.1.days - w.0.days;
                Period::WholeDays(WholeDays(date, Date { days: date.days + len }))
            },
            Period::StartEnd(se) => {
                proof {
                    lemma_mod_bound(se.0@, DAY_MS as int);
                }
                let tod: i64 = se.0.millis % DAY_MS;
                let dur: i64 = se.1.millis - se.0.millis;
                let ns: i64 = date.days * DAY_MS + tod;
                Period::StartEnd(
                    StartEnd(Instant { millis: ns }, Instant { millis: ns + dur }),
                )
            },
        }
    }

    fn start_day_exec(&self) -> (r: i64)
        requires
            self.wf(),
        ensures
            r == self.start_day_num(),
            0 <= r <= MAX_DAY + 1,
    {
        match self {
            Period::WholeDays(w) => w.0.days,
            Period::StartEnd(se) => se.0.millis / DAY_MS,
        }
    }

    fn end_day_exec(&self) -> (r: i64)
        requires
            self.wf(),
        ensures
            r == self.end_day_num(),
            0 <= r,
    {
        match self {
            Period::WholeDays(w) => w.1.days,
            Period::StartEnd(se) => se.1.millis / DAY_MS,
        }
    }

    /// The weekdays (1 = Monday .. 7 = Sunday) of the days the period
    /// starts and ends on.
    pub fn as_weekdays(&self) -> (r: (u32, u32))
        requires
            self.wf(),
        ensures
            r.0 == weekday_of_day(self.start_day_num()),
            r.1 == weekday_of_day(self.end_day_num()),
            1 <= r.0 <= 7,
            1 <= r.1 <= 7,
    {
        let s: i64 = self.start_day_exec();
        let e: i64 = self.end_day_exec();
        ((((s + 3) % 7) + 1) as u32, (((e + 3) % 7) + 1) as u32)
    }

    /// The days of the month (1..=31) of the days the period starts and
    /// ends on.
    pub fn as_days_of_month(&self) -> (r: (u32, u32))
        requires
            self.wf(),
        ensures
            r.0 == day_of_month_of_days(self.start_day_num()),
            r.1 == day_of_month_of_days(self.end_day_num()),
            1 <= r.0 <= 31,
            1 <= r.1 <= 31,
    {
        let (_sy, _sm, sd): (i64, i64, i64) = ymd_from_days(self.start_day_exec());
        let (_ey, _em, ed): (i64, i64, i64) = ymd_from_days(self.end_day_exec());
        (sd as u32, ed as u32)
    }

    /// The months (1..=12) of the days the period starts and ends on.
    pub fn as_months(&self) -> (r: (u32, u32))
        requires
            self.wf(),
        ensures
            r.0 == month_of_days(self.start_day_num()),
            r.1 == month_of_days(self.end_day_num()),
            1 <= r.0 <= 12,
            1 <= r.1 <= 12,
    {
        let (_sy, sm, _sd): (i64, i64, i64) = ymd_from_days(self.start_day_exec());
        let (_ey, em, _ed): (i64, i64, i64) = ymd_from_days(self.end_day_exec());
        (sm as u32, em as u32)
    }

    /// The start date re-expressed with its month replaced by `month`,
    /// keeping year and day of month.  `None` when that is not a valid
    /// representable date (a day of month the target month does not have,
    /// a month outside 1..=12, or a start day past the last representable
    /// year).
    pub fn with_new_month(&self, month: u32) -> (r: Option<Date>)
        requires
            self.wf(),
        ensures
            r is Some <==> {
                let y = year_of_days(self.start_day_num());
                let dom = day_of_month_of_days(self.start_day_num());
                1 <= month <= 12 && y <= 9999 && dom <= days_in_month(y, month as int)
            },
            r matches Some(dt) ==> dt@ == date_to_days(
                year_of_days(self.start_day_num()),
                month as int,
                day_of_month_of_days(self.start_day_num()),
            ) && dt.wf(),
    {
        let (y, _m, d): (i64, i64, i64) = ymd_from_days(self.start_day_exec());
        if month < 1 || month > 12 || y > 9999 {
            return None;
        }
        if d > days_in_month_exec(y, month as i64) {
            return None;
        }
        Some(Date { days: days_from_ymd(y, month as i64, d) })
    }
}

/// Relocation lands on the target date: the relocated period always
/// contains the date it was relocated to.
pub proof fn lemma_relocate_contains(p: Period, d: Date)
    requires
        p.wf(),
        d.wf(),
    ensures
        p.relocate_spec(d).wf(),
        p.relocate_spec(d).contains_day(d@),
{
    match p {
        Period::WholeDays(_w) => {},
        Period::StartEnd(se) => {
            lemma_mod_bound(se.0@, DAY_MS as int);
        },
    }
}

/// A relocated period starts on the day it was relocated to.
pub proof fn lemma_relocate_start_day(p: Period, d: Date)
    requires
        p.wf(),
        d.wf(),
    ensures
        p.relocate_spec(d).start_day_num() == d@,
        p.relocate_spec(d) is WholeDays <==> p is WholeDays,
{
    match p {
        Period::WholeDays(_w) => {},
        Period::StartEnd(se) => {
            lemma_mod_bound(se.0@, DAY_MS as int);
            let tod: int = se.0@ % (DAY_MS as int);
            vstd::arithmetic::div_mod::lemma_fundamental_div_mod_converse(
                d@ * DAY_MS + tod,
                DAY_MS as int,
                d@,
                tod,
            );
        },
    }
}

/// Relocation preserves the exact duration of the period.
pub proof fn lemma_relocate_preserves_duration(p: Period, d: Date)
    requires
        p.wf(),
        d.wf(),
    ensures
        p.relocate_spec(d).duration_ms() == p.duration_ms(),
        p.relocate_spec(d).start_ms() == d@ * DAY_MS + p.start_ms() % (DAY_MS as int),
{
    match p {
        Period::WholeDays(w) => {
            lemma_mod_bound(w.0@ * DAY_MS, DAY_MS as int);
            vstd::arithmetic::div_mod::lemma_mod_multiples_basic(w.0@, DAY_MS as int);
        },
        Period::StartEnd(se) => {
            lemma_mod_bound(se.0@, DAY_MS as int);
        },
    }
}

} // verus!
