//! Recurrence cadences: how a period repeats over the calendar.
//!
//! Each cadence answers `same_period_at(reference, date)`: either the rule
//! produces an occurrence anchored at that date — then the reference
//! period relocated there is returned — or it does not, and the answer is
//! `None`.  The weekly and monthly rules project by the reference's
//! weekday span and day-of-month span; spans that straddle a week or
//! month boundary are not representable and never match, a known
//! restriction of the span-based check that is kept as it is.

use vstd::prelude::*;
use crate::date::{
    date_to_days, day_of_month_of_days, days_before_month, days_before_year, days_in_month,
    lemma_day_number_reconstruct, lemma_days_before_month_nonneg,
    lemma_days_before_year_monotone, month_of_days, weekday_of_day, year_of_days,
    ymd_from_days, Date, MAX_DAY,
};
use crate::error::CalendarError;
use crate::period::{lemma_relocate_contains, Period};

verus! {

/// The reference period repeats every day.
#[derive(Clone, Copy, Debug, PartialEq, Eq, Structural)]
pub struct DailyCycle;

/// The reference period repeats every week, on its weekday span.
#[derive(Clone, Copy, Debug, PartialEq, Eq, Structural)]
pub struct WeeklyCycle;

/// The reference period repeats every month, on its day-of-month span.
#[derive(Clone, Copy, Debug, PartialEq, Eq, Structural)]
pub struct MonthlyCycle;

/// The reference period repeats every year, on its month span.
#[derive(Clone, Copy, Debug, PartialEq, Eq, Structural)]
pub struct AnnualCycle;

/// The recurrence cadence of an event.
#[derive(Clone, Copy, Debug, PartialEq, Eq, Structural)]
pub enum Cyclicity {
    Daily(DailyCycle),
    Weekly(WeeklyCycle),
    Monthly(MonthlyCycle),
    Annual(AnnualCycle),
}

/// A daily cadence matches every date: the reference simply relocated.
pub open spec fn daily_same_period(p: Period, d: Date) -> Option<Period> {
    Some(p.relocate_spec(d))
}

/// A weekly cadence matches when the date's weekday lies in the
/// reference's weekday span; the reference is relocated to the date
/// shifted back onto the span's starting weekday.  The shift must not
/// run off the first representable week.
pub open spec fn weekly_same_period(p: Period, d: Date) -> Option<Period> {
    let sw = weekday_of_day(p.start_day_num());
    let ew = weekday_of_day(p.end_day_num());
    let w = weekday_of_day(d@);
    if sw <= w <= ew && d@ - (w - sw) >= 0 {
        Some(p.relocate_spec(Date { days: (d@ - (w - sw)) as i64 }))
    } else {
        None
    }
}

/// A monthly cadence matches when the date's day of month lies in the
/// reference's day-of-month span; the reference is relocated to the date
/// shifted back onto the span's starting day of month.
pub open spec fn monthly_same_period(p: Period, d: Date) -> Option<Period> {
    let sdom = day_of_month_of_days(p.start_day_num());
    let edom = day_of_month_of_days(p.end_day_num());
    let dm = day_of_month_of_days(d@);
    if sdom <= dm <= edom {
        Some(p.relocate_spec(Date { days: (d@ - (dm - sdom)) as i64 }))
    } else {
        None
    }
}

/// An annual cadence first requires the date's day of month to lie in the
/// reference's day-of-month span, then re-expresses the reference's start
/// date in the date's month (which must be a representable date), and
/// matches when the date's month lies in the reference's month span; the
/// reference is relocated to that re-expressed date.
pub open spec fn annual_same_period(p: Period, d: Date) -> Option<Period> {
    let sm = month_of_days(p.start_day_num());
    let em = month_of_days(p.end_day_num());
    let sdom = day_of_month_of_days(p.start_day_num());
    let edom = day_of_month_of_days(p.end_day_num());
    let y = year_of_days(p.start_day_num());
    let dm = day_of_month_of_days(d@);
    let m = month_of_days(d@);
    if !(sdom <= dm <= edom) {
        None
    } else if !(1 <= m <= 12 && y <= 9999 && sdom <= days_in_month(y, m)) {
        None
    } else if sm <= m <= em {
        Some(p.relocate_spec(Date { days: date_to_days(y, m, sdom) as i64 }))
    } else {
        None
    }
}

impl DailyCycle {
    /// The occurrence of `same_period` that a daily cadence anchors at
    /// `at_date`: always the period relocated there.
    pub fn same_period_at(&self, same_period: &Period, at_date: Date) -> (r: Option<Period>)
        requires
            same_period.wf(),
            at_date.wf(),
        ensures
            r == daily_same_period(*same_period, at_date),
            r matches Some(np) ==> np.wf(),
    {
        Some(same_period.with_new_start(at_date))
    }
}

impl WeeklyCycle {
    /// The occurrence of `same_period` that a weekly cadence anchors at
    /// `at_date`, if its weekday falls in the reference's weekday span.
    pub fn same_period_at(&self, same_period: &Period, at_date: Date) -> (r: Option<Period>)
        requires
            same_period.wf(),
            at_date.wf(),
        ensures
            r == weekly_same_period(*same_period, at_date),
            r matches Some(np) ==> np.wf(),
    {
        let (starting_weekday, ending_weekday): (u32, u32) = same_period.as_weekdays();
        let value: u32 = at_date.weekday();
        if value >= starting_weekday && value <= ending_weekday {
            let day_difference: i64 = (value - starting_weekday) as i64;
            if at_date.days >= day_difference {
                let shifted: Date = Date { days: at_date.days - day_difference };
                Some(same_period.with_new_start(shifted))
            } else {
                None
            }
        } else {
            None
        }
    }
}

impl MonthlyCycle {
    /// The occurrence of `same_period` that a monthly cadence anchors at
    /// `at_date`, if its day of month falls in the reference's
    /// day-of-month span.
    pub fn same_period_at(&self, same_period: &Period, at_date: Date) -> (r: Option<Period>)
        requires
            same_period.wf(),
            at_date.wf(),
        ensures
            r == monthly_same_period(*same_period, at_date),
            r matches Some(np) ==> np.wf(),
    {
        let (starting_month_day, ending_month_day): (u32, u32) = same_period.as_days_of_month();
        let (_y, _m, dm): (i64, i64, i64) = ymd_from_days(at_date.days);
        proof {
            lemma_days_before_year_monotone(1970, year_of_days(at_date@));
            lemma_days_before_month_nonneg(year_of_days(at_date@), month_of_days(at_date@));
        }
        if dm >= starting_month_day as i64 && dm <= ending_month_day as i64 {
            let day_difference: i64 = dm - starting_month_day as i64;
            let shifted: Date = Date { days: at_date.days - day_difference };
            Some(same_period.with_new_start(shifted))
        } else {
            None
        }
    }
}

impl AnnualCycle {
    /// The occurrence of `same_period` that an annual cadence anchors at
    /// `at_date`, if its day of month falls in the reference's
    /// day-of-month span and its month in the reference's month span.
    pub fn same_period_at(&self, same_period: &Period, at_date: Date) -> (r: Option<Period>)
        requires
            same_period.wf(),
            at_date.wf(),
        ensures
            r == annual_same_period(*same_period, at_date),
            r matches Some(np) ==> np.wf(),
    {
        let (starting_month, ending_month): (u32, u32) = same_period.as_months();
        let (starting_month_day, ending_month_day): (u32, u32) = same_period.as_days_of_month();
        let (_y, m, dm): (i64, i64, i64) = ymd_from_days(at_date.days);
        if dm < starting_month_day as i64 || dm > ending_month_day as i64 {
            return None;
        }
        let target: Option<Date> = same_period.with_new_month(m as u32);
        match target {
            None => None,
            Some(t) => {
                if m >= starting_month as i64 && m <= ending_month as i64 {
                    Some(same_period.with_new_start(t))
                } else {
                    None
                }
            },
        }
    }
}

impl Cyclicity {
    /// What `same_period_at` answers for this cadence.
    pub open spec fn same_period_spec(self, p: Period, d: Date) -> Option<Period> {
        match self {
            Cyclicity::Daily(_) => daily_same_period(p, d),
            Cyclicity::Weekly(_) => weekly_same_period(p, d),
            Cyclicity::Monthly(_) => monthly_same_period(p, d),
            Cyclicity::Annual(_) => annual_same_period(p, d),
        }
    }

    /// The occurrence of `same_period` that this cadence anchors at
    /// `at_date`, if any.
    pub fn same_period_at(&self, same_period: &Period, at_date: Date) -> (r: Option<Period>)
        requires
            same_period.wf(),
            at_date.wf(),
        ensures
            r == self.same_period_spec(*same_period, at_date),
            r matches Some(np) ==> np.wf(),
    {
        match self {
            Cyclicity::Daily(c) => c.same_period_at(same_period, at_date),
            Cyclicity::Weekly(c) => c.same_period_at(same_period, at_date),
            Cyclicity::Monthly(c) => c.same_period_at(same_period, at_date),
            Cyclicity::Annual(c) => c.same_period_at(same_period, at_date),
        }
    }

    /// Custom interval cadences (every N days, weeks, months or years,
    /// with end conditions) are declared by the data model but not
    /// implemented: asking for one fails fast instead of silently
    /// producing no occurrences.
    pub fn every_n_days(_n: u64) -> (r: Result<Cyclicity, CalendarError>)
        ensures
            r is Err,
            r matches Err(e) ==> e == CalendarError::NotImplemented,
    {
        Err(CalendarError::NotImplemented)
    }
}

/// Daily cyclicity always matches: for every reference period and date it
/// produces the reference relocated to that date, which contains it.
pub proof fn lemma_daily_always_matches(p: Period, d: Date)
    requires
        p.wf(),
        d.wf(),
    ensures
        daily_same_period(p, d) is Some,
        daily_same_period(p, d) matches Some(np) ==> np.wf() && np.contains_day(d@),
{
    lemma_relocate_contains(p, d);
}

/// The weekly gate: `same_period_at` answers `None` exactly when the
/// date's weekday falls outside the reference's weekday span (or the
/// shift would leave the representable range), and otherwise the
/// correctly shifted period.
pub proof fn lemma_weekly_span_gate(p: Period, d: Date)
    requires
        p.wf(),
        d.wf(),
    ensures
        weekly_same_period(p, d) is Some <==> {
            let sw = weekday_of_day(p.start_day_num());
            let ew = weekday_of_day(p.end_day_num());
            let w = weekday_of_day(d@);
            sw <= w <= ew && d@ - (w - sw) >= 0
        },
        weekly_same_period(p, d) matches Some(np) ==> {
            let sw = weekday_of_day(p.start_day_num());
            let w = weekday_of_day(d@);
            &&& np == p.relocate_spec(Date { days: (d@ - (w - sw)) as i64 })
            &&& np.wf()
            &&& np.start_day_num() == d@ - (w - sw)
            &&& np.duration_ms() == p.duration_ms()
        },
{
    let sw = weekday_of_day(p.start_day_num());
    let ew = weekday_of_day(p.end_day_num());
    let w = weekday_of_day(d@);
    if sw <= w <= ew && d@ - (w - sw) >= 0 {
        let sh = Date { days: (d@ - (w - sw)) as i64 };
        assert(sh.wf()) by {
            vstd::arithmetic::div_mod::lemma_mod_bound(p.start_day_num() + 3, 7);
            vstd::arithmetic::div_mod::lemma_mod_bound(d@ + 3, 7);
        }
        lemma_relocate_contains(p, sh);
        crate::period::lemma_relocate_start_day(p, sh);
        crate::period::lemma_relocate_preserves_duration(p, sh);
    }
}

/// The monthly gate: `same_period_at` answers `None` exactly when the
/// date's day of month falls outside the reference's day-of-month span,
/// and otherwise the correctly shifted period.
pub proof fn lemma_monthly_span_gate(p: Period, d: Date)
    requires
        p.wf(),
        d.wf(),
    ensures
        monthly_same_period(p, d) is Some <==> {
            let sdom = day_of_month_of_days(p.start_day_num());
            let edom = day_of_month_of_days(p.end_day_num());
            sdom <= day_of_month_of_days(d@) <= edom
        },
        monthly_same_period(p, d) matches Some(np) ==> {
            let sdom = day_of_month_of_days(p.start_day_num());
            let dm = day_of_month_of_days(d@);
            &&& np == p.relocate_spec(Date { days: (d@ - (dm - sdom)) as i64 })
            &&& np.wf()
            &&& np.start_day_num() == d@ - (dm - sdom)
            &&& np.duration_ms() == p.duration_ms()
        },
{
    let sdom = day_of_month_of_days(p.start_day_num());
    let edom = day_of_month_of_days(p.end_day_num());
    let dm = day_of_month_of_days(d@);
    if sdom <= dm <= edom {
        lemma_day_number_reconstruct(d@);
        lemma_days_before_year_monotone(1970, year_of_days(d@));
        lemma_days_before_month_nonneg(year_of_days(d@), month_of_days(d@));
        lemma_day_number_reconstruct(p.start_day_num());
        let sh = Date { days: (d@ - (dm - sdom)) as i64 };
        lemma_relocate_contains(p, sh);
        crate::period::lemma_relocate_start_day(p, sh);
        crate::period::lemma_relocate_preserves_duration(p, sh);
    }
}

/// The annual gate: `same_period_at` answers `None` exactly when the
/// date's day of month falls outside the reference's day-of-month span,
/// the reference's start cannot be re-expressed in the date's month, or
/// the date's month falls outside the reference's month span; and
/// otherwise the reference relocated to that re-expressed start date.
pub proof fn lemma_annual_span_gate(p: Period, d: Date)
    requires
        p.wf(),
        d.wf(),
    ensures
        annual_same_period(p, d) is Some <==> {
            let sm = month_of_days(p.start_day_num());
            let em = month_of_days(p.end_day_num());
            let sdom = day_of_month_of_days(p.start_day_num());
            let edom = day_of_month_of_days(p.end_day_num());
            let y = year_of_days(p.start_day_num());
            let m = month_of_days(d@);
            &&& sdom <= day_of_month_of_days(d@) <= edom
            &&& y <= 9999 && sdom <= days_in_month(y, m)
            &&& sm <= m <= em
        },
        annual_same_period(p, d) matches Some(np) ==> {
            let sdom = day_of_month_of_days(p.start_day_num());
            let y = year_of_days(p.start_day_num());
            let m = month_of_days(d@);
            &&& np == p.relocate_spec(Date { days: date_to_days(y, m, sdom) as i64 })
            &&& np.wf()
            &&& np.start_day_num() == date_to_days(y, m, sdom)
            &&& np.duration_ms() == p.duration_ms()
        },
{
    lemma_day_number_reconstruct(d@);
    lemma_day_number_reconstruct(p.start_day_num());
    let sm = month_of_days(p.start_day_num());
    let em = month_of_days(p.end_day_num());
    let sdom = day_of_month_of_days(p.start_day_num());
    let edom = day_of_month_of_days(p.end_day_num());
    let y = year_of_days(p.start_day_num());
    let m = month_of_days(d@);
    if sdom <= day_of_month_of_days(d@) <= edom && y <= 9999 && sdom <= days_in_month(y, m)
        && sm <= m <= em {
        crate::date::lemma_date_to_days_in_range(y, m, sdom);
        let sh = Date { days: date_to_days(y, m, sdom) as i64 };
        lemma_relocate_contains(p, sh);
        crate::period::lemma_relocate_start_day(p, sh);
        crate::period::lemma_relocate_preserves_duration(p, sh);
    }
}

} // verus!
