//! Events and their occurrences.
//!
//! An event has an anchor period, an optional recurrence cadence and a set
//! of exception instants.  `get_occurrence_at` resolves the event against
//! a query date: the anchor itself when it contains the date, otherwise
//! the cadence's projection when the anchor has already started; an
//! occurrence whose start instant equals an exception instant is
//! suppressed.

use vstd::prelude::*;
use crate::cyclicity::Cyclicity;
use crate::date::{Date, Instant};
use crate::error::CalendarError;
use crate::period::{Period, StartEnd, WholeDays};

verus! {

/// A calendar event: an anchor period, an optional recurrence cadence,
/// and exception instants that suppress single occurrences.
#[derive(Debug)]
pub struct Event {
    pub name: String,
    pub description: Option<String>,
    pub cyclicity: Option<Cyclicity>,
    pub exceptions: Vec<Instant>,
    pub period: Period,
}

/// A resolved occurrence of an event on a queried day.
#[derive(Debug)]
pub struct EventOccurance {
    pub name: String,
    pub description: Option<String>,
    pub period: Period,
}

/// The abstract content of an occurrence: the texts as character
/// sequences, and the concrete period it occupies.
pub struct OccurrenceView {
    pub name: Seq<char>,
    pub description: Option<Seq<char>>,
    pub period: Period,
}

impl View for EventOccurance {
    type V = OccurrenceView;

    open spec fn view(&self) -> OccurrenceView {
        OccurrenceView {
            name: self.name@,
            description: self.description.deep_view(),
            period: self.period,
        }
    }
}

impl Event {
    pub open spec fn wf(self) -> bool {
        self.period.wf()
    }

    /// The candidate period of this event on date `d`: the anchor period
    /// itself when it contains the date; otherwise, when the event recurs
    /// and the anchor has started before the date, the cadence's
    /// projection.
    pub open spec fn candidate_spec(self, d: Date) -> Option<Period> {
        if self.period.contains_day(d@) {
            Some(self.period)
        } else if self.cyclicity is Some && self.period.starts_before_day(d@) {
            self.cyclicity->Some_0.same_period_spec(self.period, d)
        } else {
            None
        }
    }

    /// Whether some exception instant equals the candidate period's start
    /// instant exactly.
    pub open spec fn is_suppressed(self, p: Period) -> bool {
        exists|i: int| 0 <= i < self.exceptions@.len() && self.exceptions@[i]@ == p.start_ms()
    }

    /// The occurrence this event produces on date `d`, by content: `None`
    /// when no candidate period exists or the candidate is suppressed by
    /// an exception.
    pub open spec fn occurrence_view_at(self, d: Date) -> Option<OccurrenceView> {
        match self.candidate_spec(d) {
            None => None,
            Some(p) => if self.is_suppressed(p) {
                None
            } else {
                Some(
                    OccurrenceView {
                        name: self.name@,
                        description: self.description.deep_view(),
                        period: p,
                    },
                )
            },
        }
    }

    /// Whether a projected occurrence may exist at `date`: the event
    /// recurs and its anchor period starts before the date's day.
    pub fn may_any_next_period_contains(&self, date: Date) -> (r: bool)
        requires
            self.wf(),
            date.wf(),
        ensures
            r == (self.cyclicity is Some && self.period.starts_before_day(date@)),
    {
        self.cyclicity.is_some() && self.period.starts_before(date)
    }

    fn create_occurrence(&self, period: Period) -> (r: EventOccurance)
        ensures
            r@.name == self.name@,
            r@.description == self.description.deep_view(),
            r@.period == period,
    {
        let name: String = String::from_str(self.name.as_str());
        let description: Option<String> = match &self.description {
            Some(s) => Some(String::from_str(s.as_str())),
            None => None,
        };
        EventOccurance { name, description, period }
    }

    /// The occurrence of this event on the given date, if the anchor
    /// period or the recurrence cadence places one there and no exception
    /// instant suppresses it.
    pub fn get_occurrence_at(&self, date: Date) -> (r: Option<EventOccurance>)
        requires
            self.wf(),
            date.wf(),
        ensures
            match self.occurrence_view_at(date) {
                None => r is None,
                Some(v) => r matches Some(o) && o@ == v,
            },
    {
        let candidate: Option<Period> = if self.period.contains(date) {
            Some(self.period)
        } else if self.may_any_next_period_contains(date) {
            match &self.cyclicity {
                Some(value) => value.same_period_at(&self.period, date),
                None => None,
            }
        } else {
            None
        };
        let period: Period = match candidate {
            Some(p) => p,
            None => {
                return None;
            },
        };
        assert(period.wf());
        let start: Instant = period.get_date_time_start();
        let n: usize = self.exceptions.len();
        let mut i: usize = 0;
        while i < n
            invariant
                0 <= i <= n,
                n == self.exceptions@.len(),
                start@ == period.start_ms(),
                self.candidate_spec(date) == Some(period),
                forall|j: int| 0 <= j < i ==> self.exceptions@[j]@ != period.start_ms(),
            decreases n - i,
        {
            if self.exceptions[i].millis == start.millis {
                proof {
                    assert(self.exceptions@[i as int]@ == period.start_ms());
                }
                return None;
            }
            i = i + 1;
        }
        Some(self.create_occurrence(period))
    }
}

/// An event under construction: every field optional, filled by the
/// builder methods and closed by `complete`.
#[derive(Debug)]
pub struct EventPartial {
    pub name: Option<String>,
    pub description: Option<String>,
    pub cyclicity: Option<Cyclicity>,
    pub exceptions: Option<Vec<Instant>>,
    pub period: Option<Period>,
}

/// The period an event falls back to when none was given: the whole first
/// representable day.
pub open spec fn default_period() -> Period {
    Period::WholeDays(WholeDays(Date { days: 0 }, Date { days: 1 }))
}

impl EventPartial {
    /// A fresh partial event with the given name and nothing else set.
    pub fn new(name: String) -> (r: EventPartial)
        ensures
            r.name == Some(name),
            r.description is None,
            r.cyclicity is None,
            r.exceptions is None,
            r.period is None,
    {
        EventPartial { name: Some(name), description: None, cyclicity: None, exceptions: None, period: None }
    }

    /// The same partial event with its description set.
    pub fn with_description(self, description: String) -> (r: EventPartial)
        ensures
            r == (EventPartial { description: Some(description), ..self }),
    {
        EventPartial { description: Some(description), ..self }
    }

    /// The same partial event with its recurrence cadence set.
    pub fn with_cyclicity(self, cyclicity: Cyclicity) -> (r: EventPartial)
        ensures
            r == (EventPartial { cyclicity: Some(cyclicity), ..self }),
    {
        EventPartial { cyclicity: Some(cyclicity), ..self }
    }

    /// The same partial event recurring daily.
    pub fn daily(self) -> (r: EventPartial)
        ensures
            r == (EventPartial {
                cyclicity: Some(Cyclicity::Daily(crate::cyclicity::DailyCycle)),
                ..self
            }),
    {
        self.with_cyclicity(Cyclicity::Daily(crate::cyclicity::DailyCycle))
    }

    /// The same partial event recurring weekly.
    pub fn weekly(self) -> (r: EventPartial)
        ensures
            r == (EventPartial {
                cyclicity: Some(Cyclicity::Weekly(crate::cyclicity::WeeklyCycle)),
                ..self
            }),
    {
        self.with_cyclicity(Cyclicity::Weekly(crate::cyclicity::WeeklyCycle))
    }

    /// The same partial event recurring monthly.
    pub fn monthly(self) -> (r: EventPartial)
        ensures
            r == (EventPartial {
                cyclicity: Some(Cyclicity::Monthly(crate::cyclicity::MonthlyCycle)),
                ..self
            }),
    {
        self.with_cyclicity(Cyclicity::Monthly(crate::cyclicity::MonthlyCycle))
    }

    /// The same partial event recurring annually.
    pub fn annual(self) -> (r: EventPartial)
        ensures
            r == (EventPartial {
                cyclicity: Some(Cyclicity::Annual(crate::cyclicity::AnnualCycle)),
                ..self
            }),
    {
        self.with_cyclicity(Cyclicity::Annual(crate::cyclicity::AnnualCycle))
    }

    /// The same partial event with its exception instants set.
    pub fn with_exceptions(self, exceptions: Vec<Instant>) -> (r: EventPartial)
        ensures
            r == (EventPartial { exceptions: Some(exceptions), ..self }),
    {
        EventPartial { exceptions: Some(exceptions), ..self }
    }

    /// The same partial event with its anchor period set.
    pub fn with_period(self, period: Period) -> (r: EventPartial)
        requires
            period.wf(),
        ensures
            r == (EventPartial { period: Some(period), ..self }),
    {
        EventPartial { period: Some(period), ..self }
    }

    /// The same partial event anchored to the precise instant range
    /// `from`..=`to`; a range whose end precedes its start is rejected.
    pub fn from_to(self, from: Instant, to: Instant) -> (r: Result<EventPartial, CalendarError>)
        requires
            from.wf(),
            to.wf(),
        ensures
            r is Ok <==> from@ <= to@,
            r matches Ok(p) ==> p == (EventPartial {
                period: Some(Period::StartEnd(StartEnd(from, to))),
                ..self
            }),
            r matches Err(e) ==> e == CalendarError::InvalidRange,
    {
        match Period::from_to(from, to) {
            Ok(p) => Ok(self.with_period(p)),
            Err(e) => Err(e),
        }
    }

    /// The same partial event anchored to the all-day date range
    /// `from`..=`to`; a range whose end precedes its start is rejected.
    pub fn whole_days(self, from: Date, to: Date) -> (r: Result<EventPartial, CalendarError>)
        requires
            from.wf(),
            to.wf(),
        ensures
            r is Ok <==> from@ <= to@,
            r matches Ok(p) ==> p == (EventPartial {
                period: Some(Period::WholeDays(WholeDays(from, to))),
                ..self
            }),
            r matches Err(e) ==> e == CalendarError::InvalidRange,
    {
        match Period::whole_days(from, to) {
            Ok(p) => Ok(self.with_period(p)),
            Err(e) => Err(e),
        }
    }

    /// The same partial event anchored to the single all-day date
    /// `from_to`.
    pub fn whole_day(self, from_to: Date) -> (r: EventPartial)
        requires
            from_to.wf(),
        ensures
            r == (EventPartial {
                period: Some(Period::WholeDays(WholeDays(from_to, from_to))),
                ..self
            }),
    {
        EventPartial { period: Some(Period::WholeDays(WholeDays(from_to, from_to))), ..self }
    }

    /// The finished event: every unset field falls back to its default —
    /// an empty name and description, no cadence, no exceptions, and the
    /// constant `default_period` (the whole first representable day) as
    /// the period.  To anchor the fallback period to the current day
    /// instead, pass it to `complete_at`: the library never reads the
    /// wall clock itself.
    pub fn complete(self) -> (r: Event)
        requires
            self.period matches Some(p) ==> p.wf(),
        ensures
            match self.name {
                Some(n) => r.name == n,
                None => r.name@ == Seq::<char>::empty(),
            },
            r.description == self.description,
            r.cyclicity == self.cyclicity,
            match self.exceptions {
                Some(e) => r.exceptions == e,
                None => r.exceptions@ == Seq::<Instant>::empty(),
            },
            match self.period {
                Some(p) => r.period == p,
                None => r.period == default_period(),
            },
            r.wf(),
    {
        let name: String = match self.name {
            Some(n) => n,
            None => String::new(),
        };
        let exceptions: Vec<Instant> = match self.exceptions {
            Some(e) => e,
            None => Vec::new(),
        };
        let period: Period = match self.period {
            Some(p) => p,
            None => Period::WholeDays(WholeDays(Date { days: 0 }, Date { days: 1 })),
        };
        Event { name, description: self.description, cyclicity: self.cyclicity, exceptions, period }
    }

    /// The finished event, with the current day passed in explicitly:
    /// every unset field falls back as in `complete`, except that a
    /// missing period falls back to the all-day period covering `today`
    /// and the following day.
    pub fn complete_at(self, today: Date) -> (r: Event)
        requires
            today.wf(),
            self.period matches Some(p) ==> p.wf(),
        ensures
            match self.name {
                Some(n) => r.name == n,
                None => r.name@ == Seq::<char>::empty(),
            },
            r.description == self.description,
            r.cyclicity == self.cyclicity,
            match self.exceptions {
                Some(e) => r.exceptions == e,
                None => r.exceptions@ == Seq::<Instant>::empty(),
            },
            match self.period {
                Some(p) => r.period == p,
                None => r.period == Period::WholeDays(
                    WholeDays(today, Date { days: (today@ + 1) as i64 }),
                ),
            },
            r.wf(),
    {
        let fallback: Period = Period::WholeDays(
            WholeDays(today, Date { days: today.days + 1 }),
        );
        let name: String = match self.name {
            Some(n) => n,
            None => String::new(),
        };
        let exceptions: Vec<Instant> = match self.exceptions {
            Some(e) => e,
            None => Vec::new(),
        };
        let period: Period = match self.period {
            Some(p) => p,
            None => fallback,
        };
        Event { name, description: self.description, cyclicity: self.cyclicity, exceptions, period }
    }
}

/// Exception suppression: when the candidate period's start instant
/// equals an exception instant the event yields nothing on that date, and
/// when it equals none of them the occurrence stands.
pub proof fn lemma_exception_suppression(e: Event, d: Date)
    requires
        e.wf(),
        d.wf(),
    ensures
        match e.candidate_spec(d) {
            None => e.occurrence_view_at(d) is None,
            Some(p) => {
                &&& e.is_suppressed(p) <==> (exists|i: int|
                    0 <= i < e.exceptions@.len() && e.exceptions@[i]@ == p.start_ms())
                &&& e.is_suppressed(p) ==> e.occurrence_view_at(d) is None
                &&& !e.is_suppressed(p) ==> e.occurrence_view_at(d) == Some(
                    OccurrenceView {
                        name: e.name@,
                        description: e.description.deep_view(),
                        period: p,
                    },
                )
            },
        },
{
}

} // verus!
