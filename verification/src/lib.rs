//! Dateless: a calendar-events library.
//!
//! Events occupy a `Period` (an all-day date range or a precise instant
//! range), may repeat on a `Cyclicity` cadence (daily, weekly, monthly or
//! annual), and may carry exception instants that suppress single
//! occurrences.  A `Calendar` answers, for a query date, which occurrence
//! of each event falls on that date.
//!
//! Dates are civil (proleptic Gregorian) calendar dates in a single fixed
//! timezone, represented by their day number counted from 1970-01-01;
//! instants are milliseconds counted from 1970-01-01 00:00:00.

pub mod calendar;
pub mod codec;
pub mod cyclicity;
pub mod date;
pub mod error;
pub mod event;
pub mod period;

pub use calendar::Calendar;
pub use codec::{from_date_into_string, from_string_into_date};
pub use cyclicity::{AnnualCycle, Cyclicity, DailyCycle, MonthlyCycle, WeeklyCycle};
pub use date::{Date, Instant};
pub use error::CalendarError;
pub use event::{Event, EventOccurance, EventPartial};
pub use period::{Period, StartEnd, WholeDays};
