//! Schedule configuration records and the value codecs they rely on: a signed
//! time of day and the two spellings of a weekday.
pub mod schema;
pub mod time;
pub mod weekday;

pub use schema::{Class, CsesConfig, Schedule, Subject, WeekType};
pub use time::{Time, TimeError};
pub use weekday::{EnableDay, NumbericWeekday, ShortWeekday, Weekday};
