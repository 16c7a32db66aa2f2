//! The records of a schedule configuration document.
use vstd::prelude::*;
use crate::time::Time;
use crate::weekday::Weekday;

verus! {

/// A subject that classes refer to by name.
#[derive(Debug, Clone, PartialEq)]
pub struct Subject {
    /// The full name.
    pub name: String,
    pub simplified_name: Option<String>,
    pub teacher: Option<String>,
    pub room: Option<String>,
}

/// One class of a schedule: a subject between two times. Nothing here
/// requires that it starts before it ends.
#[derive(Debug, Clone, PartialEq)]
pub struct Class {
    /// The name of a `Subject`.
    pub subject: String,
    pub start_time: Time,
    pub end_time: Time,
}

/// Which weeks a schedule is in force: every week, odd weeks or even weeks.
#[derive(Debug, Clone, Copy, PartialEq, Eq, Structural)]
pub enum WeekType {
    All,
    Odd,
    Even,
}

/// The classes of one weekday, in force in the weeks that `weeks` selects.
#[derive(Debug, Clone, PartialEq)]
pub struct Schedule {
    pub name: String,
    pub enable_day: Weekday,
    pub weeks: WeekType,
    /// In the order they are shown.
    pub classes: Vec<Class>,
}

/// A whole configuration document.
#[derive(Debug, Clone, PartialEq)]
pub struct CsesConfig {
    /// The revision of the schema that the document follows.
    pub version: u32,
    pub subjects: Vec<Subject>,
    pub schedules: Vec<Schedule>,
}

} // verus!
