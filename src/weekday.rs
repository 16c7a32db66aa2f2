//! Days of the week, as the numbers 1 (Monday) to 7 (Sunday) or as the
//! three-letter names `mon` to `sun`.
use vstd::prelude::*;

verus! {

/// A day of the week written as its number, Monday = 1 to Sunday = 7.
#[derive(Debug, Clone, Copy, PartialEq, Eq, Structural)]
pub enum Weekday {
    Monday,
    Tuesday,
    Wednesday,
    Thursday,
    Friday,
    Saturday,
    Sunday,
}

/// A day of the week written as its number, Monday = 1 to Sunday = 7.
#[derive(Debug, Clone, Copy, PartialEq, Eq, Structural)]
pub enum NumbericWeekday {
    Monday,
    Tuesday,
    Wednesday,
    Thursday,
    Friday,
    Saturday,
    Sunday,
}

/// A day of the week written as its lower-case three-letter name, `mon` to `sun`.
#[derive(Debug, Clone, Copy, PartialEq, Eq, Structural)]
pub enum ShortWeekday {
    Monday,
    Tuesday,
    Wednesday,
    Thursday,
    Friday,
    Saturday,
    Sunday,
}

impl Weekday {
    /// The day's number: Monday is 1, Sunday is 7.
    pub open spec fn ordinal(self) -> int {
        match self {
            Weekday::Monday => 1,
            Weekday::Tuesday => 2,
            Weekday::Wednesday => 3,
            Weekday::Thursday => 4,
            Weekday::Friday => 5,
            Weekday::Saturday => 6,
            Weekday::Sunday => 7,
        }
    }

    pub fn number(&self) -> (r: u8)
        ensures
            r == self.ordinal(),
    {
        match self {
            Weekday::Monday => 1,
            Weekday::Tuesday => 2,
            Weekday::Wednesday => 3,
            Weekday::Thursday => 4,
            Weekday::Friday => 5,
            Weekday::Saturday => 6,
            Weekday::Sunday => 7,
        }
    }

    /// The day numbered `n`; none outside 1..=7.
    pub fn from_number(n: u64) -> (r: Option<Weekday>)
        ensures
            r is Some <==> 1 <= n <= 7,
            r matches Some(d) ==> d.ordinal() == n,
    {
        match n {
            1 => Some(Weekday::Monday),
            2 => Some(Weekday::Tuesday),
            3 => Some(Weekday::Wednesday),
            4 => Some(Weekday::Thursday),
            5 => Some(Weekday::Friday),
            6 => Some(Weekday::Saturday),
            7 => Some(Weekday::Sunday),
            _ => None,
        }
    }
}

impl NumbericWeekday {
    /// The day's number: Monday is 1, Sunday is 7.
    pub open spec fn ordinal(self) -> int {
        match self {
            NumbericWeekday::Monday => 1,
            NumbericWeekday::Tuesday => 2,
            NumbericWeekday::Wednesday => 3,
            NumbericWeekday::Thursday => 4,
            NumbericWeekday::Friday => 5,
            NumbericWeekday::Saturday => 6,
            NumbericWeekday::Sunday => 7,
        }
    }

    pub fn number(&self) -> (r: u8)
        ensures
            r == self.ordinal(),
    {
        match self {
            NumbericWeekday::Monday => 1,
            NumbericWeekday::Tuesday => 2,
            NumbericWeekday::Wednesday => 3,
            NumbericWeekday::Thursday => 4,
            NumbericWeekday::Friday => 5,
            NumbericWeekday::Saturday => 6,
            NumbericWeekday::Sunday => 7,
        }
    }

    /// The day numbered `n`; none outside 1..=7.
    pub fn from_number(n: u64) -> (r: Option<NumbericWeekday>)
        ensures
            r == numeric_day(n as int),
    {
        match n {
            1 => Some(NumbericWeekday::Monday),
            2 => Some(NumbericWeekday::Tuesday),
            3 => Some(NumbericWeekday::Wednesday),
            4 => Some(NumbericWeekday::Thursday),
            5 => Some(NumbericWeekday::Friday),
            6 => Some(NumbericWeekday::Saturday),
            7 => Some(NumbericWeekday::Sunday),
            _ => None,
        }
    }

    /// The same day, written as a number.
    pub fn from_short_weekday(weekday: ShortWeekday) -> (r: NumbericWeekday)
        ensures
            r == numeric_of(weekday),
    {
        match weekday {
            ShortWeekday::Monday => NumbericWeekday::Monday,
            ShortWeekday::Tuesday => NumbericWeekday::Tuesday,
            ShortWeekday::Wednesday => NumbericWeekday::Wednesday,
            ShortWeekday::Thursday => NumbericWeekday::Thursday,
            ShortWeekday::Friday => NumbericWeekday::Friday,
            ShortWeekday::Saturday => NumbericWeekday::Saturday,
            ShortWeekday::Sunday => NumbericWeekday::Sunday,
        }
    }

    /// The same day, written as a name.
    pub fn to_short_weekday(&self) -> (r: ShortWeekday)
        ensures
            r == short_of(*self),
    {
        match self {
            NumbericWeekday::Monday => ShortWeekday::Monday,
            NumbericWeekday::Tuesday => ShortWeekday::Tuesday,
            NumbericWeekday::Wednesday => ShortWeekday::Wednesday,
            NumbericWeekday::Thursday => ShortWeekday::Thursday,
            NumbericWeekday::Friday => ShortWeekday::Friday,
            NumbericWeekday::Saturday => ShortWeekday::Saturday,
            NumbericWeekday::Sunday => ShortWeekday::Sunday,
        }
    }
}

impl ShortWeekday {
    /// The day's number: Monday is 1, Sunday is 7.
    pub open spec fn ordinal(self) -> int {
        match self {
            ShortWeekday::Monday => 1,
            ShortWeekday::Tuesday => 2,
            ShortWeekday::Wednesday => 3,
            ShortWeekday::Thursday => 4,
            ShortWeekday::Friday => 5,
            ShortWeekday::Saturday => 6,
            ShortWeekday::Sunday => 7,
        }
    }

    /// The day's three-letter name.
    pub open spec fn spec_name(self) -> Seq<char> {
        match self {
            ShortWeekday::Monday => seq!['m', 'o', 'n'],
            ShortWeekday::Tuesday => seq!['t', 'u', 'e'],
            ShortWeekday::Wednesday => seq!['w', 'e', 'd'],
            ShortWeekday::Thursday => seq!['t', 'h', 'u'],
            ShortWeekday::Friday => seq!['f', 'r', 'i'],
            ShortWeekday::Saturday => seq!['s', 'a', 't'],
            ShortWeekday::Sunday => seq!['s', 'u', 'n'],
        }
    }

    pub fn name(&self) -> (r: &'static str)
        ensures
            r@ == self.spec_name(),
    {
        proof {
            reveal_strlit("mon");
            reveal_strlit("tue");
            reveal_strlit("wed");
            reveal_strlit("thu");
            reveal_strlit("fri");
            reveal_strlit("sat");
            reveal_strlit("sun");
        }
        match self {
            ShortWeekday::Monday => "mon",
            ShortWeekday::Tuesday => "tue",
            ShortWeekday::Wednesday => "wed",
            ShortWeekday::Thursday => "thu",
            ShortWeekday::Friday => "fri",
            ShortWeekday::Saturday => "sat",
            ShortWeekday::Sunday => "sun",
        }
    }

    /// The day named `name`; none for any text but the seven lower-case names.
    pub fn from_name(name: &str) -> (r: Option<ShortWeekday>)
        ensures
            r == short_day(name@),
    {
        if name.unicode_len() != 3 {
            return None;
        }
        let a = name.get_char(0);
        let b = name.get_char(1);
        let c = name.get_char(2);
        assert(name@ =~= seq![a, b, c]);
        if a == 'm' && b == 'o' && c == 'n' {
            Some(ShortWeekday::Monday)
        } else if a == 't' && b == 'u' && c == 'e' {
            Some(ShortWeekday::Tuesday)
        } else if a == 'w' && b == 'e' && c == 'd' {
            Some(ShortWeekday::Wednesday)
        } else if a == 't' && b == 'h' && c == 'u' {
            Some(ShortWeekday::Thursday)
        } else if a == 'f' && b == 'r' && c == 'i' {
            Some(ShortWeekday::Friday)
        } else if a == 's' && b == 'a' && c == 't' {
            Some(ShortWeekday::Saturday)
        } else if a == 's' && b == 'u' && c == 'n' {
            Some(ShortWeekday::Sunday)
        } else {
            None
        }
    }
}

/// The numeric day numbered `n`, if `n` is in 1..=7.
pub open spec fn numeric_day(n: int) -> Option<NumbericWeekday> {
    if n == 1 {
        Some(NumbericWeekday::Monday)
    } else if n == 2 {
        Some(NumbericWeekday::Tuesday)
    } else if n == 3 {
        Some(NumbericWeekday::Wednesday)
    } else if n == 4 {
        Some(NumbericWeekday::Thursday)
    } else if n == 5 {
        Some(NumbericWeekday::Friday)
    } else if n == 6 {
        Some(NumbericWeekday::Saturday)
    } else if n == 7 {
        Some(NumbericWeekday::Sunday)
    } else {
        None
    }
}

/// The named day whose name is `s`, if there is one.
pub open spec fn short_day(s: Seq<char>) -> Option<ShortWeekday> {
    if s == seq!['m', 'o', 'n'] {
        Some(ShortWeekday::Monday)
    } else if s == seq!['t', 'u', 'e'] {
        Some(ShortWeekday::Tuesday)
    } else if s == seq!['w', 'e', 'd'] {
        Some(ShortWeekday::Wednesday)
    } else if s == seq!['t', 'h', 'u'] {
        Some(ShortWeekday::Thursday)
    } else if s == seq!['f', 'r', 'i'] {
        Some(ShortWeekday::Friday)
    } else if s == seq!['s', 'a', 't'] {
        Some(ShortWeekday::Saturday)
    } else if s == seq!['s', 'u', 'n'] {
        Some(ShortWeekday::Sunday)
    } else {
        None
    }
}

/// The named day numbered `n`, if `n` is in 1..=7.
pub open spec fn short_numbered(n: int) -> Option<ShortWeekday> {
    if n == 1 {
        Some(ShortWeekday::Monday)
    } else if n == 2 {
        Some(ShortWeekday::Tuesday)
    } else if n == 3 {
        Some(ShortWeekday::Wednesday)
    } else if n == 4 {
        Some(ShortWeekday::Thursday)
    } else if n == 5 {
        Some(ShortWeekday::Friday)
    } else if n == 6 {
        Some(ShortWeekday::Saturday)
    } else if n == 7 {
        Some(ShortWeekday::Sunday)
    } else {
        None
    }
}

/// The numeric day with the same number as `w`.
pub open spec fn numeric_of(w: ShortWeekday) -> NumbericWeekday {
    numeric_day(w.ordinal()).unwrap()
}

/// The named day with the same number as `d`.
pub open spec fn short_of(d: NumbericWeekday) -> ShortWeekday {
    short_numbered(d.ordinal()).unwrap()
}

/// Converting a day from one spelling to the other keeps its number, and
/// converting it back gives the day it started as.
pub proof fn lemma_weekday_bijection(d: NumbericWeekday, w: ShortWeekday)
    ensures
        short_of(d).ordinal() == d.ordinal(),
        numeric_of(w).ordinal() == w.ordinal(),
        numeric_of(short_of(d)) == d,
        short_of(numeric_of(w)) == w,
{
}

/// A weekday in the spelling it was read in: as a number or as a name.
#[derive(Debug, Clone, Copy, PartialEq, Eq, Structural)]
pub enum EnableDay {
    Numeric(NumbericWeekday),
    Short(ShortWeekday),
}

/// The day read from the number `n`: kept as a number.
pub open spec fn decode_number(n: int) -> Option<EnableDay> {
    match numeric_day(n) {
        Some(d) => Some(EnableDay::Numeric(d)),
        None => None,
    }
}

/// The day read from the text `s`: kept as a name.
pub open spec fn decode_name(s: Seq<char>) -> Option<EnableDay> {
    match short_day(s) {
        Some(w) => Some(EnableDay::Short(w)),
        None => None,
    }
}

/// The number that a day is written as, when it is spelled as a number.
pub open spec fn written_number(d: EnableDay) -> Option<int> {
    match d {
        EnableDay::Numeric(n) => Some(n.ordinal()),
        EnableDay::Short(_) => None,
    }
}

/// The name that a day is written as, when it is spelled as a name.
pub open spec fn written_name(d: EnableDay) -> Option<Seq<char>> {
    match d {
        EnableDay::Numeric(_) => None,
        EnableDay::Short(w) => Some(w.spec_name()),
    }
}

impl EnableDay {
    /// The day's number, whatever its spelling: Monday is 1, Sunday is 7.
    pub open spec fn ordinal(self) -> int {
        match self {
            EnableDay::Numeric(d) => d.ordinal(),
            EnableDay::Short(w) => w.ordinal(),
        }
    }

    /// Reads a day written as a number; none outside 1..=7.
    pub fn from_number(n: u64) -> (r: Option<EnableDay>)
        ensures
            r == decode_number(n as int),
    {
        match NumbericWeekday::from_number(n) {
            Some(d) => Some(EnableDay::Numeric(d)),
            None => None,
        }
    }

    /// Reads a day written as a name; none but for `mon` to `sun`.
    pub fn from_name(name: &str) -> (r: Option<EnableDay>)
        ensures
            r == decode_name(name@),
    {
        match ShortWeekday::from_name(name) {
            Some(w) => Some(EnableDay::Short(w)),
            None => None,
        }
    }

    /// The number to write the day as, if it is spelled as a number.
    pub fn number(&self) -> (r: Option<u8>)
        ensures
            r matches Some(k) ==> written_number(*self) == Some(k as int),
            r is None <==> written_number(*self) is None,
    {
        match self {
            EnableDay::Numeric(d) => Some(d.number()),
            EnableDay::Short(_) => None,
        }
    }

    /// The name to write the day as, if it is spelled as a name.
    pub fn name(&self) -> (r: Option<&'static str>)
        ensures
            r matches Some(s) ==> written_name(*self) == Some(s@),
            r is None <==> written_name(*self) is None,
    {
        match self {
            EnableDay::Numeric(_) => None,
            EnableDay::Short(w) => Some(w.name()),
        }
    }

    /// The day in its numeric spelling.
    pub fn to_numeric(&self) -> (r: NumbericWeekday)
        ensures
            r.ordinal() == self.ordinal(),
    {
        match self {
            EnableDay::Numeric(d) => *d,
            EnableDay::Short(w) => NumbericWeekday::from_short_weekday(*w),
        }
    }
}

/// A day read from a number is written back as that number, never as a name;
/// a day read from a name is written back as that name, never as a number.
pub proof fn lemma_spelling_kept(n: int, s: Seq<char>)
    ensures
        decode_number(n) matches Some(d) ==> written_number(d) == Some(n) && written_name(
            d,
        ) is None,
        decode_name(s) matches Some(d) ==> written_name(d) == Some(s) && written_number(
            d,
        ) is None,
{
}

/// Every day is written in exactly one spelling, and reading what was written
/// gives the same day back.
pub proof fn lemma_spelling_round_trip(d: EnableDay)
    ensures
        written_number(d) is Some <==> written_name(d) is None,
        written_number(d) matches Some(n) ==> decode_number(n) == Some(d),
        written_name(d) matches Some(s) ==> decode_name(s) == Some(d),
{
}

} // verus!
