//! What a run is told on the command line.
//!
//! Reading the command line itself is not the library's work; here are the
//! values it yields, the reading of the date that may be given as
//! `YYYY-MM-DD`, and the choice of the earliest upload date that a run looks
//! at.

use crate::date::{days_back, CalendarDate, Civil, MAX_YEAR, MIN_YEAR};
use crate::number::{numeral_i32, numeral_u32, parse_i32, parse_u32};
use crate::text::{chars_of, nth_part, part};
use vstd::prelude::*;
use vstd::string::StrSliceExecFns;

verus! {

/// How many days back a run looks where it is given no date.
pub const DEFAULT_DAYS_BACK: u32 = 3;

/// The arguments of a trial run.
#[derive(Debug)]
pub struct TestArgs {
    /// The path of the input file.
    pub path: String,
}

/// Which part of a date on the command line could not be read.
#[derive(Clone, Copy, Debug, PartialEq, Eq, Structural)]
pub enum ParseArgDateErr {
    Year,
    Month,
    Day,
}

impl ParseArgDateErr {
    /// The text of the error, for a person to read.
    pub fn message(&self) -> (text: &'static str)
        ensures
            text@ == match *self {
                ParseArgDateErr::Year => "bad year"@,
                ParseArgDateErr::Month => "bad month"@,
                ParseArgDateErr::Day => "bad day"@,
            },
    {
        match self {
            ParseArgDateErr::Year => "bad year",
            ParseArgDateErr::Month => "bad month",
            ParseArgDateErr::Day => "bad day",
        }
    }
}

/// A date given on the command line.
#[derive(Clone, Copy, Debug)]
pub struct ArgDate(pub CalendarDate);

/// A kind of number that can be read from a decimal numeral.
pub trait Numeral: Sized {
    /// The number that `text` denotes, if it is a numeral of this kind.
    spec fn denoted(text: Seq<char>) -> Option<Self>;

    /// Reads a number from its numeral.
    fn read(text: &str) -> (number: Option<Self>)
        ensures
            number == Self::denoted(text@),
    ;
}

impl Numeral for u32 {
    open spec fn denoted(text: Seq<char>) -> Option<u32> {
        numeral_u32(text)
    }

    fn read(text: &str) -> (number: Option<u32>) {
        match parse_u32(text) {
            Ok(number) => Some(number),
            Err(_) => None,
        }
    }
}

impl Numeral for i32 {
    open spec fn denoted(text: Seq<char>) -> Option<i32> {
        numeral_i32(text)
    }

    fn read(text: &str) -> (number: Option<i32>) {
        match parse_i32(text) {
            Ok(number) => Some(number),
            Err(_) => None,
        }
    }
}

/// What reading a part of a date gives: the number it denotes, or `error`
/// where the part is missing or no numeral.
pub open spec fn read_with_error<T: Numeral>(s: Option<Seq<char>>, error: ParseArgDateErr) -> Result<
    T,
    ParseArgDateErr,
> {
    match s {
        Some(text) => match T::denoted(text) {
            Some(number) => Ok(number),
            None => Err(error),
        },
        None => Err(error),
    }
}

/// The view of a part that may be missing.
pub open spec fn text_view(s: Option<&str>) -> Option<Seq<char>> {
    match s {
        Some(text) => Some(text@),
        None => None,
    }
}

/// Reads a part of a date as a number, with `error` for a part that is
/// missing or no numeral.
pub fn parse_with_error<T: Numeral>(s: Option<&str>, error: ParseArgDateErr) -> (parsed: Result<
    T,
    ParseArgDateErr,
>)
    ensures
        parsed == read_with_error::<T>(text_view(s), error),
{
    match s {
        Some(text) => match T::read(text) {
            Some(number) => Ok(number),
            None => Err(error),
        },
        None => Err(error),
    }
}

/// What a date on the command line says. The text is cut at its hyphens;
/// the first three parts are year, month and day, and further parts are not
/// looked at. The error names the first part that is missing, is no number,
/// or is out of range for a date.
pub open spec fn read_arg_date(s: Seq<char>) -> Result<Civil, ParseArgDateErr> {
    match read_with_error::<i32>(part(s, '-', 0), ParseArgDateErr::Year) {
        Err(e) => Err(e),
        Ok(year) => match read_with_error::<u32>(part(s, '-', 1), ParseArgDateErr::Month) {
            Err(e) => Err(e),
            Ok(month) => match read_with_error::<u32>(part(s, '-', 2), ParseArgDateErr::Day) {
                Err(e) => Err(e),
                Ok(day) => {
                    let date = Civil { year: year as int, month: month as int, day: day as int };
                    if !(MIN_YEAR <= year <= MAX_YEAR) {
                        Err(ParseArgDateErr::Year)
                    } else if !(1 <= month <= 12) {
                        Err(ParseArgDateErr::Month)
                    } else if !date.is_valid() {
                        Err(ParseArgDateErr::Day)
                    } else {
                        Ok(date)
                    }
                },
            },
        },
    }
}

impl ArgDate {
    /// Reads a date of the form `YYYY-MM-DD`.
    pub fn from_str(s: &str) -> (parsed: Result<ArgDate, ParseArgDateErr>)
        ensures
            match read_arg_date(s@) {
                Ok(date) => parsed matches Ok(found) && found.0@ == date,
                Err(e) => parsed == Err::<ArgDate, ParseArgDateErr>(e),
            },
    {
        let chars = chars_of(s);
        let first = match nth_part(&chars, '-', 0) {
            Some((start, end)) => Some(s.substring_char(start, end)),
            None => None,
        };
        let year = match parse_with_error::<i32>(first, ParseArgDateErr::Year) {
            Ok(year) => year,
            Err(e) => {
                return Err(e);
            },
        };
        let second = match nth_part(&chars, '-', 1) {
            Some((start, end)) => Some(s.substring_char(start, end)),
            None => None,
        };
        let month = match parse_with_error::<u32>(second, ParseArgDateErr::Month) {
            Ok(month) => month,
            Err(e) => {
                return Err(e);
            },
        };
        let third = match nth_part(&chars, '-', 2) {
            Some((start, end)) => Some(s.substring_char(start, end)),
            None => None,
        };
        let day = match parse_with_error::<u32>(third, ParseArgDateErr::Day) {
            Ok(day) => day,
            Err(e) => {
                return Err(e);
            },
        };
        if year < MIN_YEAR || year > MAX_YEAR {
            return Err(ParseArgDateErr::Year);
        }
        if month < 1 || month > 12 {
            return Err(ParseArgDateErr::Month);
        }
        match CalendarDate::from_ymd(year, month, day) {
            Some(date) => Ok(ArgDate(date)),
            None => Err(ParseArgDateErr::Day),
        }
    }
}

/// The arguments of a run.
#[derive(Debug)]
pub struct Args {
    /// The path of the file that lists the URLs to watch, one to a line.
    pub path: String,
    /// The earliest upload date to look at, if one was given.
    pub after: Option<ArgDate>,
}

impl Args {
    /// The arguments with the given path and, if one was given, the earliest
    /// upload date to look at.
    pub fn new(path: String, after: Option<ArgDate>) -> (args: Args)
        ensures
            args.path == path,
            args.after == after,
    {
        Args { path, after }
    }

    /// The earliest upload date that a run on the day `today` looks at: the
    /// date that was given, else the day three days before `today`.
    pub open spec fn earliest(self, today: Civil) -> Civil {
        match self.after {
            Some(date) => date.0@,
            None => days_back(today, DEFAULT_DAYS_BACK as nat),
        }
    }

    /// The earliest upload date that a run on the day `today` looks at.
    pub fn take_after_on(&self, today: CalendarDate) -> (date: CalendarDate)
        ensures
            date@ == self.earliest(today@),
    {
        match self.after {
            Some(date) => date.0,
            None => today.minus_days(DEFAULT_DAYS_BACK),
        }
    }

    /// The earliest upload date that a run looks at, on the current day by
    /// the machine's clock.
    pub fn take_after(&self) -> (date: CalendarDate)
        ensures
            exists|today: Civil| today.is_valid() && date@ == self.earliest(today),
    {
        let today = CalendarDate::today();
        let date = self.take_after_on(today);
        assert(today@.is_valid() && date@ == self.earliest(today@));
        date
    }
}

} // verus!
