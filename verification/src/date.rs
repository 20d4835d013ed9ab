//! Calendar dates without a time of day.
//!
//! A date is modelled by its [`Civil`] view: a year, a month and a day of the
//! proleptic Gregorian calendar. Dates are ordered as days on the time line,
//! and "the day before" is defined through that order alone.

use chrono::Datelike;
use vstd::prelude::*;

verus! {

/// The earliest year a date may lie in.
///
/// The bounds are those of `chrono`'s date types, so that every date of this
/// library can be handed to that crate and back.
pub const MIN_YEAR: i32 = -262_143;

/// The latest year a date may lie in.
pub const MAX_YEAR: i32 = 262_142;

/// Whether `year` has a 29th of February.
pub open spec fn is_leap_year(year: int) -> bool {
    year % 4 == 0 && (year % 100 != 0 || year % 400 == 0)
}

/// The number of days of `month` in `year`; meaningful for months 1 to 12.
pub open spec fn days_in_month(year: int, month: int) -> int {
    if month == 2 {
        if is_leap_year(year) {
            29
        } else {
            28
        }
    } else if month == 4 || month == 6 || month == 9 || month == 11 {
        30
    } else {
        31
    }
}

/// The mathematical model of a date: year, month and day as integers.
pub struct Civil {
    pub year: int,
    pub month: int,
    pub day: int,
}

impl Civil {
    /// The triple names a day that exists in the calendar, within the
    /// supported years.
    pub open spec fn is_valid(self) -> bool {
        &&& MIN_YEAR <= self.year <= MAX_YEAR
        &&& 1 <= self.month <= 12
        &&& 1 <= self.day <= days_in_month(self.year, self.month)
    }

    /// `self` comes strictly earlier than `other`.
    pub open spec fn before(self, other: Civil) -> bool {
        ||| self.year < other.year
        ||| self.year == other.year && self.month < other.month
        ||| self.year == other.year && self.month == other.month && self.day < other.day
    }

    /// `self` is `other` or comes later.
    pub open spec fn on_or_after(self, other: Civil) -> bool {
        !self.before(other)
    }

    /// `self` is the day right before `next`: the latest valid day among
    /// those that come before `next`.
    pub open spec fn is_eve_of(self, next: Civil) -> bool {
        &&& self.is_valid()
        &&& self.before(next)
        &&& forall|d: Civil| #[trigger] d.before(next) && d.is_valid() ==> !self.before(d)
    }

    /// No valid day comes before `self`.
    pub open spec fn is_first_day(self) -> bool {
        self.year == MIN_YEAR && self.month == 1 && self.day == 1
    }
}

/// The day before `c`, by the calendar's rules. For a valid `c` other than the
/// first supported day this is the eve of `c` (see [`lemma_day_before_is_eve`]).
pub open spec fn day_before(c: Civil) -> Civil {
    if c.day > 1 {
        Civil { year: c.year, month: c.month, day: c.day - 1 }
    } else if c.month > 1 {
        Civil { year: c.year, month: c.month - 1, day: days_in_month(c.year, c.month - 1) }
    } else {
        Civil { year: c.year - 1, month: 12, day: 31 }
    }
}

/// The day `n` days before `c`, stopping at the first supported day.
pub open spec fn days_back(c: Civil, n: nat) -> Civil
    decreases n,
{
    if n == 0 || c.is_first_day() {
        c
    } else {
        days_back(day_before(c), (n - 1) as nat)
    }
}

/// `day_before` yields the eve: a valid day, earlier than `c`, with no valid
/// day in between.
pub proof fn lemma_day_before_is_eve(c: Civil)
    requires
        c.is_valid(),
        !c.is_first_day(),
    ensures
        day_before(c).is_eve_of(c),
{
}

/// The first supported day has no eve, and nothing valid comes before it.
pub proof fn lemma_first_day_has_no_eve(c: Civil)
    requires
        c.is_valid(),
        c.is_first_day(),
    ensures
        forall|d: Civil| d.is_valid() ==> !#[trigger] d.before(c),
{
}

/// Going back in time never moves a valid day forward, and keeps it valid.
pub proof fn lemma_days_back_valid(c: Civil, n: nat)
    requires
        c.is_valid(),
    ensures
        days_back(c, n).is_valid(),
        !c.before(days_back(c, n)),
    decreases n,
{
    if n == 0 || c.is_first_day() {
    } else {
        lemma_day_before_is_eve(c);
        lemma_days_back_valid(day_before(c), (n - 1) as nat);
    }
}

/// A calendar date: a valid day in the years [`MIN_YEAR`] to [`MAX_YEAR`].
#[derive(Clone, Copy, Debug, PartialEq, Eq, Structural)]
pub struct CalendarDate {
    year: i32,
    month: u32,
    day: u32,
}

impl View for CalendarDate {
    type V = Civil;

    closed spec fn view(&self) -> Civil {
        Civil { year: self.year as int, month: self.month as int, day: self.day as int }
    }
}

/// Reads the machine's clock and gives the current date in UTC.
///
/// Calls `chrono::Utc::now` and takes the date of the result, with the
/// accessors of `chrono::Datelike`. The contract claims only that the result
/// is a date `chrono` can represent. `chrono` stops the program if the clock
/// stands before 1970.
#[verifier::external_body]
pub(crate) fn utc_today() -> (today: CalendarDate)
    ensures
        today@.is_valid(),
{
    let now = chrono::Utc::now().date_naive();
    CalendarDate { year: now.year(), month: now.month(), day: now.day() }
}

impl CalendarDate {
    /// Every date is a valid day of the calendar.
    #[verifier::type_invariant]
    pub open spec fn is_valid(self) -> bool {
        self@.is_valid()
    }

    /// The date of the given year, month and day, if that day exists.
    pub fn from_ymd(year: i32, month: u32, day: u32) -> (date: Option<CalendarDate>)
        ensures
            date is Some <==> (Civil {
                year: year as int,
                month: month as int,
                day: day as int,
            }).is_valid(),
            date matches Some(d) ==> d@ == (Civil {
                year: year as int,
                month: month as int,
                day: day as int,
            }),
    {
        if year < MIN_YEAR || year > MAX_YEAR || month < 1 || month > 12 || day < 1 {
            return None;
        }
        if day > month_length(year, month) {
            return None;
        }
        Some(CalendarDate { year, month, day })
    }

    /// Today's date in UTC, by the machine's clock.
    pub fn today() -> (today: CalendarDate)
        ensures
            today@.is_valid(),
    {
        utc_today()
    }

    /// The year of the date.
    pub fn year(&self) -> (year: i32)
        ensures
            year == self@.year,
    {
        self.year
    }

    /// The month of the date, from 1 to 12.
    pub fn month(&self) -> (month: u32)
        ensures
            month == self@.month,
    {
        self.month
    }

    /// The day of the month, from 1 on.
    pub fn day(&self) -> (day: u32)
        ensures
            day == self@.day,
    {
        self.day
    }

    /// Whether `self` comes strictly earlier than `other`.
    pub fn precedes(&self, other: &CalendarDate) -> (earlier: bool)
        ensures
            earlier == self@.before(other@),
    {
        self.year < other.year || (self.year == other.year && (self.month < other.month || (
        self.month == other.month && self.day < other.day)))
    }

    /// Whether `self` is `other` or comes later.
    pub fn on_or_after(&self, other: &CalendarDate) -> (later: bool)
        ensures
            later == self@.on_or_after(other@),
    {
        !self.precedes(other)
    }

    /// The day before this one; `None` for the first supported day, which has
    /// none.
    pub fn pred(&self) -> (eve: Option<CalendarDate>)
        ensures
            eve is None <==> self@.is_first_day(),
            eve is None ==> forall|d: Civil| d.is_valid() ==> !#[trigger] d.before(self@),
            eve matches Some(d) ==> d@ == day_before(self@) && d@.is_eve_of(self@),
    {
        proof {
            use_type_invariant(self);
            if self@.is_first_day() {
                lemma_first_day_has_no_eve(self@);
            } else {
                lemma_day_before_is_eve(self@);
            }
        }
        if self.day > 1 {
            Some(CalendarDate { year: self.year, month: self.month, day: self.day - 1 })
        } else if self.month > 1 {
            let month: u32 = self.month - 1;
            Some(CalendarDate { year: self.year, month, day: month_length(self.year, month) })
        } else if self.year > MIN_YEAR {
            Some(CalendarDate { year: self.year - 1, month: 12, day: 31 })
        } else {
            None
        }
    }

    /// The date `days` days earlier, stopping at the first supported day.
    pub fn minus_days(&self, days: u32) -> (earlier: CalendarDate)
        ensures
            earlier@ == days_back(self@, days as nat),
    {
        let mut date: CalendarDate = *self;
        let mut left: u32 = days;
        while left > 0
            invariant
                days_back(date@, left as nat) == days_back(self@, days as nat),
            decreases left,
        {
            match date.pred() {
                Some(eve) => {
                    date = eve;
                    left = left - 1;
                },
                None => {
                    left = 0;
                },
            }
        }
        date
    }
}

/// Whether a year has a 29th of February.
pub fn leap_year(year: i32) -> (leap: bool)
    ensures
        leap == is_leap_year(year as int),
{
    // The calendar repeats every 400 years, so the year is moved by a
    // multiple of 400 to where division has no negative numbers to deal with.
    let shifted: i64 = year as i64 + 2_147_484_000;
    assert(shifted % 4 == year as int % 4 && shifted % 100 == year as int % 100 && shifted % 400
        == year as int % 400);
    shifted % 4 == 0 && (shifted % 100 != 0 || shifted % 400 == 0)
}

/// The number of days of a month, for months 1 to 12.
fn month_length(year: i32, month: u32) -> (days: u32)
    requires
        1 <= month <= 12,
    ensures
        days == days_in_month(year as int, month as int),
{
    if month == 2 {
        if leap_year(year) {
            29
        } else {
            28
        }
    } else if month == 4 || month == 6 || month == 9 || month == 11 {
        30
    } else {
        31
    }
}

} // verus!
