//! Records of a listing ("magnets") and the reading of their upload date.
//!
//! The info text of a listing entry looks like
//! `Uploaded 05-02&nbsp;18:37, Size 580.9&nbsp;MiB, ULed by` for an upload of
//! the current year, and like
//! `Uploaded 12-13&nbsp;2021, Size 487.16&nbsp;MiB, ULed by` for an older one.
//! Its second word is the date field. Only a colon in the third piece of that
//! field tells a time of day from a year.

use crate::date::{day_before, lemma_day_before_is_eve, CalendarDate, Civil};
use crate::number::{numeral_i32, numeral_u32, parse_i32, parse_u32};
use crate::text::{
    chars_of, contains_char, nth_piece, nth_word, piece, same_text, starts_with, trim_end,
    trim_trailing, word,
};
use vstd::prelude::*;
use vstd::string::{StrSliceExecFns, StringExecFns};

verus! {

/// Why an info text gave no date.
#[derive(Debug)]
pub enum ParseMagnetDateErr {
    /// The text has no date field, or the field has too few pieces. Holds the
    /// info text.
    BadSplit(String),
    /// A piece that should be a number is none. Holds the info text and the
    /// error of the integer parser.
    BadInteger(String, core::num::ParseIntError),
    /// Year, month and day do not name a day of the calendar. Holds the info
    /// text.
    InvalidDate(String),
}

impl ParseMagnetDateErr {
    /// The info text that could not be read.
    pub open spec fn info(self) -> Seq<char> {
        match self {
            ParseMagnetDateErr::BadSplit(info) => info@,
            ParseMagnetDateErr::BadInteger(info, _) => info@,
            ParseMagnetDateErr::InvalidDate(info) => info@,
        }
    }

    /// What the integer parser had to say about the piece it refused, for a
    /// [`ParseMagnetDateErr::BadInteger`].
    pub open spec fn is_detail(self, detail: Seq<char>) -> bool {
        self matches ParseMagnetDateErr::BadInteger(_, e) && exists|text: String|
            text@ == detail && #[trigger] vstd::string::to_string_from_display_ensures::<
                core::num::ParseIntError,
            >(&e, text)
    }

    /// `text` is the text of the error. For a number that could not be read
    /// it holds what the integer parser had to say.
    pub open spec fn is_message(self, text: Seq<char>) -> bool {
        match self {
            ParseMagnetDateErr::BadSplit(info) => text == "Unable to split correctly:\n"@ + info@,
            ParseMagnetDateErr::BadInteger(info, _) => exists|detail: Seq<char>|
                #[trigger] self.is_detail(detail) && text == "Unable to parse: "@ + detail + "\n"@
                    + info@,
            ParseMagnetDateErr::InvalidDate(info) => text == "No such day in the calendar:\n"@
                + info@,
        }
    }

    /// The text of the error, for a person to read.
    pub fn message(&self) -> (text: String)
        ensures
            self.is_message(text@),
    {
        match self {
            ParseMagnetDateErr::BadSplit(info) => "Unable to split correctly:\n".to_owned().concat(
                info.as_str(),
            ),
            ParseMagnetDateErr::BadInteger(info, e) => {
                let detail = e.to_string();
                let text = "Unable to parse: ".to_owned().concat(detail.as_str()).concat(
                    "\n",
                ).concat(info.as_str());
                assert(self.is_detail(detail@));
                text
            },
            ParseMagnetDateErr::InvalidDate(info) => "No such day in the calendar:\n".to_owned().concat(
                info.as_str(),
            ),
        }
    }
}

/// What an info text says about the upload date, given the current date.
pub enum DateReading {
    /// The upload date.
    Date(Civil),
    /// There is no date field, or it has too few pieces.
    BadSplit,
    /// A piece that should be a number is none.
    BadInteger,
    /// The numbers do not name a day of the calendar.
    InvalidDate,
}

/// The first piece of a date field says that the upload was today: the word
/// `Today`, or anything that begins with the markup `<b>`.
pub open spec fn marks_today(first: Seq<char>) -> bool {
    first == "Today"@ || "<b>"@.is_prefix_of(first)
}

/// The first piece of a date field says that the upload was yesterday.
pub open spec fn marks_yesterday(first: Seq<char>) -> bool {
    first == "Y"@
}

/// The third piece of a date field is a time of day, not a year.
pub open spec fn is_time_of_day(third: Seq<char>) -> bool {
    third.contains(':')
}

/// The year that the third piece of a date field stands for: the current year
/// for a time of day, else the number written there, commas at its end left
/// aside.
pub open spec fn year_of_piece(third: Seq<char>, today: Civil) -> Option<int> {
    if is_time_of_day(third) {
        Some(today.year)
    } else {
        match numeral_i32(trim_trailing(third, ',')) {
            Some(year) => Some(year as int),
            None => None,
        }
    }
}

/// What a date field of month, day and year or time says.
pub open spec fn read_numeric_field(field: Seq<char>, today: Civil) -> DateReading {
    match numeral_u32(piece(field, 0).unwrap()) {
        None => DateReading::BadInteger,
        Some(month) => match piece(field, 1) {
            None => DateReading::BadSplit,
            Some(second) => match numeral_u32(second) {
                None => DateReading::BadInteger,
                Some(day) => match piece(field, 2) {
                    None => DateReading::BadSplit,
                    Some(third) => match year_of_piece(third, today) {
                        None => DateReading::BadInteger,
                        Some(year) => {
                            let date = Civil { year, month: month as int, day: day as int };
                            if date.is_valid() {
                                DateReading::Date(date)
                            } else {
                                DateReading::InvalidDate
                            }
                        },
                    },
                },
            },
        },
    }
}

/// What a date field says.
pub open spec fn read_field(field: Seq<char>, today: Civil) -> DateReading {
    let first = piece(field, 0).unwrap();
    if marks_today(first) {
        DateReading::Date(today)
    } else if marks_yesterday(first) {
        if today.is_first_day() {
            DateReading::InvalidDate
        } else {
            DateReading::Date(day_before(today))
        }
    } else {
        read_numeric_field(field, today)
    }
}

/// What an info text says about the upload date: its second word is the date
/// field.
pub open spec fn read_date(info: Seq<char>, today: Civil) -> DateReading {
    match word(info, 1) {
        None => DateReading::BadSplit,
        Some(field) => read_field(field, today),
    }
}

/// `e` is the error that reports the reading `reading` of the info text
/// `info`; a reading that is a date has no error.
pub open spec fn reports(e: ParseMagnetDateErr, reading: DateReading, info: Seq<char>) -> bool {
    &&& e.info() == info
    &&& match reading {
        DateReading::Date(_) => false,
        DateReading::BadSplit => e is BadSplit,
        DateReading::BadInteger => e is BadInteger,
        DateReading::InvalidDate => e is InvalidDate,
    }
}

/// The upload date of a listing entry.
#[derive(Debug)]
pub struct MagnetDate(pub CalendarDate);

/// `parsed` is what reading `info` on the day `today` gives: the date, or the
/// error that reports why there is none.
pub open spec fn is_reading(
    parsed: Result<MagnetDate, ParseMagnetDateErr>,
    info: Seq<char>,
    today: Civil,
) -> bool {
    match read_date(info, today) {
        DateReading::Date(date) => parsed matches Ok(found) && found.0@ == date,
        reading => parsed matches Err(e) && reports(e, reading, info),
    }
}

impl MagnetDate {
    /// The date itself.
    pub fn into_inner(self) -> (date: CalendarDate)
        ensures
            date == self.0,
    {
        self.0
    }

    /// Reads the upload date from an info text, on the day `today`.
    pub fn read(info: &str, today: CalendarDate) -> (parsed: Result<MagnetDate, ParseMagnetDateErr>)
        ensures
            is_reading(parsed, info@, today@),
    {
        let chars = chars_of(info);
        let field = match nth_word(&chars, 1) {
            Some((start, end)) => info.substring_char(start, end),
            None => {
                return Err(ParseMagnetDateErr::BadSplit(info.to_owned()));
            },
        };
        let pieces = chars_of(field);
        let first = match nth_piece(&pieces, 0) {
            Some((start, end)) => field.substring_char(start, end),
            None => {
                return Err(ParseMagnetDateErr::BadSplit(info.to_owned()));
            },
        };
        if same_text(first, "Today") || starts_with(first, "<b>") {
            return Ok(MagnetDate(today));
        }
        if same_text(first, "Y") {
            return match today.pred() {
                Some(eve) => Ok(MagnetDate(eve)),
                None => Err(ParseMagnetDateErr::InvalidDate(info.to_owned())),
            };
        }
        let month = match parse_u32(first) {
            Ok(month) => month,
            Err(e) => {
                return Err(ParseMagnetDateErr::BadInteger(info.to_owned(), e));
            },
        };
        let second = match nth_piece(&pieces, 1) {
            Some((start, end)) => field.substring_char(start, end),
            None => {
                return Err(ParseMagnetDateErr::BadSplit(info.to_owned()));
            },
        };
        let day = match parse_u32(second) {
            Ok(day) => day,
            Err(e) => {
                return Err(ParseMagnetDateErr::BadInteger(info.to_owned(), e));
            },
        };
        let third = match nth_piece(&pieces, 2) {
            Some((start, end)) => field.substring_char(start, end),
            None => {
                return Err(ParseMagnetDateErr::BadSplit(info.to_owned()));
            },
        };
        let year = if contains_char(third, ':') {
            today.year()
        } else {
            match parse_i32(trim_end(third, ',')) {
                Ok(year) => year,
                Err(e) => {
                    return Err(ParseMagnetDateErr::BadInteger(info.to_owned(), e));
                },
            }
        };
        match CalendarDate::from_ymd(year, month, day) {
            Some(date) => Ok(MagnetDate(date)),
            None => Err(ParseMagnetDateErr::InvalidDate(info.to_owned())),
        }
    }

    /// Reads the upload date from an info text, on the current day by the
    /// machine's clock.
    pub fn from_str(info: &str) -> (parsed: Result<MagnetDate, ParseMagnetDateErr>)
        ensures
            exists|today: Civil| today.is_valid() && is_reading(parsed, info@, today),
    {
        let today = CalendarDate::today();
        let parsed = MagnetDate::read(info, today);
        assert(today@.is_valid() && is_reading(parsed, info@, today@));
        parsed
    }
}

impl core::str::FromStr for MagnetDate {
    type Err = ParseMagnetDateErr;

    fn from_str(info: &str) -> (parsed: Result<MagnetDate, ParseMagnetDateErr>)
        ensures
            exists|today: Civil| today.is_valid() && is_reading(parsed, info@, today),
    {
        MagnetDate::from_str(info)
    }
}

/// The date field of an info text holds month, day and a third piece, and
/// its first piece is no word for today or yesterday.
pub open spec fn has_numeric_field(info: Seq<char>) -> bool {
    &&& word(info, 1) matches Some(field)
    &&& !marks_today(piece(field, 0).unwrap())
    &&& !marks_yesterday(piece(field, 0).unwrap())
    &&& piece(field, 2) is Some
}

/// The third piece of the date field of an info text.
pub open spec fn third_piece(info: Seq<char>) -> Seq<char> {
    piece(word(info, 1).unwrap(), 2).unwrap()
}

/// A date with a time of day lies in the current year: where the date field
/// holds month, day and a time, and the text gives a date at all, the year of
/// that date is the year of the day on which the text is read.
pub proof fn lemma_time_of_day_means_current_year(info: Seq<char>, today: Civil)
    requires
        has_numeric_field(info),
        is_time_of_day(third_piece(info)),
        read_date(info, today) is Date,
    ensures
        read_date(info, today) matches DateReading::Date(date) && date.year == today.year,
{
}

/// A date with a year lies in that year: where the date field holds month,
/// day and no time, and the text gives a date at all, the year of that date
/// is the number written in the third piece.
pub proof fn lemma_written_year_is_the_year(info: Seq<char>, today: Civil)
    requires
        has_numeric_field(info),
        !is_time_of_day(third_piece(info)),
        read_date(info, today) is Date,
    ensures
        read_date(info, today) matches DateReading::Date(date) && numeral_i32(
            trim_trailing(third_piece(info), ','),
        ) == Some(date.year as i32),
{
}

/// Month and day of a date are the numbers written in the first two pieces of
/// the date field.
pub proof fn lemma_written_month_and_day(info: Seq<char>, today: Civil)
    requires
        has_numeric_field(info),
        read_date(info, today) is Date,
    ensures
        ({
            &&& read_date(info, today) matches DateReading::Date(date)
            &&& piece(word(info, 1).unwrap(), 1) matches Some(second)
            &&& numeral_u32(piece(word(info, 1).unwrap(), 0).unwrap()) == Some(date.month as u32)
            &&& numeral_u32(second) == Some(date.day as u32)
        }),
{
}

/// An upload marked as today's is dated today.
pub proof fn lemma_today_marker_means_today(info: Seq<char>, today: Civil)
    requires
        word(info, 1) matches Some(field) && marks_today(piece(field, 0).unwrap()),
    ensures
        read_date(info, today) == DateReading::Date(today),
{
}

/// An upload marked as yesterday's is dated the day before today: a valid
/// day, earlier than today, with no day in between.
pub proof fn lemma_yesterday_marker_means_eve(info: Seq<char>, today: Civil)
    requires
        word(info, 1) matches Some(field) && marks_yesterday(piece(field, 0).unwrap()),
        today.is_valid(),
        !today.is_first_day(),
    ensures
        read_date(info, today) matches DateReading::Date(date) && date.is_eve_of(today),
{
    reveal_strlit("Y");
    reveal_strlit("Today");
    reveal_strlit("<b>");
    let first = piece(word(info, 1).unwrap(), 0).unwrap();
    assert(first.len() == 1);
    assert(!marks_today(first));
    lemma_day_before_is_eve(today);
}

/// The mathematical model of a record.
pub struct MagnetView {
    pub text: Seq<char>,
    pub link: Seq<char>,
    pub size: Seq<char>,
    pub date: Civil,
}

/// A record of a listing: title, link, size and upload date.
///
/// The link alone tells two records apart; title and size are for display.
#[derive(Debug)]
pub struct Magnet {
    pub text: String,
    pub link: String,
    pub size: String,
    pub date: CalendarDate,
}

impl View for Magnet {
    type V = MagnetView;

    open spec fn view(&self) -> MagnetView {
        MagnetView { text: self.text@, link: self.link@, size: self.size@, date: self.date@ }
    }
}

impl Clone for Magnet {
    fn clone(&self) -> (copy: Magnet)
        ensures
            copy == *self,
    {
        Magnet {
            text: self.text.clone(),
            link: self.link.clone(),
            size: self.size.clone(),
            date: self.date,
        }
    }
}

/// The views of a list of records.
pub open spec fn views(records: Seq<Magnet>) -> Seq<MagnetView> {
    Seq::new(records.len(), |i: int| records[i]@)
}

/// What was found of a record in a listing entry, before its date is read.
pub struct MagnetContext<'a> {
    pub text: String,
    pub link: &'a str,
    pub size: String,
    pub info: String,
}

/// The record that a context with the upload date `date` makes.
pub open spec fn record_of(context: MagnetContext<'_>, date: Civil) -> MagnetView {
    MagnetView { text: context.text@, link: context.link@, size: context.size@, date }
}

/// `made` is what a context gives on the day `today`: its record, dated as
/// its info text says, or the error of reading that text.
pub open spec fn is_record_of(
    made: Result<Magnet, ParseMagnetDateErr>,
    context: MagnetContext<'_>,
    today: Civil,
) -> bool {
    match read_date(context.info@, today) {
        DateReading::Date(date) => made matches Ok(magnet) && magnet@ == record_of(context, date),
        reading => made matches Err(e) && reports(e, reading, context.info@),
    }
}

impl Magnet {
    /// Makes the record of a context, on the day `today`.
    pub fn from_context(context: MagnetContext<'_>, today: CalendarDate) -> (made: Result<
        Magnet,
        ParseMagnetDateErr,
    >)
        ensures
            is_record_of(made, context, today@),
    {
        match MagnetDate::read(context.info.as_str(), today) {
            Ok(date) => Ok(
                Magnet {
                    text: context.text,
                    link: context.link.to_owned(),
                    size: context.size,
                    date: date.into_inner(),
                },
            ),
            Err(e) => Err(e),
        }
    }

    /// Makes the record of a context, on the current day by the machine's
    /// clock.
    pub fn try_from(context: MagnetContext<'_>) -> (made: Result<Magnet, ParseMagnetDateErr>)
        ensures
            exists|today: Civil| today.is_valid() && is_record_of(made, context, today),
    {
        let today = CalendarDate::today();
        let made = Magnet::from_context(context, today);
        assert(today@.is_valid() && is_record_of(made, context, today@));
        made
    }
}

/// Why a listing entry gave no record context.
#[derive(Debug)]
pub enum ExtractMagnetContextErr {
    /// The entry has no link to its page. Holds the entry's markup.
    PageLink(String),
    /// The entry has no magnet link. Holds the entry's markup.
    MagnetLink(String),
    /// The info text names no size. Holds the info text.
    Size(String),
    /// The entry has no info text. Holds the entry's markup.
    Info(String),
}

impl Clone for ExtractMagnetContextErr {
    fn clone(&self) -> (copy: ExtractMagnetContextErr)
        ensures
            copy == *self,
    {
        match self {
            ExtractMagnetContextErr::PageLink(html) => ExtractMagnetContextErr::PageLink(
                html.clone(),
            ),
            ExtractMagnetContextErr::MagnetLink(html) => ExtractMagnetContextErr::MagnetLink(
                html.clone(),
            ),
            ExtractMagnetContextErr::Size(info) => ExtractMagnetContextErr::Size(info.clone()),
            ExtractMagnetContextErr::Info(html) => ExtractMagnetContextErr::Info(html.clone()),
        }
    }
}

impl ExtractMagnetContextErr {
    /// The text of the error.
    pub open spec fn message_text(self) -> Seq<char> {
        match self {
            ExtractMagnetContextErr::PageLink(html) => "Bad page link:\n"@ + html@,
            ExtractMagnetContextErr::MagnetLink(html) => "Bad magnet link:\n"@ + html@,
            ExtractMagnetContextErr::Size(info) => "Unable to determine size: "@ + info@,
            ExtractMagnetContextErr::Info(html) => "Bad info:\n"@ + html@,
        }
    }

    /// The text of the error, for a person to read.
    pub fn message(&self) -> (text: String)
        ensures
            text@ == self.message_text(),
    {
        match self {
            ExtractMagnetContextErr::PageLink(html) => "Bad page link:\n".to_owned().concat(
                html.as_str(),
            ),
            ExtractMagnetContextErr::MagnetLink(html) => "Bad magnet link:\n".to_owned().concat(
                html.as_str(),
            ),
            ExtractMagnetContextErr::Size(info) => "Unable to determine size: ".to_owned().concat(
                info.as_str(),
            ),
            ExtractMagnetContextErr::Info(html) => "Bad info:\n".to_owned().concat(html.as_str()),
        }
    }
}

} // verus!
