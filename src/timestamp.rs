use chrono::{Datelike, Timelike};
use vstd::prelude::*;

use crate::error::LedgerError;

verus! {

/// The smallest year that a calendar date may carry.
pub const MIN_YEAR: i32 = -262143;

/// The largest year that a calendar date may carry.
pub const MAX_YEAR: i32 = 262142;

/// The canonical text form of a timestamp: year, month, day, hour and minute.
pub const MINUTE_PATTERN: &'static str = "%Y-%m-%dT%H:%M";

/// Leap years of the proleptic Gregorian calendar.
pub open spec fn is_leap_year(year: int) -> bool {
    year % 4 == 0 && (year % 100 != 0 || year % 400 == 0)
}

pub open spec fn days_in_month(year: int, month: int) -> int {
    if month == 2 {
        if is_leap_year(year) { 29 } else { 28 }
    } else if month == 4 || month == 6 || month == 9 || month == 11 {
        30
    } else {
        31
    }
}

/// The five fields name a real minute of the calendar.
pub open spec fn fields_valid(year: i32, month: u32, day: u32, hour: u32, minute: u32) -> bool {
    &&& MIN_YEAR <= year <= MAX_YEAR
    &&& 1 <= month <= 12
    &&& 1 <= day <= days_in_month(year as int, month as int)
    &&& hour < 24
    &&& minute < 60
}

/// What the pattern parser makes of a text: the fields of the minute it names, if any.
pub uninterp spec fn parsed_minute(s: Seq<char>) -> Option<(i32, u32, u32, u32, u32)>;

/// The text that the pattern formatter writes for a minute.
pub uninterp spec fn minute_text(year: i32, month: u32, day: u32, hour: u32, minute: u32) -> Seq<
    char,
>;

/// Relies on chrono's `NaiveDateTime::parse_from_str` with `MINUTE_PATTERN`: it depends on the
/// text alone, and what it accepts is a real calendar date and time of day, whose fields
/// chrono's accessors return.
#[verifier::external_body]
fn parse_minute_text(s: &str) -> (r: Option<(i32, u32, u32, u32, u32)>)
    ensures
        r == parsed_minute(s@),
        r matches Some(f) ==> fields_valid(f.0, f.1, f.2, f.3, f.4),
{
    chrono::NaiveDateTime::parse_from_str(s, MINUTE_PATTERN).ok().map(
        |dt| (dt.year(), dt.month(), dt.day(), dt.hour(), dt.minute()),
    )
}

/// Relies on chrono's `NaiveDate::from_ymd_opt`, `NaiveDate::and_hms_opt` and the formatter
/// with `MINUTE_PATTERN`: the first two accept every real calendar minute, and the text
/// depends on the fields alone.
#[verifier::external_body]
fn render_minute_text(year: i32, month: u32, day: u32, hour: u32, minute: u32) -> (r: String)
    requires
        fields_valid(year, month, day, hour, minute),
    ensures
        r@ == minute_text(year, month, day, hour, minute),
{
    let date = chrono::NaiveDate::from_ymd_opt(year, month, day).unwrap();
    date.and_hms_opt(hour, minute, 0).unwrap().format(MINUTE_PATTERN).to_string()
}

/// A point in time with minute precision, held as its calendar fields.
#[derive(Clone, Copy, Debug, PartialEq, Eq, Structural)]
pub struct Timestamp {
    pub year: i32,
    pub month: u32,
    pub day: u32,
    pub hour: u32,
    pub minute: u32,
}

impl Timestamp {
    pub open spec fn wf(self) -> bool {
        fields_valid(self.year, self.month, self.day, self.hour, self.minute)
    }

    pub open spec fn from_fields(f: (i32, u32, u32, u32, u32)) -> Timestamp {
        Timestamp { year: f.0, month: f.1, day: f.2, hour: f.3, minute: f.4 }
    }

    /// The text form of this minute, as the formatter writes it.
    pub open spec fn text(self) -> Seq<char> {
        minute_text(self.year, self.month, self.day, self.hour, self.minute)
    }

    /// Whether the fields name a real calendar minute.
    pub fn is_valid(&self) -> (r: bool)
        ensures
            r == self.wf(),
    {
        if self.year < MIN_YEAR || self.year > MAX_YEAR || self.month < 1 || self.month > 12
            || self.day < 1 || self.hour >= 24 || self.minute >= 60 {
            return false;
        }
        let leap = self.year % 4 == 0 && (self.year % 100 != 0 || self.year % 400 == 0);
        let days: u32 = if self.month == 2 {
            if leap { 29 } else { 28 }
        } else if self.month == 4 || self.month == 6 || self.month == 9 || self.month == 11 {
            30
        } else {
            31
        };
        self.day <= days
    }

    /// Reads a timestamp written as `YYYY-MM-DDTHH:MM`.
    pub fn parse(s: &str) -> (r: Result<Timestamp, LedgerError>)
        ensures
            match parsed_minute(s@) {
                Some(f) => r == Ok::<Timestamp, LedgerError>(Timestamp::from_fields(f)),
                None => r == Err::<Timestamp, LedgerError>(LedgerError::Timestamp),
            },
            r matches Ok(t) ==> t.wf(),
    {
        match parse_minute_text(s) {
            Some(f) => Ok(Timestamp { year: f.0, month: f.1, day: f.2, hour: f.3, minute: f.4 }),
            None => Err(LedgerError::Timestamp),
        }
    }

    /// Writes this minute as `YYYY-MM-DDTHH:MM`.
    pub fn render(&self) -> (r: String)
        requires
            self.wf(),
        ensures
            r@ == self.text(),
    {
        render_minute_text(self.year, self.month, self.day, self.hour, self.minute)
    }
}

} // verus!
