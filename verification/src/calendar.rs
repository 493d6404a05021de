//! Calendar dates: reading one from a timer text, and telling which of two
//! is the later.

use crate::text::{date_part, date_part_of};
use chrono::{Datelike, NaiveDate};
use vstd::prelude::*;

verus! {

/// A calendar date.
#[derive(Clone, Copy, Debug, PartialEq, Eq, Structural)]
pub struct Date {
    pub year: i32,
    pub month: u32,
    pub day: u32,
}

impl Date {
    /// Whether this date is strictly later than `other`: the year decides,
    /// then the month, then the day.
    pub open spec fn later_than(self, other: Date) -> bool {
        ||| self.year > other.year
        ||| self.year == other.year && self.month > other.month
        ||| self.year == other.year && self.month == other.month && self.day > other.day
    }

    /// Tells whether this date is strictly later than `other`.
    pub fn is_after(&self, other: &Date) -> (later: bool)
        ensures
            later == self.later_than(*other),
    {
        if self.year != other.year {
            self.year > other.year
        } else if self.month != other.month {
            self.month > other.month
        } else {
            self.day > other.day
        }
    }
}

/// Of two dates exactly one is later than the other, unless they are equal.
pub proof fn lemma_later_than_total(a: Date, b: Date)
    ensures
        !(a.later_than(b) && b.later_than(a)),
        a.later_than(b) || b.later_than(a) || a == b,
        !a.later_than(a),
{
}

/// The date before which a bracket entry that cannot be read counts as a
/// failure, and after which it counts as not yet played: 30 May 2019.
pub fn reference_cutoff() -> (cutoff: Date)
    ensures
        cutoff == (Date { year: 2019, month: 5, day: 30 }),
{
    Date { year: 2019, month: 5, day: 30 }
}

/// What `NaiveDate::parse_from_str` reads from a text under a format: the
/// date's year, month and day, or none where it reports an error.
pub uninterp spec fn parsed_date(text: Seq<char>, format: Seq<char>) -> Option<Date>;

/// Calls `chrono::NaiveDate::parse_from_str` and takes year, month and day
/// from the date it returns through `Datelike`; an error becomes none. The
/// result depends on text and format alone.
#[verifier::external_body]
fn parse_date(text: &str, format: &str) -> (date: Option<Date>)
    ensures
        date == parsed_date(text@, format@),
{
    match NaiveDate::parse_from_str(text, format) {
        Ok(date) => Some(Date { year: date.year(), month: date.month(), day: date.day() }),
        Err(_) => None,
    }
}

/// The format of the date in a timer text: month name, day, comma, year.
pub open spec fn timer_format() -> Seq<char> {
    "%B %e, %Y"@
}

/// The date that a timer text gives: its date part, read as month name, day
/// and year.
pub open spec fn timer_date(timer: Seq<char>) -> Option<Date> {
    parsed_date(date_part(timer), timer_format())
}

/// Reads the date of a timer text.
pub fn read_timer(timer: &str) -> (date: Option<Date>)
    ensures
        date == timer_date(timer@),
{
    parse_date(date_part_of(timer), "%B %e, %Y")
}

} // verus!
