//! Calendar days and instants, read and printed by the `chrono` crate.
//!
//! The library keeps days and instants as plain numbers. Every value it holds has been
//! printed once by `chrono`, so that printing it again cannot fail.

use chrono::Datelike;
use std::fmt::Write;
use vstd::prelude::*;

use crate::text::{chars_of, free_of, is_space, is_word, space};

verus! {

/// Format of a calendar day in arguments and in query parameters.
pub const ISO_DATE: &'static str = "%Y-%m-%d";

/// Format of an instant in replies.
pub const STAMP_FORMAT: &'static str = "%Y-%m-%d %H:%M:%S %:z";

/// What `chrono::NaiveDate::parse_from_str` makes of `text` under `format`:
/// year, month and day, or the message of its error.
pub uninterp spec fn chrono_date_of(text: Seq<char>, format: Seq<char>) -> Result<
    (int, int, int),
    Seq<char>,
>;

/// What `chrono::NaiveDate::format` prints for a calendar day under `format`;
/// `None` where the day does not exist for `chrono` or the format is not one of its own.
pub uninterp spec fn chrono_date_text(year: int, month: int, day: int, format: Seq<char>) -> Option<
    Seq<char>,
>;

/// What `chrono::DateTime::<Utc>::format` prints under `format` for the instant `secs` seconds
/// and `nanos` nanoseconds after the Unix epoch; `None` where `chrono` has no such instant or
/// the format is not one of its own.
pub uninterp spec fn chrono_stamp_text(secs: int, nanos: int, format: Seq<char>) -> Option<
    Seq<char>,
>;

/// Calls `chrono::NaiveDate::parse_from_str`. The day comes back as year, month and day,
/// an error as the text `chrono` displays for it.
#[verifier::external_body]
fn parse_date(text: &str, format: &str) -> (r: Result<(i32, u32, u32), String>)
    ensures
        match r {
            Ok(d) => chrono_date_of(text@, format@) == Ok::<(int, int, int), Seq<char>>(
                (d.0 as int, d.1 as int, d.2 as int),
            ),
            Err(e) => chrono_date_of(text@, format@) == Err::<(int, int, int), Seq<char>>(e@),
        },
{
    match chrono::NaiveDate::parse_from_str(text, format) {
        Ok(d) => Ok((d.year(), d.month(), d.day())),
        Err(e) => Err(e.to_string()),
    }
}

/// Calls `chrono::NaiveDate::from_ymd_opt` and `chrono::NaiveDate::format`, and collects what
/// the latter displays. `None` where either refuses.
#[verifier::external_body]
fn print_date(year: i32, month: u32, day: u32, format: &str) -> (r: Option<String>)
    ensures
        match r {
            Some(t) => chrono_date_text(year as int, month as int, day as int, format@) == Some(
                t@,
            ),
            None => chrono_date_text(year as int, month as int, day as int, format@) is None,
        },
{
    let date = chrono::NaiveDate::from_ymd_opt(year, month, day)?;
    let mut out = String::new();
    match write!(out, "{}", date.format(format)) {
        Ok(()) => Some(out),
        Err(_) => None,
    }
}

/// Calls `chrono::DateTime::from_timestamp` and `chrono::DateTime::format`, and collects what
/// the latter displays. `None` where either refuses.
#[verifier::external_body]
fn print_stamp(secs: i64, nanos: u32, format: &str) -> (r: Option<String>)
    ensures
        match r {
            Some(t) => chrono_stamp_text(secs as int, nanos as int, format@) == Some(t@),
            None => chrono_stamp_text(secs as int, nanos as int, format@) is None,
        },
{
    let instant = chrono::DateTime::from_timestamp(secs, nanos)?;
    let mut out = String::new();
    match write!(out, "{}", instant.format(format)) {
        Ok(()) => Some(out),
        Err(_) => None,
    }
}

/// Whether the numbers of a day fit the fields of a `Date`.
pub open spec fn fits(year: int, month: int, day: int) -> bool {
    i32::MIN <= year <= i32::MAX && 0 <= month <= u32::MAX && 0 <= day <= u32::MAX
}

/// Whether `t` can stand among arguments as the text of a day: one word without a semicolon.
pub open spec fn is_token(t: Seq<char>) -> bool {
    is_word(t) && free_of(t, ';')
}

/// Whether a day prints in ISO form as one word without a semicolon, and that print reads
/// back as the same day.
pub open spec fn reads_back(year: int, month: int, day: int) -> bool {
    fits(year, month, day) && match chrono_date_text(year, month, day, ISO_DATE@) {
        Some(t) => is_token(t) && chrono_date_of(t, ISO_DATE@) == Ok::<
            (int, int, int),
            Seq<char>,
        >((year, month, day)),
        None => false,
    }
}

/// Whether `text` is one word without a semicolon.
fn token(text: &str) -> (r: bool)
    ensures
        r == is_token(text@),
{
    let v = chars_of(text);
    let mut i: usize = 0;
    while i < v.len()
        invariant
            i <= v.len(),
            v@ == text@,
            forall|k: int| 0 <= k < i ==> !is_space(#[trigger] v@[k]) && v@[k] != ';',
        decreases v.len() - i,
    {
        if space(v[i]) || v[i] == ';' {
            proof {
                assert(is_space(text@[i as int]) || text@[i as int] == ';');
            }
            return false;
        }
        i += 1;
    }
    v.len() > 0
}

/// A calendar day, standing for its midnight in UTC.
///
/// Every `Date` prints in ISO form as one word without a semicolon, and that print reads
/// back as the same day.
#[derive(Clone, Copy, Debug, PartialEq, Eq)]
pub struct Date {
    year: i32,
    month: u32,
    day: u32,
}

/// Why a text gave no day.
#[derive(Debug)]
pub enum DateError {
    /// `chrono` could not read the text; its message.
    Unreadable(String),
    /// `chrono` read a day that it does not print as one word and read back as the same day.
    Unusable,
}

/// A `DateError` with its message as a sequence of characters.
pub enum DateFault {
    Unreadable(Seq<char>),
    Unusable,
}

impl View for DateError {
    type V = DateFault;

    open spec fn view(&self) -> DateFault {
        match self {
            DateError::Unreadable(m) => DateFault::Unreadable(m@),
            DateError::Unusable => DateFault::Unusable,
        }
    }
}

/// The day that `text` stands for in ISO form, or why it stands for none.
pub open spec fn reading_of(text: Seq<char>) -> Result<Date, DateFault> {
    match chrono_date_of(text, ISO_DATE@) {
        Ok(d) => if reads_back(d.0, d.1, d.2) {
            Ok(Date::of(d.0, d.1, d.2))
        } else {
            Err(DateFault::Unusable)
        },
        Err(m) => Err(DateFault::Unreadable(m)),
    }
}

/// The same reading, over the error type that holds a `String`.
pub open spec fn reading_view(r: Result<Date, DateError>) -> Result<Date, DateFault> {
    match r {
        Ok(d) => Ok(d),
        Err(e) => Err(e@),
    }
}

impl Date {
    #[verifier::type_invariant]
    pub closed spec fn sound(self) -> bool {
        reads_back(self.year as int, self.month as int, self.day as int)
    }

    /// The day with these numbers.
    pub closed spec fn of(year: int, month: int, day: int) -> Date {
        Date { year: year as i32, month: month as u32, day: day as u32 }
    }

    /// Year, month and day.
    pub closed spec fn ymd(self) -> (int, int, int) {
        (self.year as int, self.month as int, self.day as int)
    }

    /// The ISO form of the day.
    pub open spec fn iso_text(self) -> Seq<char> {
        chrono_date_text(self.ymd().0, self.ymd().1, self.ymd().2, ISO_DATE@).unwrap()
    }

    /// A sound day is the day of its numbers, prints in ISO form as one word without a
    /// semicolon, and is read back from that print.
    pub proof fn lemma_sound(self)
        requires
            self.sound(),
        ensures
            Date::of(self.ymd().0, self.ymd().1, self.ymd().2) == self,
            reads_back(self.ymd().0, self.ymd().1, self.ymd().2),
            is_token(self.iso_text()),
            reading_of(self.iso_text()) == Ok::<Date, DateFault>(self),
    {
    }

    /// A day that was read from a text is sound.
    pub proof fn lemma_read_is_sound(text: Seq<char>)
        ensures
            reading_of(text) matches Ok(d) ==> d.sound(),
    {
    }

    /// The day with these numbers, where `chrono` prints it as one word without a semicolon
    /// and reads it back as itself.
    pub fn new(year: i32, month: u32, day: u32) -> (r: Option<Date>)
        ensures
            r is Some <==> reads_back(year as int, month as int, day as int),
            r matches Some(d) ==> d == Date::of(year as int, month as int, day as int) && d.sound(),
    {
        match print_date(year, month, day, ISO_DATE) {
            Some(t) => match parse_date(t.as_str(), ISO_DATE) {
                Ok(back) => if token(t.as_str()) && back.0 == year && back.1 == month && back.2
                    == day {
                    Some(Date { year, month, day })
                } else {
                    None
                },
                Err(_) => None,
            },
            None => None,
        }
    }

    pub fn year(&self) -> (r: i32)
        ensures
            r == self.ymd().0,
    {
        self.year
    }

    pub fn month(&self) -> (r: u32)
        ensures
            r == self.ymd().1,
    {
        self.month
    }

    pub fn day(&self) -> (r: u32)
        ensures
            r == self.ymd().2,
    {
        self.day
    }

    /// The day in ISO form, as query parameters carry it.
    pub fn iso(&self) -> (r: String)
        ensures
            self.sound(),
            r@ == self.iso_text(),
    {
        proof {
            use_type_invariant(self);
        }
        print_date(self.year, self.month, self.day, ISO_DATE).unwrap()
    }
}

/// Reads a day in ISO form.
pub fn read_date(text: &str) -> (r: Result<Date, DateError>)
    ensures
        reading_view(r) == reading_of(text@),
        r matches Ok(d) ==> d.sound(),
{
    match parse_date(text, ISO_DATE) {
        Ok(d) => match Date::new(d.0, d.1, d.2) {
            Some(date) => Ok(date),
            None => Err(DateError::Unusable),
        },
        Err(m) => Err(DateError::Unreadable(m)),
    }
}

/// An instant in UTC: seconds and nanoseconds after the Unix epoch.
///
/// Every `Timestamp` is an instant that `chrono` prints in the format of replies.
#[derive(Clone, Copy, Debug, PartialEq, Eq)]
pub struct Timestamp {
    secs: i64,
    nanos: u32,
}

impl Timestamp {
    #[verifier::type_invariant]
    pub closed spec fn sound(self) -> bool {
        chrono_stamp_text(self.secs as int, self.nanos as int, STAMP_FORMAT@) is Some
    }

    /// Seconds and nanoseconds after the Unix epoch.
    pub closed spec fn parts(self) -> (int, int) {
        (self.secs as int, self.nanos as int)
    }

    /// The instant as replies show it.
    pub open spec fn text(self) -> Seq<char> {
        chrono_stamp_text(self.parts().0, self.parts().1, STAMP_FORMAT@).unwrap()
    }

    /// The instant `secs` seconds and `nanos` nanoseconds after the Unix epoch, where `chrono`
    /// prints it.
    pub fn new(secs: i64, nanos: u32) -> (r: Option<Timestamp>)
        ensures
            r is Some <==> chrono_stamp_text(secs as int, nanos as int, STAMP_FORMAT@) is Some,
            r matches Some(t) ==> t.parts() == (secs as int, nanos as int) && t.sound(),
    {
        match print_stamp(secs, nanos, STAMP_FORMAT) {
            Some(_) => Some(Timestamp { secs, nanos }),
            None => None,
        }
    }

    pub fn secs(&self) -> (r: i64)
        ensures
            r == self.parts().0,
    {
        self.secs
    }

    pub fn nanos(&self) -> (r: u32)
        ensures
            r == self.parts().1,
    {
        self.nanos
    }

    /// The instant as replies show it.
    pub fn print(&self) -> (r: String)
        ensures
            r@ == self.text(),
    {
        proof {
            use_type_invariant(self);
        }
        print_stamp(self.secs, self.nanos, STAMP_FORMAT).unwrap()
    }
}

} // verus!
