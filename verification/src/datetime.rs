//! Calendar timestamps, held as the integers by which they are ordered.

use vstd::prelude::*;
use chrono::{Datelike, NaiveDate, NaiveDateTime, NaiveTime, Timelike};

verus! {

/// A calendar date and time of day without time zone.
///
/// `days` counts days in the proleptic Gregorian calendar (day 1 is
/// January 1 of year 1), `secs` the seconds since midnight, `nanos` the
/// nanoseconds within the second (a billion or more during a leap second).
#[derive(Clone, Copy, Debug, PartialEq, Eq, Structural)]
pub struct DateTime {
    pub days: i32,
    pub secs: u32,
    pub nanos: u32,
}

impl DateTime {
    /// The three integers as a tuple.
    pub open spec fn key(self) -> (int, int, int) {
        (self.days as int, self.secs as int, self.nanos as int)
    }

    /// `self` is not later than `other`.
    pub open spec fn at_or_before(self, other: DateTime) -> bool {
        self.days < other.days || (self.days == other.days && (self.secs < other.secs || (self.secs
            == other.secs && self.nanos <= other.nanos)))
    }

    /// Whether `self` is not later than `other`.
    pub fn not_after(&self, other: &DateTime) -> (r: bool)
        ensures
            r == self.at_or_before(*other),
    {
        self.days < other.days || (self.days == other.days && (self.secs < other.secs || (self.secs
            == other.secs && self.nanos <= other.nanos)))
    }
}

/// The one timestamp format of log lines and of filter bounds.
pub open spec fn canonical_format() -> Seq<char> {
    "%Y-%m-%d %H:%M:%S"@
}

/// The one timestamp format of log lines and of filter bounds.
pub fn timestamp_format() -> (fmt: &'static str)
    ensures
        fmt@ == canonical_format(),
{
    "%Y-%m-%d %H:%M:%S"
}

/// What `chrono::NaiveDateTime::parse_from_str` makes of a text under a
/// format: the day number, second of day and nanosecond of the parsed
/// timestamp, or the text of chrono's parse error.
pub uninterp spec fn chrono_parsed(text: Seq<char>, fmt: Seq<char>) -> Result<
    (int, int, int),
    Seq<char>,
>;

/// What `chrono::NaiveDateTime::format` writes for the timestamp with the
/// given day number, second of day and nanosecond; `None` where chrono has
/// no date or no time of day for these numbers.
pub uninterp spec fn chrono_formatted(days: int, secs: int, nanos: int, fmt: Seq<char>) -> Option<
    Seq<char>,
>;

/// Calls `chrono::NaiveDateTime::parse_from_str` and reads the result's
/// `num_days_from_ce`, `num_seconds_from_midnight` and `nanosecond`.
/// Trusted: the outcome is a function of text and format alone.
#[verifier::external_body]
fn chrono_parse(text: &str, fmt: &str) -> (r: Result<DateTime, String>)
    ensures
        match r {
            Ok(d) => chrono_parsed(text@, fmt@) == Ok::<(int, int, int), Seq<char>>(d.key()),
            Err(e) => chrono_parsed(text@, fmt@) == Err::<(int, int, int), Seq<char>>(e@),
        },
{
    match NaiveDateTime::parse_from_str(text, fmt) {
        Ok(d) => Ok(
            DateTime {
                days: d.num_days_from_ce(),
                secs: d.num_seconds_from_midnight(),
                nanos: d.nanosecond(),
            },
        ),
        Err(e) => Err(e.to_string()),
    }
}

/// Rebuilds the chrono timestamp with `NaiveDate::from_num_days_from_ce_opt`,
/// `NaiveTime::from_num_seconds_from_midnight_opt` and `NaiveDateTime::new`,
/// and calls `chrono::NaiveDateTime::format` on it. Trusted: the outcome is a
/// function of the three integers and the format. The format is required to
/// be the canonical one, which chrono accepts.
#[verifier::external_body]
fn chrono_format(d: &DateTime, fmt: &str) -> (r: Option<String>)
    requires
        fmt@ == canonical_format(),
    ensures
        match r {
            Some(s) => chrono_formatted(d.days as int, d.secs as int, d.nanos as int, fmt@)
                == Some(s@),
            None => chrono_formatted(d.days as int, d.secs as int, d.nanos as int, fmt@)
                == None::<Seq<char>>,
        },
{
    let date = NaiveDate::from_num_days_from_ce_opt(d.days)?;
    let time = NaiveTime::from_num_seconds_from_midnight_opt(d.secs, d.nanos)?;
    Some(NaiveDateTime::new(date, time).format(fmt).to_string())
}

/// The timestamp that a text denotes under the canonical format, if any.
pub open spec fn timestamp_of(text: Seq<char>) -> Option<DateTime> {
    match chrono_parsed(text, canonical_format()) {
        Ok(k) => if i32::MIN <= k.0 <= i32::MAX && 0 <= k.1 <= u32::MAX && 0 <= k.2 <= u32::MAX {
            Some(DateTime { days: k.0 as i32, secs: k.1 as u32, nanos: k.2 as u32 })
        } else {
            None
        },
        Err(_) => None,
    }
}

/// The canonical rendering of a timestamp, if it is one that the calendar has.
pub open spec fn rendering_of(d: DateTime) -> Option<Seq<char>> {
    chrono_formatted(d.days as int, d.secs as int, d.nanos as int, canonical_format())
}

/// The message that reports a bound that is not in the canonical format.
pub open spec fn format_error(detail: Seq<char>) -> Seq<char> {
    "Format attendu: YYYY-MM-DD HH:MM:SS ("@ + detail + ")"@
}

/// Turns the outcome of parsing a bound into a timestamp or the message
/// that reports the failure.
pub fn bound_from_parsed(parsed: Result<DateTime, String>) -> (r: Result<DateTime, String>)
    ensures
        match parsed {
            Ok(d) => r == Ok::<DateTime, String>(d),
            Err(e) => r is Err && r->Err_0@ == format_error(e@),
        },
{
    match parsed {
        Ok(d) => Ok(d),
        Err(e) => {
            let mut msg = String::from_str("Format attendu: YYYY-MM-DD HH:MM:SS (");
            msg.append(e.as_str());
            msg.append(")");
            Err(msg)
        },
    }
}

/// Reads a timestamp in the canonical format `YYYY-MM-DD HH:MM:SS`.
pub fn parse_datetime(input: &str) -> (r: Result<DateTime, String>)
    ensures
        match r {
            Ok(d) => timestamp_of(input@) == Some(d),
            Err(e) => timestamp_of(input@).is_none() && chrono_parsed(input@, canonical_format())
                is Err && e@ == format_error(chrono_parsed(input@, canonical_format())->Err_0),
        },
{
    bound_from_parsed(chrono_parse(input, timestamp_format()))
}

/// Writes a timestamp in the canonical format.
pub fn format_datetime(d: &DateTime) -> (r: Option<String>)
    ensures
        r.is_some() == rendering_of(*d).is_some(),
        r.is_some() ==> r.unwrap()@ == rendering_of(*d).unwrap(),
{
    chrono_format(d, timestamp_format())
}

} // verus!
