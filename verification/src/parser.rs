//! The line parser: one raw line in, one entry or nothing out.

use vstd::prelude::*;
use regex::Regex;
use crate::datetime::{format_datetime, parse_datetime, rendering_of, timestamp_of, DateTime};
use crate::entry::{EntryView, LogEntry};
use crate::level::{level_of_name, uppercase_of, LogLevel};

verus! {

/// The shape of a log line: timestamp, bracketed level token, message.
pub open spec fn line_pattern() -> Seq<char> {
    r"^(\d{4}-\d{2}-\d{2}\s+\d{2}:\d{2}:\d{2})\s+\[(\w+)\]\s+(.+)$"@
}

/// The shape of a log line, as a regular expression with three groups.
pub fn line_pattern_text() -> (pattern: &'static str)
    ensures
        pattern@ == line_pattern(),
{
    r"^(\d{4}-\d{2}-\d{2}\s+\d{2}:\d{2}:\d{2})\s+\[(\w+)\]\s+(.+)$"
}

/// The texts of groups 1, 2 and 3 of the leftmost match that the regular
/// expression `pattern` finds in `text`, as the `regex` crate matches;
/// `None` where the pattern does not compile, there is no match, or one of
/// the three groups took no part in it.
pub uninterp spec fn regex_groups(pattern: Seq<char>, text: Seq<char>) -> Option<
    (Seq<char>, Seq<char>, Seq<char>),
>;

/// The three group texts of an optional match.
pub open spec fn groups_text(groups: Option<(String, String, String)>) -> Option<
    (Seq<char>, Seq<char>, Seq<char>),
> {
    match groups {
        Some(g) => Some((g.0@, g.1@, g.2@)),
        None => None,
    }
}

/// Compiles `pattern` once with `regex::Regex::new`, calls
/// `Regex::captures` on each text in turn and copies groups 1 to 3 out.
/// Trusted: there is one outcome per text, in the order of the texts, and
/// each is a function of the pattern and that text alone.
#[verifier::external_body]
pub(crate) fn match_groups_each(pattern: &str, texts: &Vec<String>) -> (found: Vec<
    Option<(String, String, String)>,
>)
    ensures
        found.len() == texts.len(),
        forall|i: int|
            0 <= i < texts.len() ==> groups_text(#[trigger] found[i]) == regex_groups(
                pattern@,
                texts[i]@,
            ),
{
    let re = Regex::new(pattern).ok();
    texts.iter().map(|text| {
        let caps = re.as_ref()?.captures(text)?;
        Some((
            caps.get(1)?.as_str().to_string(),
            caps.get(2)?.as_str().to_string(),
            caps.get(3)?.as_str().to_string(),
        ))
    }).collect()
}

/// The canonical rendering of a timestamp that was read, if one was read.
pub open spec fn canonical_of(datetime: Option<DateTime>) -> Option<Seq<char>> {
    match datetime {
        Some(d) => rendering_of(d),
        None => None,
    }
}

/// The entry made of the parts of a line: there is one only if the timestamp
/// is a calendar date and time, its text is the canonical rendering of that
/// date and time, and the token names a level.
pub open spec fn entry_of_parts(
    timestamp: Seq<char>,
    datetime: Option<DateTime>,
    canonical: Option<Seq<char>>,
    level: Option<LogLevel>,
    message: Seq<char>,
) -> Option<EntryView> {
    match (datetime, level) {
        (Some(d), Some(l)) => if canonical == Some(timestamp) {
            Some(EntryView { timestamp: timestamp, datetime: d, level: l, message: message })
        } else {
            None
        },
        _ => None,
    }
}

/// The entry made of the three groups of a match, if there is a match and
/// its parts make an entry.
pub open spec fn entry_of_groups(groups: Option<(Seq<char>, Seq<char>, Seq<char>)>) -> Option<
    EntryView,
> {
    match groups {
        Some(g) => entry_of_parts(
            g.0,
            timestamp_of(g.0),
            canonical_of(timestamp_of(g.0)),
            level_of_name(uppercase_of(g.1)),
            g.2,
        ),
        None => None,
    }
}

/// The entry that a line denotes, if it denotes one.
pub open spec fn parsed_line(line: Seq<char>) -> Option<EntryView> {
    entry_of_groups(regex_groups(line_pattern(), line))
}

/// Builds the entry from the parts of a line, once timestamp and level
/// token have been read and the timestamp has been written back in
/// canonical form. A timestamp whose text is not its own canonical form
/// gives no entry. Timestamp and message are kept verbatim.
pub fn assemble_entry(
    timestamp: String,
    datetime: Option<DateTime>,
    canonical: Option<String>,
    level: Option<LogLevel>,
    message: String,
) -> (r: Option<LogEntry>)
    ensures
        r.is_some() == (datetime.is_some() && level.is_some() && canonical.is_some()
            && canonical.unwrap()@ == timestamp@),
        match r {
            Some(e) => Some(e@) == entry_of_parts(
                timestamp@,
                datetime,
                text_of(canonical),
                level,
                message@,
            ),
            None => entry_of_parts(timestamp@, datetime, text_of(canonical), level, message@)
                .is_none(),
        },
{
    match (datetime, canonical, level) {
        (Some(d), Some(c), Some(l)) => {
            if c == timestamp {
                assert(text_of(canonical) == Some(timestamp@));
                Some(LogEntry { timestamp: timestamp, datetime: d, level: l, message: message })
            } else {
                None
            }
        },
        _ => None,
    }
}

/// The text of an optional string.
pub open spec fn text_of(s: Option<String>) -> Option<Seq<char>> {
    match s {
        Some(t) => Some(t@),
        None => None,
    }
}

/// The timestamp text of every entry that a line denotes is the canonical
/// rendering of the entry's date and time, and the date and time are what
/// that text denotes.
pub proof fn lemma_timestamp_is_canonical(line: Seq<char>)
    requires
        parsed_line(line).is_some(),
    ensures
        rendering_of(parsed_line(line).unwrap().datetime) == Some(
            parsed_line(line).unwrap().timestamp,
        ),
        timestamp_of(parsed_line(line).unwrap().timestamp) == Some(
            parsed_line(line).unwrap().datetime,
        ),
{
}

/// Reads timestamp and level off the groups of a match and builds the
/// entry. No match, a timestamp that is no calendar date and time or is
/// not written in the canonical form, or an unknown level token gives no
/// entry.
pub fn entry_from_groups(groups: &Option<(String, String, String)>) -> (r: Option<LogEntry>)
    ensures
        r.is_some() == entry_of_groups(groups_text(*groups)).is_some(),
        r.is_some() ==> r.unwrap()@ == entry_of_groups(groups_text(*groups)).unwrap(),
        r.is_some() ==> groups.is_some() && r.unwrap().timestamp@ == groups.unwrap().0@
            && r.unwrap().message@ == groups.unwrap().2@,
        r.is_some() ==> rendering_of(r.unwrap().datetime) == Some(r.unwrap().timestamp@),
{
    match groups {
        None => None,
        Some(g) => {
            let timestamp = g.0.clone();
            let message = g.2.clone();
            let datetime = match parse_datetime(timestamp.as_str()) {
                Ok(d) => Some(d),
                Err(_) => None,
            };
            let canonical = match datetime {
                Some(d) => format_datetime(&d),
                None => None,
            };
            let level = LogLevel::from_str(g.1.as_str());
            assemble_entry(timestamp, datetime, canonical, level, message)
        },
    }
}

/// Parses one line, already stripped of its line ending. A line that does
/// not have the shape of a log line, whose timestamp is no calendar date
/// and time or is not written in the canonical form, or whose level token
/// is unknown gives no entry. The timestamp text of an entry is the
/// canonical rendering of its date and time.
pub fn parse_log_line(line: &str) -> (r: Option<LogEntry>)
    ensures
        r.is_some() == parsed_line(line@).is_some(),
        r.is_some() ==> r.unwrap()@ == parsed_line(line@).unwrap(),
        r.is_some() ==> regex_groups(line_pattern(), line@).is_some() && r.unwrap().timestamp@
            == regex_groups(line_pattern(), line@).unwrap().0 && r.unwrap().message@
            == regex_groups(line_pattern(), line@).unwrap().2,
        r.is_some() ==> rendering_of(r.unwrap().datetime) == Some(r.unwrap().timestamp@),
{
    let mut texts: Vec<String> = Vec::new();
    texts.push(String::from_str(line));
    let found = match_groups_each(line_pattern_text(), &texts);
    assert(groups_text(found[0]) == regex_groups(line_pattern(), texts[0]@));
    entry_from_groups(&found[0])
}

} // verus!
