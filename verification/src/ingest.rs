//! Ingestion: a batch of raw lines in, the parsed entries and the number of
//! unparsable lines out, one line after the other or in parallel.

use vstd::prelude::*;
use rayon::iter::{IntoParallelRefIterator, ParallelIterator};
use crate::entry::{views, EntryView, LogEntry};
use crate::parser::{
    entry_from_groups, entry_of_groups, groups_text, line_pattern, line_pattern_text,
    match_groups_each, parse_log_line, parsed_line, regex_groups,
};

verus! {

/// Inputs larger than this many bytes are parsed in parallel.
pub const PARALLEL_THRESHOLD: u64 = 10 * 1024 * 1024;

/// Inputs larger than this many bytes get a progress indicator.
pub const PROGRESS_THRESHOLD: u64 = 5 * 1024 * 1024;

/// The entries of a source and the number of its lines that gave none.
#[derive(Debug)]
pub struct ParsedLogs {
    pub entries: Vec<LogEntry>,
    pub skipped: usize,
}

/// Whether a source of `size` bytes is parsed in parallel: when the caller
/// forces it, or when the size exceeds the threshold.
pub fn should_use_parallel(force: bool, size: u64) -> (parallel: bool)
    ensures
        parallel == (force || size > PARALLEL_THRESHOLD),
{
    force || size > PARALLEL_THRESHOLD
}

/// Whether a source of `size` bytes gets a progress indicator: when the
/// size exceeds the threshold.
pub fn should_use_progress(size: u64) -> (progress: bool)
    ensures
        progress == (size > PROGRESS_THRESHOLD),
{
    size > PROGRESS_THRESHOLD
}

/// A text without the trailing run of the characters `a` and `b`.
pub open spec fn trimmed_end(text: Seq<char>, a: char, b: char) -> Seq<char>
    decreases text.len(),
{
    if text.len() > 0 && (text.last() == a || text.last() == b) {
        trimmed_end(text.drop_last(), a, b)
    } else {
        text
    }
}

/// A raw line without its line ending: trailing line feeds and carriage
/// returns are dropped.
pub open spec fn stripped(line: Seq<char>) -> Seq<char> {
    trimmed_end(line, '\n', '\r')
}

/// Whether a character is a line feed or a carriage return.
pub fn is_line_break(c: char) -> (r: bool)
    ensures
        r == (c == '\n' || c == '\r'),
{
    c == '\n' || c == '\r'
}

/// Drops the line ending of a raw line.
pub fn strip_line_ending(line: &str) -> (r: &str)
    ensures
        r@ == stripped(line@),
{
    let mut end: usize = line.unicode_len();
    assert(line@.take(end as int) =~= line@);
    while end > 0 && is_line_break(line.get_char(end - 1))
        invariant
            end <= line@.len(),
            stripped(line@) == stripped(line@.take(end as int)),
        decreases end,
    {
        assert(line@.take(end as int).last() == line@[end - 1]);
        assert(line@.take(end as int).drop_last() =~= line@.take(end - 1));
        end -= 1;
    }
    proof {
        if end > 0 {
            assert(line@.take(end as int).last() == line@[end - 1]);
        }
        assert(line@.take(end as int) =~= line@.subrange(0, end as int));
    }
    line.substring_char(0, end)
}

/// The texts of a batch of lines.
pub open spec fn texts(lines: Seq<String>) -> Seq<Seq<char>> {
    lines.map_values(|line: String| line@)
}

/// The entries of a batch of raw lines, each stripped of its line ending
/// and parsed, in the order of the lines.
pub open spec fn sequential_entries(lines: Seq<Seq<char>>) -> Seq<EntryView> {
    lines.filter_map(|line: Seq<char>| parsed_line(stripped(line)))
}

/// Strips a raw line of its line ending and parses it.
pub fn parse_raw_line(raw: &str) -> (r: Option<LogEntry>)
    ensures
        r.is_some() == parsed_line(stripped(raw@)).is_some(),
        r.is_some() ==> r.unwrap()@ == parsed_line(stripped(raw@)).unwrap(),
{
    parse_log_line(strip_line_ending(raw))
}

/// The entries made of a batch of matches, in the order of the matches.
pub open spec fn assembled(found: Seq<Option<(String, String, String)>>) -> Seq<EntryView> {
    found.filter_map(|groups: Option<(String, String, String)>| entry_of_groups(groups_text(groups)))
}

/// Builds the entries with rayon's `par_iter`, `filter_map` and `collect`,
/// each by `entry_from_groups`. Trusted: the vector holds the entries of
/// the matches that give one, in the order of the matches; rayon collects
/// the pieces of an unindexed iterator from left to right.
#[verifier::external_body]
fn assemble_in_parallel(found: &Vec<Option<(String, String, String)>>) -> (entries: Vec<LogEntry>)
    ensures
        views(entries@) == assembled(found@),
{
    found.par_iter().filter_map(|groups| entry_from_groups(groups)).collect()
}

/// The matches of the stripped lines give the entries of the lines.
pub proof fn lemma_assembled(found: Seq<Option<(String, String, String)>>, lines: Seq<Seq<char>>)
    requires
        found.len() == lines.len(),
        forall|i: int|
            0 <= i < lines.len() ==> groups_text(#[trigger] found[i]) == regex_groups(
                line_pattern(),
                stripped(lines[i]),
            ),
    ensures
        assembled(found) == sequential_entries(lines),
    decreases lines.len(),
{
    if lines.len() > 0 {
        lemma_assembled(found.drop_last(), lines.drop_last());
        assert(groups_text(found.last()) == regex_groups(line_pattern(), stripped(lines.last())));
    }
}

/// Strips every line of a batch of its line ending.
pub fn strip_all(lines: &Vec<String>) -> (bare: Vec<String>)
    ensures
        bare.len() == lines.len(),
        forall|i: int| 0 <= i < lines.len() ==> (#[trigger] bare[i])@ == stripped(lines[i]@),
{
    let mut bare: Vec<String> = Vec::new();
    let mut i: usize = 0;
    while i < lines.len()
        invariant
            i <= lines.len(),
            bare.len() == i,
            forall|j: int| 0 <= j < i ==> (#[trigger] bare[j])@ == stripped(lines[j]@),
        decreases lines.len() - i,
    {
        bare.push(String::from_str(strip_line_ending(lines[i].as_str())));
        i += 1;
    }
    bare
}

/// Matches every line of a batch, stripped of its line ending, against the
/// shape of a log line. The pattern is compiled once for the batch.
pub fn match_lines(lines: &Vec<String>) -> (found: Vec<Option<(String, String, String)>>)
    ensures
        found.len() == lines.len(),
        forall|i: int|
            0 <= i < lines.len() ==> groups_text(#[trigger] found[i]) == regex_groups(
                line_pattern(),
                stripped(lines[i]@),
            ),
        assembled(found@) == sequential_entries(texts(lines@)),
{
    let bare = strip_all(lines);
    let found = match_groups_each(line_pattern_text(), &bare);
    proof {
        assert forall|i: int| 0 <= i < lines.len() implies groups_text(#[trigger] found[i])
            == regex_groups(line_pattern(), stripped(lines[i]@)) by {
            assert(bare[i]@ == stripped(lines[i]@));
        }
        lemma_assembled(found@, texts(lines@));
    }
    found
}

/// What one raw line adds to the entries: its entry, if it parses.
pub open spec fn line_yield(raw: Seq<char>) -> Seq<EntryView> {
    match parsed_line(stripped(raw)) {
        Some(e) => seq![e],
        None => Seq::empty(),
    }
}

impl ParsedLogs {
    /// The result of ingesting nothing.
    pub fn new() -> (parsed: ParsedLogs)
        ensures
            parsed.entries@.len() == 0,
            parsed.skipped == 0,
    {
        ParsedLogs { entries: Vec::new(), skipped: 0 }
    }

    /// Takes in a batch of raw lines, in their order: each is stripped of
    /// its line ending and parsed; the entries are added at the end, and
    /// the lines that give none are counted as skipped.
    pub fn absorb_all(&mut self, lines: &Vec<String>)
        requires
            old(self).skipped + lines.len() <= usize::MAX,
        ensures
            views(final(self).entries@) == views(old(self).entries@) + sequential_entries(
                texts(lines@),
            ),
            final(self).entries.len() + final(self).skipped == old(self).entries.len() + old(
                self,
            ).skipped + lines.len(),
            final(self).skipped >= old(self).skipped,
    {
        let ghost f = |line: Seq<char>| parsed_line(stripped(line));
        let ghost start = views(self.entries@);
        let found = match_lines(lines);
        let mut i: usize = 0;
        assert(texts(lines@).take(0).filter_map(f) =~= Seq::<EntryView>::empty());
        while i < lines.len()
            invariant
                i <= lines.len(),
                found.len() == lines.len(),
                f == (|line: Seq<char>| parsed_line(stripped(line))),
                forall|j: int|
                    0 <= j < lines.len() ==> groups_text(#[trigger] found[j]) == regex_groups(
                        line_pattern(),
                        stripped(lines[j]@),
                    ),
                views(self.entries@) == start + texts(lines@).take(i as int).filter_map(f),
                start == views(old(self).entries@),
                self.entries.len() + self.skipped == old(self).entries.len() + old(self).skipped
                    + i,
                old(self).skipped <= self.skipped <= old(self).skipped + i,
                old(self).skipped + lines.len() <= usize::MAX,
            decreases lines.len() - i,
        {
            proof {
                texts(lines@).lemma_filter_map_take_succ(f, i as int);
                assert(texts(lines@)[i as int] == lines[i as int]@);
            }
            let ghost prior = self.entries@;
            match entry_from_groups(&found[i]) {
                Some(entry) => {
                    self.entries.push(entry);
                    assert(views(self.entries@) =~= views(prior) + seq![entry@]);
                },
                None => {
                    self.skipped = self.skipped + 1;
                },
            }
            i += 1;
        }
        assert(texts(lines@).take(i as int) =~= texts(lines@));
    }

    /// Takes in one more raw line: it is stripped of its line ending and
    /// parsed; its entry is added at the end, or the line is counted as
    /// skipped. The pattern is compiled for this one line: `absorb_all` is
    /// the faster way to take in many.
    pub fn absorb(&mut self, raw: &str)
        requires
            old(self).skipped < usize::MAX,
        ensures
            views(final(self).entries@) == views(old(self).entries@) + line_yield(raw@),
            final(self).skipped == old(self).skipped + (if parsed_line(stripped(raw@)).is_some() {
                0usize
            } else {
                1usize
            }),
    {
        let ghost prior = self.entries@;
        match parse_raw_line(raw) {
            Some(entry) => {
                self.entries.push(entry);
                assert(views(self.entries@) =~= views(prior) + seq![entry@]);
            },
            None => {
                self.skipped = self.skipped + 1;
                assert(views(self.entries@) =~= views(prior) + Seq::<EntryView>::empty());
            },
        }
    }
}

/// Parses raw lines one after the other. Each line is stripped of its line
/// ending first; a line that does not parse is counted, never reported.
pub fn read_logs(lines: &Vec<String>) -> (parsed: ParsedLogs)
    ensures
        views(parsed.entries@) == sequential_entries(texts(lines@)),
        parsed.entries.len() + parsed.skipped == lines.len(),
{
    let mut parsed = ParsedLogs::new();
    assert(views(parsed.entries@) =~= Seq::<EntryView>::empty());
    parsed.absorb_all(lines);
    assert(views(parsed.entries@) =~= sequential_entries(texts(lines@)));
    parsed
}

/// Parses raw lines in parallel. Each line is stripped of its line ending
/// and matched first, as in the sequential mode; the entries are then
/// built in parallel. The lines that do not parse are not tracked one by
/// one: their number is what is missing among the entries.
pub fn read_logs_parallel(lines: &Vec<String>) -> (parsed: ParsedLogs)
    ensures
        views(parsed.entries@) == sequential_entries(texts(lines@)),
        parsed.entries.len() + parsed.skipped == lines.len(),
{
    let found = match_lines(lines);
    let entries = assemble_in_parallel(&found);
    proof {
        lemma_entries_len(texts(lines@));
        assert(views(entries@).len() == entries@.len());
    }
    let skipped = lines.len() - entries.len();
    ParsedLogs { entries, skipped }
}

/// Parsing a batch gives at most one entry per line.
pub proof fn lemma_entries_len(lines: Seq<Seq<char>>)
    ensures
        sequential_entries(lines).len() <= lines.len(),
    decreases lines.len(),
{
    if lines.len() > 0 {
        lemma_entries_len(lines.drop_last());
    }
}

/// Ingesting the same lines one after the other and in parallel yields the
/// same entries, in the same order and each as often, and the same number
/// of skipped lines.
pub proof fn lemma_modes_agree(lines: Seq<String>, one: ParsedLogs, other: ParsedLogs)
    requires
        views(one.entries@) == sequential_entries(texts(lines)),
        one.entries.len() + one.skipped == lines.len(),
        views(other.entries@) == sequential_entries(texts(lines)),
        other.entries.len() + other.skipped == lines.len(),
    ensures
        views(one.entries@) == views(other.entries@),
        views(one.entries@).to_multiset() == views(other.entries@).to_multiset(),
        one.skipped == other.skipped,
{
    assert(views(one.entries@).len() == one.entries@.len());
    assert(views(other.entries@).len() == other.entries@.len());
}

} // verus!
