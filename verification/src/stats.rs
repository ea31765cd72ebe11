//! The aggregator: totals, counts by level, the most frequent error
//! messages and the errors of each hour.

use vstd::prelude::*;
use vstd::string::StringExecFns;
use crate::datetime::{format_datetime, rendering_of, DateTime};
use crate::entry::{views, EntryView, LogEntry};
use crate::hour::{extract_hour, hour_of};
use crate::level::LogLevel;
use crate::parser::text_of;
use crate::tally::{
    bump, counts_sightings, counts_within, distinct_keys, first_seen_at, in_order_of_sighting,
    lemma_bumped, lemma_counts_sightings, lemma_ranked, lemma_ranking_rule, lemma_tally_of,
    lemma_tally_order, rank, ranked, ranked_by_count_then_sighting, tallies, tally_of, Frequency,
    Tally,
};

verus! {

/// How many entries of a batch have each level.
#[derive(Clone, Copy, Debug, PartialEq, Eq, Structural)]
pub struct LevelCounts {
    pub info: usize,
    pub warning: usize,
    pub error: usize,
    pub debug: usize,
}

/// The statistics of a filtered batch.
#[derive(Debug)]
pub struct LogStats {
    /// The number of entries in the batch.
    pub total_entries: usize,
    pub by_level: LevelCounts,
    /// The most frequent error messages, most frequent first.
    pub top_errors: Vec<Frequency>,
    /// The number of errors in each hour bucket, in order of first sighting.
    pub errors_by_hour: Vec<Frequency>,
    /// The lower bound of the filter, in canonical form.
    pub since: Option<String>,
    /// The upper bound of the filter, in canonical form.
    pub until: Option<String>,
    /// The number of lines of the source that did not parse.
    pub skipped_lines: usize,
}

/// The entries of the given level, as a predicate.
pub open spec fn at_level(level: LogLevel) -> spec_fn(EntryView) -> bool {
    |e: EntryView| e.level == level
}

/// The number of entries of a batch that have the given level.
pub open spec fn level_count(batch: Seq<EntryView>, level: LogLevel) -> nat {
    batch.filter(at_level(level)).len()
}

/// The messages of the error entries of a batch, in order.
pub open spec fn error_messages(batch: Seq<EntryView>) -> Seq<Seq<char>> {
    batch.filter_map(
        |e: EntryView|
            if e.level == LogLevel::Error {
                Some(e.message)
            } else {
                None
            },
    )
}

/// The hour buckets of the error entries of a batch whose timestamp has
/// one, in order.
pub open spec fn error_hours(batch: Seq<EntryView>) -> Seq<Seq<char>> {
    batch.filter_map(
        |e: EntryView|
            if e.level == LogLevel::Error {
                hour_of(e.timestamp)
            } else {
                None
            },
    )
}

/// The number of top errors that are reported for a bound of `top_n`: the
/// bound itself, but at least one.
pub open spec fn top_limit(top_n: usize) -> int {
    if top_n < 1 {
        1
    } else {
        top_n as int
    }
}

/// The first `limit` tallies of a ranking, or all of them if there are fewer.
pub open spec fn leading(ranking: Seq<Tally>, limit: int) -> Seq<Tally> {
    if 0 <= limit <= ranking.len() {
        ranking.subrange(0, limit)
    } else {
        ranking
    }
}

/// The canonical form of an optional filter bound.
pub open spec fn bound_text(bound: Option<DateTime>) -> Option<Seq<char>> {
    match bound {
        Some(d) => rendering_of(d),
        None => None,
    }
}

impl LevelCounts {
    /// The count of one level.
    pub open spec fn of(self, level: LogLevel) -> nat {
        match level {
            LogLevel::Info => self.info as nat,
            LogLevel::Warning => self.warning as nat,
            LogLevel::Error => self.error as nat,
            LogLevel::Debug => self.debug as nat,
        }
    }

    /// The four counts are those of the batch.
    pub open spec fn counts(self, batch: Seq<EntryView>) -> bool {
        forall|level: LogLevel| self.of(level) == level_count(batch, level)
    }

    /// The sum of the four counts.
    pub open spec fn total(self) -> nat {
        (self.info + self.warning + self.error + self.debug) as nat
    }

    /// What is recorded under a level: its count, where the level was seen.
    pub open spec fn recorded(self, level: LogLevel) -> Option<usize> {
        if self.of(level) > 0 {
            Some(self.of(level) as usize)
        } else {
            None
        }
    }

    /// What is recorded under a name: the count of the level with that
    /// canonical name, where there is one and it was seen.
    pub open spec fn lookup(self, name: Seq<char>) -> Option<usize> {
        if name == LogLevel::Info.name() {
            self.recorded(LogLevel::Info)
        } else if name == LogLevel::Warning.name() {
            self.recorded(LogLevel::Warning)
        } else if name == LogLevel::Error.name() {
            self.recorded(LogLevel::Error)
        } else if name == LogLevel::Debug.name() {
            self.recorded(LogLevel::Debug)
        } else {
            None
        }
    }

    /// The count of a level, or nothing where no entry had it.
    pub fn count_of(&self, level: LogLevel) -> (count: Option<usize>)
        ensures
            count == self.recorded(level),
    {
        let n = match level {
            LogLevel::Info => self.info,
            LogLevel::Warning => self.warning,
            LogLevel::Error => self.error,
            LogLevel::Debug => self.debug,
        };
        if n > 0 {
            Some(n)
        } else {
            None
        }
    }

    /// The count recorded under a canonical level name.
    pub fn get(&self, name: &str) -> (count: Option<usize>)
        ensures
            count == self.lookup(name@),
    {
        let name = String::from_str(name);
        if name == String::from_str(LogLevel::Info.as_str()) {
            self.count_of(LogLevel::Info)
        } else if name == String::from_str(LogLevel::Warning.as_str()) {
            self.count_of(LogLevel::Warning)
        } else if name == String::from_str(LogLevel::Error.as_str()) {
            self.count_of(LogLevel::Error)
        } else if name == String::from_str(LogLevel::Debug.as_str()) {
            self.count_of(LogLevel::Debug)
        } else {
            None
        }
    }
}

/// The counts by level of a batch add up to the number of its entries.
pub proof fn lemma_level_counts_sum(batch: Seq<EntryView>)
    ensures
        level_count(batch, LogLevel::Info) + level_count(batch, LogLevel::Warning) + level_count(
            batch,
            LogLevel::Error,
        ) + level_count(batch, LogLevel::Debug) == batch.len(),
    decreases batch.len(),
{
    if batch.len() == 0 {
        batch.lemma_filter_len(at_level(LogLevel::Info));
        batch.lemma_filter_len(at_level(LogLevel::Warning));
        batch.lemma_filter_len(at_level(LogLevel::Error));
        batch.lemma_filter_len(at_level(LogLevel::Debug));
    } else {
        let rest = batch.drop_last();
        lemma_level_counts_sum(rest);
        assert(batch =~= rest.push(batch.last()));
        rest.lemma_filter_push(batch.last(), at_level(LogLevel::Info));
        rest.lemma_filter_push(batch.last(), at_level(LogLevel::Warning));
        rest.lemma_filter_push(batch.last(), at_level(LogLevel::Error));
        rest.lemma_filter_push(batch.last(), at_level(LogLevel::Debug));
    }
}

/// There are at most as many error hours as error entries.
proof fn lemma_error_hours_len(batch: Seq<EntryView>)
    ensures
        error_hours(batch).len() <= level_count(batch, LogLevel::Error),
    decreases batch.len(),
{
    if batch.len() == 0 {
        batch.lemma_filter_len(at_level(LogLevel::Error));
    } else {
        let rest = batch.drop_last();
        lemma_error_hours_len(rest);
        assert(batch =~= rest.push(batch.last()));
        rest.lemma_filter_push(batch.last(), at_level(LogLevel::Error));
    }
}

/// The statistics that `analyze_logs` owes for a batch.
pub open spec fn describes(
    stats: LogStats,
    batch: Seq<EntryView>,
    top_n: usize,
    since: Option<DateTime>,
    until: Option<DateTime>,
    skipped: usize,
) -> bool {
    &&& stats.total_entries == batch.len()
    &&& stats.by_level.counts(batch)
    &&& tallies(stats.top_errors@) == leading(
        ranked(tally_of(error_messages(batch))),
        top_limit(top_n),
    )
    &&& tallies(stats.errors_by_hour@) == tally_of(error_hours(batch))
    &&& text_of(stats.since) == bound_text(since)
    &&& text_of(stats.until) == bound_text(until)
    &&& stats.skipped_lines == skipped
}

/// What the reported tallies mean. The top errors stand by falling count
/// and, among equal counts, in the order in which their messages were first
/// seen; each holds the number of error entries with its message. Each hour
/// bucket holds the number of error entries of that hour, which is at least
/// one.
pub proof fn lemma_reported_tallies(
    stats: LogStats,
    batch: Seq<EntryView>,
    top_n: usize,
    since: Option<DateTime>,
    until: Option<DateTime>,
    skipped: usize,
)
    requires
        describes(stats, batch, top_n, since, until, skipped),
    ensures
        ranked_by_count_then_sighting(error_messages(batch), tallies(stats.top_errors@)),
        counts_sightings(error_messages(batch), tallies(stats.top_errors@)),
        counts_sightings(error_hours(batch), tallies(stats.errors_by_hour@)),
        in_order_of_sighting(error_hours(batch), tallies(stats.errors_by_hour@)),
{
    let keys = error_messages(batch);
    let r = ranked(tally_of(keys));
    let top = tallies(stats.top_errors@);
    lemma_ranking_rule(keys);
    lemma_counts_sightings(keys);
    lemma_counts_sightings(error_hours(batch));
    lemma_tally_order(error_hours(batch));
    assert forall|a: int| 0 <= a < top.len() implies #[trigger] top[a] == r[a] by {}
    assert forall|a: int, b: int| 0 <= a < b < top.len() implies (#[trigger] top[a]).count > (
    #[trigger] top[b]).count || (top[a].count == top[b].count && forall|i: int, j: int|
        #[trigger] first_seen_at(keys, top[a].key, i) && #[trigger] first_seen_at(
            keys,
            top[b].key,
            j,
        ) ==> i < j) by {
        assert(top[a] == r[a] && top[b] == r[b]);
    }
}

/// Writes an optional filter bound in canonical form.
pub fn echo_bound(bound: Option<DateTime>) -> (text: Option<String>)
    ensures
        text_of(text) == bound_text(bound),
{
    match bound {
        Some(d) => format_datetime(&d),
        None => None,
    }
}

/// Aggregates a filtered batch: the number of entries, the count of each
/// level, the `max(top_n, 1)` most frequent error messages (most frequent
/// first, among equally frequent ones the one seen first), the number of
/// errors in each hour bucket, and the echoed filter bounds.
pub fn analyze_logs(
    entries: &Vec<LogEntry>,
    top_n: usize,
    since: Option<DateTime>,
    until: Option<DateTime>,
    skipped: usize,
) -> (stats: LogStats)
    ensures
        describes(stats, views(entries@), top_n, since, until, skipped),
        stats.by_level.total() == stats.total_entries,
        stats.top_errors.len() <= top_limit(top_n),
        stats.top_errors.len() <= tally_of(error_messages(views(entries@))).len(),
        stats.errors_by_hour.len() <= stats.by_level.error,
{
    let ghost batch = views(entries@);
    let mut by_level = LevelCounts { info: 0, warning: 0, error: 0, debug: 0 };
    let mut messages: Vec<Frequency> = Vec::new();
    let mut hours: Vec<Frequency> = Vec::new();
    let mut i: usize = 0;
    proof {
        let none = batch.take(0);
        none.lemma_filter_len(at_level(LogLevel::Info));
        none.lemma_filter_len(at_level(LogLevel::Warning));
        none.lemma_filter_len(at_level(LogLevel::Error));
        none.lemma_filter_len(at_level(LogLevel::Debug));
    }
    while i < entries.len()
        invariant
            i <= entries.len(),
            batch == views(entries@),
            by_level.counts(batch.take(i as int)),
            tallies(messages@) == tally_of(error_messages(batch.take(i as int))),
            tallies(hours@) == tally_of(error_hours(batch.take(i as int))),
            distinct_keys(tallies(messages@)),
            distinct_keys(tallies(hours@)),
            counts_within(tallies(messages@), i as int),
            counts_within(tallies(hours@), i as int),
        decreases entries.len() - i,
    {
        let entry = &entries[i];
        let ghost before = batch.take(i as int);
        let ghost after = batch.take(i + 1);
        proof {
            assert(batch[i as int] == entry@);
            assert(after =~= before.push(entry@));
            lemma_level_counts_sum(before);
            before.lemma_filter_push(entry@, at_level(LogLevel::Info));
            before.lemma_filter_push(entry@, at_level(LogLevel::Warning));
            before.lemma_filter_push(entry@, at_level(LogLevel::Error));
            before.lemma_filter_push(entry@, at_level(LogLevel::Debug));
            assert(by_level.of(LogLevel::Info) == level_count(before, LogLevel::Info));
            assert(by_level.of(LogLevel::Warning) == level_count(before, LogLevel::Warning));
            assert(by_level.of(LogLevel::Error) == level_count(before, LogLevel::Error));
            assert(by_level.of(LogLevel::Debug) == level_count(before, LogLevel::Debug));
            batch.lemma_filter_map_take_succ(
                |e: EntryView|
                    if e.level == LogLevel::Error {
                        Some(e.message)
                    } else {
                        None
                    },
                i as int,
            );
            batch.lemma_filter_map_take_succ(
                |e: EntryView|
                    if e.level == LogLevel::Error {
                        hour_of(e.timestamp)
                    } else {
                        None
                    },
                i as int,
            );
        }
        match entry.level {
            LogLevel::Info => {
                by_level.info = by_level.info + 1;
            },
            LogLevel::Warning => {
                by_level.warning = by_level.warning + 1;
            },
            LogLevel::Error => {
                by_level.error = by_level.error + 1;
            },
            LogLevel::Debug => {
                by_level.debug = by_level.debug + 1;
            },
        }
        assert(by_level.counts(after)) by {
            assert forall|level: LogLevel| by_level.of(level) == level_count(after, level) by {
                match level {
                    LogLevel::Info => {},
                    LogLevel::Warning => {},
                    LogLevel::Error => {},
                    LogLevel::Debug => {},
                }
            }
        }
        if entry.level == LogLevel::Error {
            proof {
                let keys = error_messages(before);
                assert(error_messages(after) =~= keys.push(entry@.message));
                assert(error_messages(after).drop_last() =~= keys);
                lemma_bumped(tally_of(keys), entry@.message, i as int);
            }
            bump(&mut messages, entry.message.clone());
            match extract_hour(entry.timestamp.as_str()) {
                Some(hour) => {
                    proof {
                        let keys = error_hours(before);
                        assert(error_hours(after) =~= keys.push(hour@));
                        assert(error_hours(after).drop_last() =~= keys);
                        lemma_bumped(tally_of(keys), hour@, i as int);
                    }
                    bump(&mut hours, hour);
                },
                None => {
                    assert(error_hours(after) =~= error_hours(before));
                },
            }
        } else {
            assert(error_messages(after) =~= error_messages(before));
            assert(error_hours(after) =~= error_hours(before));
        }
        i += 1;
    }
    assert(batch.take(i as int) =~= batch);
    let mut top_errors = rank(&messages);
    let limit: usize = if top_n < 1 {
        1
    } else {
        top_n
    };
    top_errors.truncate(limit);
    proof {
        lemma_level_counts_sum(batch);
        assert(by_level.of(LogLevel::Info) == level_count(batch, LogLevel::Info));
        assert(by_level.of(LogLevel::Warning) == level_count(batch, LogLevel::Warning));
        assert(by_level.of(LogLevel::Error) == level_count(batch, LogLevel::Error));
        assert(by_level.of(LogLevel::Debug) == level_count(batch, LogLevel::Debug));
        assert(tallies(top_errors@) =~= leading(ranked(tallies(messages@)), limit as int));
        lemma_ranked(tallies(messages@));
        lemma_tally_of(error_hours(batch));
        lemma_error_hours_len(batch);
    }
    LogStats {
        total_entries: entries.len(),
        by_level: by_level,
        top_errors: top_errors,
        errors_by_hour: hours,
        since: echo_bound(since),
        until: echo_bound(until),
        skipped_lines: skipped,
    }
}

} // verus!
