//! The filter pipeline: level, time window and text search, conjoined.

use vstd::prelude::*;
use vstd::string::StringExecFns;
use crate::datetime::DateTime;
use crate::entry::{views, EntryView, LogEntry};
use crate::level::LogLevel;

verus! {

/// The lower-case form of a text, as `str::to_lowercase` of the standard
/// library computes it (full Unicode case mapping).
pub uninterp spec fn lowercase_of(text: Seq<char>) -> Seq<char>;

/// Calls `str::to_lowercase`. Trusted: the result is the lower-case form of
/// the argument, a function of the argument alone.
#[verifier::external_body]
fn to_lower(text: &str) -> (lower: String)
    ensures
        lower@ == lowercase_of(text@),
{
    text.to_lowercase()
}

/// `needle` occurs in `hay` as a run of consecutive characters.
pub open spec fn occurs_in(hay: Seq<char>, needle: Seq<char>) -> bool {
    exists|i: int|
        0 <= i && i + needle.len() <= hay.len() && #[trigger] hay.subrange(i, i + needle.len())
            == needle
}

/// Calls `str::contains` with a string pattern. Trusted: the result says
/// whether the pattern occurs in the text as a substring.
#[verifier::external_body]
fn has_substring(hay: &str, needle: &str) -> (found: bool)
    ensures
        found == occurs_in(hay@, needle@),
{
    hay.contains(needle)
}

/// The parameters of a filter; an absent parameter constrains nothing.
pub struct Criteria {
    pub errors_only: bool,
    pub search: Option<Seq<char>>,
    pub since: Option<DateTime>,
    pub until: Option<DateTime>,
}

/// The canonical rendering of an entry: `<timestamp> [<LEVEL>] <message>`.
pub open spec fn rendering(e: EntryView) -> Seq<char> {
    e.timestamp + " ["@ + e.level.name() + "] "@ + e.message
}

/// Whether an entry satisfies every parameter of the filter. Both bounds of
/// the time window are inclusive; the search term is looked for in the
/// lower-cased canonical rendering.
pub open spec fn keeps(e: EntryView, c: Criteria) -> bool {
    &&& c.errors_only ==> e.level == LogLevel::Error
    &&& c.since matches Some(s) ==> s.at_or_before(e.datetime)
    &&& c.until matches Some(u) ==> e.datetime.at_or_before(u)
    &&& c.search matches Some(term) ==> occurs_in(lowercase_of(rendering(e)), term)
}

/// `keeps` under fixed parameters, as a predicate on entries.
pub open spec fn keeper(c: Criteria) -> spec_fn(EntryView) -> bool {
    |e: EntryView| keeps(e, c)
}

/// The entries of a batch that satisfy the filter, in their order.
pub open spec fn selected(batch: Seq<EntryView>, c: Criteria) -> Seq<EntryView> {
    batch.filter(keeper(c))
}

/// The filter parameters as they are handed to `filter_entries`.
pub open spec fn criteria(
    errors_only: bool,
    search_lower: Option<&str>,
    since: Option<DateTime>,
    until: Option<DateTime>,
) -> Criteria {
    Criteria {
        errors_only: errors_only,
        search: match search_lower {
            Some(term) => Some(term@),
            None => None,
        },
        since: since,
        until: until,
    }
}

/// Writes the canonical rendering of an entry.
pub fn render_entry(e: &LogEntry) -> (text: String)
    ensures
        text@ == rendering(e@),
{
    let mut text = e.timestamp.clone();
    text.append(" [");
    text.append(e.level.as_str());
    text.append("] ");
    text.append(e.message.as_str());
    text
}

/// Whether one entry satisfies the filter.
pub fn entry_passes(
    e: &LogEntry,
    errors_only: bool,
    search_lower: Option<&str>,
    since: Option<DateTime>,
    until: Option<DateTime>,
) -> (pass: bool)
    ensures
        pass == keeps(e@, criteria(errors_only, search_lower, since, until)),
{
    if errors_only && e.level != LogLevel::Error {
        return false;
    }
    if let Some(s) = since {
        if !s.not_after(&e.datetime) {
            return false;
        }
    }
    if let Some(u) = until {
        if !e.datetime.not_after(&u) {
            return false;
        }
    }
    match search_lower {
        Some(term) => {
            let rendered = render_entry(e);
            let haystack = to_lower(rendered.as_str());
            has_substring(haystack.as_str(), term)
        },
        None => true,
    }
}

/// Narrows a batch to the entries that satisfy every given parameter. The
/// entries that stay keep their order and their contents.
pub fn filter_entries(
    entries: Vec<LogEntry>,
    errors_only: bool,
    search_lower: Option<&str>,
    since: Option<DateTime>,
    until: Option<DateTime>,
) -> (kept: Vec<LogEntry>)
    ensures
        views(kept@) == selected(
            views(entries@),
            criteria(errors_only, search_lower, since, until),
        ),
        kept.len() <= entries.len(),
{
    let ghost c = criteria(errors_only, search_lower, since, until);
    let mut kept: Vec<LogEntry> = Vec::new();
    let mut i: usize = 0;
    while i < entries.len()
        invariant
            i <= entries.len(),
            c == criteria(errors_only, search_lower, since, until),
            views(kept@) == selected(views(entries@.take(i as int)), c),
            kept.len() <= i,
        decreases entries.len() - i,
    {
        let e = &entries[i];
        let pass = entry_passes(e, errors_only, search_lower, since, until);
        proof {
            let before = views(entries@.take(i as int));
            assert(views(entries@.take(i + 1)) =~= before.push(e@));
            before.lemma_filter_push(e@, keeper(c));
        }
        if pass {
            let ghost prior = kept@;
            kept.push(e.clone());
            assert(views(kept@) =~= views(prior).push(e@));
        }
        i += 1;
    }
    assert(entries@.take(i as int) =~= entries@);
    kept
}

/// Filtering is idempotent: a batch that has been filtered is left as it is
/// by a second pass with the same parameters.
pub proof fn lemma_filter_idempotent(batch: Seq<EntryView>, c: Criteria)
    ensures
        selected(selected(batch, c), c) == selected(batch, c),
    decreases batch.len(),
{
    if batch.len() == 0 {
        reveal(Seq::filter);
        assert(selected(batch, c) =~= batch);
    } else {
        let rest = batch.drop_last();
        let last = batch.last();
        lemma_filter_idempotent(rest, c);
        assert(batch =~= rest.push(last));
        rest.lemma_filter_push(last, keeper(c));
        if keeps(last, c) {
            selected(rest, c).lemma_filter_push(last, keeper(c));
        }
    }
}

/// Every entry that the filter keeps satisfies its parameters, and the
/// filter never makes a batch longer.
pub proof fn lemma_selected_satisfy(batch: Seq<EntryView>, c: Criteria)
    ensures
        selected(batch, c).len() <= batch.len(),
        forall|i: int| 0 <= i < selected(batch, c).len() ==> keeps(#[trigger] selected(batch, c)[i], c),
{
    batch.lemma_filter_len(keeper(c));
    assert forall|i: int| 0 <= i < selected(batch, c).len() implies keeps(
        #[trigger] selected(batch, c)[i],
        c,
    ) by {
        batch.lemma_filter_pred(keeper(c), i);
    }
}

} // verus!
