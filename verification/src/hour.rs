//! The hour bucket of a timestamp, read off its text.

use vstd::prelude::*;
use vstd::string::{StrSliceExecFns, StringExecFns};

verus! {

/// The characters that Unicode gives the property `White_Space`.
pub open spec fn white_space(c: char) -> bool {
    let n = c as u32;
    ||| 0x09 <= n <= 0x0d
    ||| n == 0x20
    ||| n == 0x85
    ||| n == 0xa0
    ||| n == 0x1680
    ||| 0x2000 <= n <= 0x200a
    ||| n == 0x2028
    ||| n == 0x2029
    ||| n == 0x202f
    ||| n == 0x205f
    ||| n == 0x3000
}

/// Calls `char::is_whitespace`. Trusted: the result says whether the
/// character has the Unicode property `White_Space`.
#[verifier::external_body]
fn is_white_space(c: char) -> (r: bool)
    ensures
        r == white_space(c),
{
    c.is_whitespace()
}

/// The end of the longest run of characters from `from` on that are all
/// white space (`space` true) or all not (`space` false).
pub open spec fn run_end(s: Seq<char>, from: int, space: bool) -> int
    decreases s.len() - from,
{
    if 0 <= from < s.len() && white_space(s[from]) == space {
        run_end(s, from + 1, space)
    } else {
        from
    }
}

/// The place of the first `stop` in `s` between `from` and `to`, or `to`.
pub open spec fn stop_index(s: Seq<char>, from: int, to: int, stop: char) -> int
    decreases to - from,
{
    if 0 <= from < to && from < s.len() && s[from] != stop {
        stop_index(s, from + 1, to, stop)
    } else {
        from
    }
}

/// Where the second word of `s` begins: behind leading white space, the
/// first word, and the white space after it.
pub open spec fn second_word_start(s: Seq<char>) -> int {
    run_end(s, run_end(s, run_end(s, 0, true), false), true)
}

/// The hour bucket of a timestamp: the second white-space-separated word
/// up to its first colon, followed by `:00`. A text of fewer than two words
/// has none.
pub open spec fn hour_of(ts: Seq<char>) -> Option<Seq<char>> {
    let start = second_word_start(ts);
    if start >= ts.len() {
        None
    } else {
        let end = run_end(ts, start, false);
        Some(ts.subrange(start, stop_index(ts, start, end, ':')) + ":00"@)
    }
}

/// A run ends within the text, at or behind its start.
pub proof fn lemma_run_bounds(s: Seq<char>, from: int, space: bool)
    requires
        0 <= from <= s.len(),
    ensures
        from <= run_end(s, from, space) <= s.len(),
    decreases s.len() - from,
{
    if from < s.len() && white_space(s[from]) == space {
        lemma_run_bounds(s, from + 1, space);
    }
}

/// A run passes over every stretch of characters of its kind.
pub proof fn lemma_run_passes(s: Seq<char>, from: int, to: int, space: bool)
    requires
        0 <= from <= to <= s.len(),
        forall|i: int| from <= i < to ==> white_space(#[trigger] s[i]) == space,
    ensures
        run_end(s, from, space) == run_end(s, to, space),
    decreases to - from,
{
    if from < to {
        lemma_run_passes(s, from + 1, to, space);
    }
}

/// The search for a stop passes over every stretch free of it.
pub proof fn lemma_stop_passes(s: Seq<char>, from: int, mid: int, to: int, stop: char)
    requires
        0 <= from <= mid <= to <= s.len(),
        forall|i: int| from <= i < mid ==> #[trigger] s[i] != stop,
    ensures
        stop_index(s, from, to, stop) == stop_index(s, mid, to, stop),
    decreases mid - from,
{
    if from < mid {
        lemma_stop_passes(s, from + 1, mid, to, stop);
    }
}

/// Of a timestamp made of a date, white space, an hour and a rest that
/// begins with a colon or white space, the hour bucket is the hour followed
/// by `:00`.
pub proof fn lemma_hour_of_timestamp(
    date: Seq<char>,
    gap: Seq<char>,
    hour: Seq<char>,
    rest: Seq<char>,
)
    requires
        date.len() > 0,
        gap.len() > 0,
        hour.len() > 0,
        forall|i: int| 0 <= i < date.len() ==> !white_space(#[trigger] date[i]),
        forall|i: int| 0 <= i < gap.len() ==> white_space(#[trigger] gap[i]),
        forall|i: int| 0 <= i < hour.len() ==> !white_space(#[trigger] hour[i]) && hour[i] != ':',
        rest.len() > 0 ==> rest[0] == ':' || white_space(rest[0]),
    ensures
        hour_of(date + gap + hour + rest) == Some(hour + ":00"@),
{
    let s = date + gap + hour + rest;
    let b = date.len() as int;
    let c = b + gap.len();
    let e = c + hour.len();
    assert forall|i: int| 0 <= i < b implies white_space(#[trigger] s[i]) == false by {
        assert(s[i] == date[i]);
    }
    assert forall|i: int| b <= i < c implies white_space(#[trigger] s[i]) == true by {
        assert(s[i] == gap[i - b]);
    }
    assert forall|i: int| c <= i < e implies white_space(#[trigger] s[i]) == false by {
        assert(s[i] == hour[i - c]);
    }
    assert forall|i: int| c <= i < e implies #[trigger] s[i] != ':' by {
        assert(s[i] == hour[i - c]);
    }
    assert(run_end(s, 0, true) == 0) by {
        assert(!white_space(s[0]));
    }
    lemma_run_passes(s, 0, b, false);
    assert(run_end(s, b, false) == b) by {
        assert(white_space(s[b]));
    }
    lemma_run_passes(s, b, c, true);
    assert(run_end(s, c, true) == c) by {
        assert(!white_space(s[c]));
    }
    assert(second_word_start(s) == c);
    lemma_run_passes(s, c, e, false);
    lemma_run_bounds(s, e, false);
    let d = run_end(s, c, false);
    lemma_stop_passes(s, c, e, d, ':');
    if rest.len() > 0 {
        assert(s[e] == rest[0]);
    }
    assert(stop_index(s, e, d, ':') == e);
    assert(s.subrange(c, e) =~= hour);
}

fn scan_run(s: &str, len: usize, from: usize, space: bool) -> (end: usize)
    requires
        len == s@.len(),
        from <= len,
    ensures
        end == run_end(s@, from as int, space),
        from <= end <= len,
{
    let mut j: usize = from;
    while j < len && is_white_space(s.get_char(j)) == space
        invariant
            from <= j <= len,
            len == s@.len(),
            run_end(s@, from as int, space) == run_end(s@, j as int, space),
        decreases len - j,
    {
        j += 1;
    }
    j
}

fn scan_stop(s: &str, from: usize, to: usize, stop: char) -> (end: usize)
    requires
        from <= to <= s@.len(),
    ensures
        end == stop_index(s@, from as int, to as int, stop),
        from <= end <= to,
{
    let mut j: usize = from;
    while j < to && s.get_char(j) != stop
        invariant
            from <= j <= to,
            to <= s@.len(),
            stop_index(s@, from as int, to as int, stop) == stop_index(
                s@,
                j as int,
                to as int,
                stop,
            ),
        decreases to - j,
    {
        j += 1;
    }
    j
}

/// Reads the hour bucket `HH:00` off a timestamp. The reading is purely
/// lexical: the text between the second word's start and its first colon.
pub fn extract_hour(ts: &str) -> (hour: Option<String>)
    ensures
        hour.is_some() == hour_of(ts@).is_some(),
        hour.is_some() ==> hour.unwrap()@ == hour_of(ts@).unwrap(),
{
    let len = ts.unicode_len();
    let a = scan_run(ts, len, 0, true);
    let b = scan_run(ts, len, a, false);
    let start = scan_run(ts, len, b, true);
    if start >= len {
        None
    } else {
        let end = scan_run(ts, len, start, false);
        let colon = scan_stop(ts, start, end, ':');
        let mut hour = String::from_str(ts.substring_char(start, colon));
        hour.append(":00");
        Some(hour)
    }
}

} // verus!
