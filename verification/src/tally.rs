//! Counting how often each key occurs, and ranking the counts.

use vstd::prelude::*;

verus! {

/// A key and how often it was seen.
#[derive(Debug)]
pub struct Frequency {
    pub key: String,
    pub count: usize,
}

/// The mathematical value of a `Frequency`.
pub struct Tally {
    pub key: Seq<char>,
    pub count: nat,
}

impl View for Frequency {
    type V = Tally;

    open spec fn view(&self) -> Tally {
        Tally { key: self.key@, count: self.count as nat }
    }
}

impl Clone for Frequency {
    fn clone(&self) -> (r: Frequency)
        ensures
            r@ == self@,
    {
        Frequency { key: self.key.clone(), count: self.count }
    }
}

/// The values of a sequence of frequencies, in order.
pub open spec fn tallies(v: Seq<Frequency>) -> Seq<Tally> {
    v.map_values(|f: Frequency| f@)
}

/// Some tally of `t` is for the key `k`.
pub open spec fn has_key(t: Seq<Tally>, k: Seq<char>) -> bool {
    exists|j: int| 0 <= j < t.len() && (#[trigger] t[j]).key == k
}

/// The tally at `j` is the first one for the key `k`.
pub open spec fn first_for(t: Seq<Tally>, k: Seq<char>, j: int) -> bool {
    &&& 0 <= j < t.len()
    &&& t[j].key == k
    &&& forall|m: int| 0 <= m < j ==> (#[trigger] t[m]).key != k
}

/// The place of the first tally for the key `k`, where there is one.
pub open spec fn key_index(t: Seq<Tally>, k: Seq<char>) -> int {
    choose|j: int| first_for(t, k, j)
}

/// Where some tally is for the key `k`, `key_index` is the place of the
/// first such tally.
pub proof fn lemma_first_for(t: Seq<Tally>, k: Seq<char>, j: int)
    requires
        0 <= j < t.len(),
        t[j].key == k,
    ensures
        first_for(t, k, key_index(t, k)),
        key_index(t, k) <= j,
    decreases j,
{
    if exists|m: int| 0 <= m < j && (#[trigger] t[m]).key == k {
        let m = choose|m: int| 0 <= m < j && (#[trigger] t[m]).key == k;
        lemma_first_for(t, k, m);
    } else {
        assert(first_for(t, k, j));
        let c = key_index(t, k);
        if c > j {
            assert(t[j].key != k);
        }
    }
}

/// No two tallies are for the same key.
pub open spec fn distinct_keys(t: Seq<Tally>) -> bool {
    forall|a: int, b: int| 0 <= a < b < t.len() ==> (#[trigger] t[a]).key != (#[trigger] t[b]).key
}

/// Every count is at most `n`.
pub open spec fn counts_within(t: Seq<Tally>, n: int) -> bool {
    forall|j: int| 0 <= j < t.len() ==> (#[trigger] t[j]).count <= n
}

/// Where some tally is for the key `k`, `key_index` finds the first one.
pub proof fn lemma_has_key(t: Seq<Tally>, k: Seq<char>)
    requires
        has_key(t, k),
    ensures
        first_for(t, k, key_index(t, k)),
{
    let w = choose|w: int| 0 <= w < t.len() && (#[trigger] t[w]).key == k;
    lemma_first_for(t, k, w);
}

/// The tallies after one more sighting of `k`: its count goes up by one
/// where it stands; a key not seen before is added at the end with count 1.
pub open spec fn bumped(t: Seq<Tally>, k: Seq<char>) -> Seq<Tally> {
    if has_key(t, k) {
        let j = key_index(t, k);
        t.update(j, Tally { key: k, count: t[j].count + 1 })
    } else {
        t.push(Tally { key: k, count: 1 })
    }
}

/// The tallies of a sequence of sightings: one per distinct key, in the
/// order in which the keys were first seen.
pub open spec fn tally_of(keys: Seq<Seq<char>>) -> Seq<Tally>
    decreases keys.len(),
{
    if keys.len() == 0 {
        Seq::empty()
    } else {
        bumped(tally_of(keys.drop_last()), keys.last())
    }
}

/// One more sighting keeps the keys distinct, adds at most one tally, and
/// raises no count by more than one.
pub proof fn lemma_bumped(t: Seq<Tally>, k: Seq<char>, n: int)
    requires
        distinct_keys(t),
        counts_within(t, n),
        n >= 0,
    ensures
        distinct_keys(bumped(t, k)),
        counts_within(bumped(t, k), n + 1),
        t.len() <= bumped(t, k).len() <= t.len() + 1,
        has_key(bumped(t, k), k),
{
    let r = bumped(t, k);
    if has_key(t, k) {
        lemma_has_key(t, k);
        let j = key_index(t, k);
        assert(r[j].key == k);
        assert forall|a: int, b: int| 0 <= a < b < r.len() implies (#[trigger] r[a]).key != (
        #[trigger] r[b]).key by {
            assert(r[a].key == t[a].key);
            assert(r[b].key == t[b].key);
        }
    } else {
        assert(r[t.len() as int].key == k);
        assert forall|a: int, b: int| 0 <= a < b < r.len() implies (#[trigger] r[a]).key != (
        #[trigger] r[b]).key by {
            assert(r[a] == t[a]);
            if b < t.len() {
                assert(r[b] == t[b]);
            }
        }
    }
}

/// The tallies of any sequence of sightings have distinct keys, and no
/// count exceeds the number of sightings.
pub proof fn lemma_tally_of(keys: Seq<Seq<char>>)
    ensures
        distinct_keys(tally_of(keys)),
        counts_within(tally_of(keys), keys.len() as int),
        tally_of(keys).len() <= keys.len(),
    decreases keys.len(),
{
    if keys.len() > 0 {
        lemma_tally_of(keys.drop_last());
        lemma_bumped(tally_of(keys.drop_last()), keys.last(), keys.len() - 1);
    }
}

/// The sightings of the key `k`, as a predicate.
pub open spec fn same_key(k: Seq<char>) -> spec_fn(Seq<char>) -> bool {
    |x: Seq<char>| x == k
}

/// How often the key `k` occurs among the sightings.
pub open spec fn occurrences(keys: Seq<Seq<char>>, k: Seq<char>) -> nat {
    keys.filter(same_key(k)).len()
}

/// The tallies count the sightings: a key has a tally exactly if it was
/// seen, and the count of its tally is the number of its sightings.
pub proof fn lemma_tally_counts(keys: Seq<Seq<char>>, k: Seq<char>)
    ensures
        has_key(tally_of(keys), k) <==> occurrences(keys, k) > 0,
        has_key(tally_of(keys), k) ==> tally_of(keys)[key_index(tally_of(keys), k)].count
            == occurrences(keys, k),
    decreases keys.len(),
{
    if keys.len() == 0 {
        keys.lemma_filter_len(same_key(k));
    } else {
        let rest = keys.drop_last();
        let last = keys.last();
        let t = tally_of(rest);
        let r = bumped(t, last);
        lemma_tally_counts(rest, k);
        lemma_tally_of(rest);
        lemma_bumped(t, last, rest.len() as int);
        assert(keys =~= rest.push(last));
        rest.lemma_filter_push(last, same_key(k));
        if has_key(t, last) {
            lemma_has_key(t, last);
        }
        if has_key(t, k) {
            lemma_has_key(t, k);
            let j = key_index(t, k);
            assert(r[j].key == k);
            assert(has_key(r, k));
            lemma_key_index(r, k, j);
            if k != last && has_key(t, last) {
                assert(key_index(t, last) != j);
            }
        } else if k == last {
            assert(r[t.len() as int].key == k);
            lemma_key_index(r, k, t.len() as int);
        } else {
            if has_key(r, k) {
                lemma_has_key(r, k);
                let m = key_index(r, k);
                if m < t.len() {
                    assert(t[m].key == k);
                }
            }
        }
    }
}

/// Among distinct keys, the tally for a key stands at one place only.
pub proof fn lemma_key_index(t: Seq<Tally>, k: Seq<char>, j: int)
    requires
        distinct_keys(t),
        0 <= j < t.len(),
        t[j].key == k,
    ensures
        has_key(t, k),
        key_index(t, k) == j,
{
    lemma_first_for(t, k, j);
    let chosen = key_index(t, k);
    if chosen < j {
        assert(t[chosen].key != t[j].key);
    } else if chosen > j {
        assert(t[j].key != t[chosen].key);
    }
}

/// The sighting at `i` is the first one of the key `k`.
pub open spec fn first_seen_at(keys: Seq<Seq<char>>, k: Seq<char>, i: int) -> bool {
    &&& 0 <= i < keys.len()
    &&& keys[i] == k
    &&& forall|m: int| 0 <= m < i ==> #[trigger] keys[m] != k
}

/// The tallies stand in the order in which their keys were first seen.
pub open spec fn in_order_of_sighting(keys: Seq<Seq<char>>, t: Seq<Tally>) -> bool {
    forall|a: int, b: int, i: int, j: int|
        0 <= a < b < t.len() && #[trigger] first_seen_at(keys, t[a].key, i)
            && #[trigger] first_seen_at(keys, t[b].key, j) ==> i < j
}

/// Every key that was seen has a tally.
pub open spec fn all_tallied(keys: Seq<Seq<char>>, t: Seq<Tally>) -> bool {
    forall|i: int| 0 <= i < keys.len() ==> has_key(t, #[trigger] keys[i])
}

/// Every tally is for a key that was seen.
pub open spec fn all_sighted(keys: Seq<Seq<char>>, t: Seq<Tally>) -> bool {
    forall|a: int| 0 <= a < t.len() ==> exists|i: int| 0 <= i < keys.len() && #[trigger] keys[i] == (#[trigger] t[a]).key
}

/// The tallies hold one tally for each key that was seen and no other, in
/// the order in which the keys were first seen.
pub proof fn lemma_tally_order(keys: Seq<Seq<char>>)
    ensures
        all_tallied(keys, tally_of(keys)),
        all_sighted(keys, tally_of(keys)),
        in_order_of_sighting(keys, tally_of(keys)),
    decreases keys.len(),
{
    if keys.len() > 0 {
        let rest = keys.drop_last();
        let last = keys.last();
        let t = tally_of(rest);
        let r = bumped(t, last);
        lemma_tally_order(rest);
        lemma_tally_of(rest);
        lemma_bumped(t, last, rest.len() as int);
        if has_key(t, last) {
            lemma_has_key(t, last);
        }
        assert forall|a: int| 0 <= a < t.len() implies (#[trigger] r[a]).key == t[a].key by {}
        assert forall|i: int| 0 <= i < keys.len() implies has_key(r, #[trigger] keys[i]) by {
            if i < rest.len() {
                assert(keys[i] == rest[i]);
                assert(has_key(t, rest[i]));
                let w = choose|w: int| 0 <= w < t.len() && (#[trigger] t[w]).key == rest[i];
                assert(r[w].key == keys[i]);
            }
        }
        assert forall|a: int| 0 <= a < r.len() implies exists|i: int|
            0 <= i < keys.len() && #[trigger] keys[i] == (#[trigger] r[a]).key by {
            if a < t.len() {
                let i = choose|i: int| 0 <= i < rest.len() && #[trigger] rest[i] == t[a].key;
                assert(keys[i] == r[a].key);
            } else {
                assert(keys[keys.len() - 1] == r[a].key);
            }
        }
        assert forall|a: int, b: int, i: int, j: int|
            0 <= a < b < r.len() && #[trigger] first_seen_at(keys, r[a].key, i)
                && #[trigger] first_seen_at(keys, r[b].key, j) implies i < j by {
            let w = choose|w: int| 0 <= w < rest.len() && #[trigger] rest[w] == t[a].key;
            assert(keys[w] == r[a].key);
            assert(i <= w);
            assert(i < rest.len());
            assert(first_seen_at(rest, t[a].key, i)) by {
                assert forall|m: int| 0 <= m < i implies #[trigger] rest[m] != t[a].key by {
                    assert(rest[m] == keys[m]);
                }
            }
            if b < t.len() {
                let v = choose|v: int| 0 <= v < rest.len() && #[trigger] rest[v] == t[b].key;
                assert(keys[v] == r[b].key);
                assert(j <= v);
                assert(first_seen_at(rest, t[b].key, j)) by {
                    assert forall|m: int| 0 <= m < j implies #[trigger] rest[m] != t[b].key by {
                        assert(rest[m] == keys[m]);
                    }
                }
            } else {
                assert(!has_key(t, last));
                if j < rest.len() {
                    assert(rest[j] == last);
                    assert(has_key(t, rest[j]));
                }
            }
        }
    }
}

/// Records one more sighting of `key`: the count of the first frequency for
/// that key goes up by one; where there is none, one is added at the end
/// with count 1. No count may stand at the largest number that fits.
pub fn bump(v: &mut Vec<Frequency>, key: String)
    requires
        counts_within(tallies(old(v)@), usize::MAX - 1),
    ensures
        tallies(final(v)@) == bumped(tallies(old(v)@), key@),
{
    let ghost t = tallies(v@);
    let mut j: usize = 0;
    while j < v.len()
        invariant
            j <= v.len(),
            t == tallies(v@),
            v@ == old(v)@,
            counts_within(t, usize::MAX - 1),
            forall|m: int| 0 <= m < j ==> (#[trigger] t[m]).key != key@,
        decreases v.len() - j,
    {
        if v[j].key == key {
            assert(t[j as int].key == key@);
            assert(has_key(t, key@));
            proof {
                lemma_first_for(t, key@, j as int);
                let chosen = key_index(t, key@);
                if chosen < j {
                    assert(t[chosen].key != key@);
                }
            }
            let count = v[j].count;
            assert(t[j as int].count == count);
            v.set(j, Frequency { key: key, count: count + 1 });
            assert(tallies(v@) =~= bumped(t, key@));
            return ;
        }
        j += 1;
    }
    assert(!has_key(t, key@));
    v.push(Frequency { key: key, count: 1 });
    assert(tallies(v@) =~= bumped(t, key@));
}

/// Where a tally with count `c` is placed in a ranking: behind every
/// leading tally whose count is at least `c`.
pub open spec fn slot(s: Seq<Tally>, c: nat) -> int
    decreases s.len(),
{
    if s.len() == 0 || s[0].count < c {
        0
    } else {
        1 + slot(s.skip(1), c)
    }
}

/// A ranking with one more tally placed in it.
pub open spec fn placed(s: Seq<Tally>, x: Tally) -> Seq<Tally> {
    s.insert(slot(s, x.count), x)
}

/// The tallies in descending order of count; among equal counts the one
/// that stood first stays first.
pub open spec fn ranked(t: Seq<Tally>) -> Seq<Tally>
    decreases t.len(),
{
    if t.len() == 0 {
        Seq::empty()
    } else {
        placed(ranked(t.drop_last()), t.last())
    }
}

/// Counts never rise along the sequence.
pub open spec fn descending(s: Seq<Tally>) -> bool {
    forall|a: int, b: int| 0 <= a < b < s.len() ==> (#[trigger] s[a]).count >= (#[trigger] s[b]).count
}

/// The slot is the first place whose tally has a count below `c`.
pub proof fn lemma_slot(s: Seq<Tally>, c: nat)
    ensures
        0 <= slot(s, c) <= s.len(),
        forall|j: int| 0 <= j < slot(s, c) ==> (#[trigger] s[j]).count >= c,
        slot(s, c) < s.len() ==> s[slot(s, c)].count < c,
    decreases s.len(),
{
    if s.len() == 0 || s[0].count < c {
    } else {
        let rest = s.skip(1);
        lemma_slot(rest, c);
        assert forall|j: int| 0 <= j < slot(s, c) implies (#[trigger] s[j]).count >= c by {
            if j > 0 {
                assert(s[j] == rest[j - 1]);
            }
        }
        if slot(s, c) < s.len() {
            assert(s[slot(s, c)] == rest[slot(rest, c)]);
        }
    }
}

/// A place that has the two properties of the slot is the slot.
pub proof fn lemma_slot_is(s: Seq<Tally>, c: nat, p: int)
    requires
        0 <= p <= s.len(),
        forall|j: int| 0 <= j < p ==> (#[trigger] s[j]).count >= c,
        p < s.len() ==> s[p].count < c,
    ensures
        slot(s, c) == p,
    decreases p,
{
    if p > 0 {
        let rest = s.skip(1);
        assert(s[0].count >= c);
        assert forall|j: int| 0 <= j < p - 1 implies (#[trigger] rest[j]).count >= c by {
            assert(rest[j] == s[j + 1]);
        }
        lemma_slot_is(rest, c, p - 1);
    }
}

/// A ranking is a rearrangement of the tallies, in descending order of
/// count.
pub proof fn lemma_ranked(t: Seq<Tally>)
    ensures
        ranked(t).len() == t.len(),
        ranked(t).to_multiset() == t.to_multiset(),
        descending(ranked(t)),
    decreases t.len(),
{
    broadcast use {vstd::seq_lib::to_multiset_build, vstd::seq_lib::to_multiset_insert};

    if t.len() == 0 {
        assert(ranked(t) =~= t);
    } else {
        let rest = t.drop_last();
        let x = t.last();
        let s = ranked(rest);
        lemma_ranked(rest);
        lemma_slot(s, x.count);
        let p = slot(s, x.count);
        let r = s.insert(p, x);
        assert(t =~= rest.push(x));
        assert(r.to_multiset() == s.to_multiset().insert(x));
        assert(t.to_multiset() == rest.to_multiset().insert(x));
        assert forall|a: int, b: int| 0 <= a < b < r.len() implies (#[trigger] r[a]).count >= (
        #[trigger] r[b]).count by {
            if a < p && b < p {
                assert(r[a] == s[a] && r[b] == s[b]);
            } else if a < p && b == p {
                assert(r[a] == s[a]);
            } else if a < p && b > p {
                assert(r[a] == s[a] && r[b] == s[b - 1]);
            } else if a == p {
                assert(r[b] == s[b - 1]);
                assert(s[p].count >= s[b - 1].count || p == b - 1);
            } else {
                assert(r[a] == s[a - 1] && r[b] == s[b - 1]);
            }
        }
    }
}

/// Wherever two tallies of the ranking `r` have the same count, the one
/// that stands first in `r` stands first in `t` too.
pub open spec fn order_kept(t: Seq<Tally>, r: Seq<Tally>) -> bool {
    forall|a: int, b: int|
        0 <= a < b < r.len() && (#[trigger] r[a]).count == (#[trigger] r[b]).count ==> key_index(
            t,
            r[a].key,
        ) < key_index(t, r[b].key)
}

/// Ranking is stable: among tallies of equal count, the one that stood
/// first stays first.
pub proof fn lemma_ranked_stable(t: Seq<Tally>)
    requires
        distinct_keys(t),
    ensures
        order_kept(t, ranked(t)),
    decreases t.len(),
{
    broadcast use vstd::seq_lib::to_multiset_contains;

    if t.len() > 0 {
        let rest = t.drop_last();
        let x = t.last();
        let s = ranked(rest);
        assert(distinct_keys(rest)) by {
            assert forall|a: int, b: int| 0 <= a < b < rest.len() implies (#[trigger] rest[a]).key
                != (#[trigger] rest[b]).key by {
                assert(rest[a] == t[a] && rest[b] == t[b]);
            }
        }
        lemma_ranked_stable(rest);
        lemma_ranked(rest);
        lemma_slot(s, x.count);
        let p = slot(s, x.count);
        let r = s.insert(p, x);
        assert forall|i: int| 0 <= i < s.len() implies key_index(t, (#[trigger] s[i]).key)
            == key_index(rest, s[i].key) && key_index(rest, s[i].key) < rest.len() by {
            assert(s.contains(s[i]));
            assert(rest.to_multiset().count(s[i]) > 0);
            assert(rest.contains(s[i]));
            let m = choose|m: int| 0 <= m < rest.len() && rest[m] == s[i];
            lemma_key_index(rest, s[i].key, m);
            assert(t[m] == rest[m]);
            lemma_key_index(t, s[i].key, m);
        }
        lemma_key_index(t, x.key, t.len() - 1);
        assert forall|a: int, b: int|
            0 <= a < b < r.len() && (#[trigger] r[a]).count == (#[trigger] r[b]).count implies key_index(
            t,
            r[a].key,
        ) < key_index(t, r[b].key) by {
            if a == p {
                assert(r[b] == s[b - 1]);
                assert(s[p].count >= s[b - 1].count || p == b - 1);
            } else if b == p {
                assert(r[a] == s[a]);
            } else {
                let a0 = if a < p {
                    a
                } else {
                    a - 1
                };
                let b0 = if b < p {
                    b
                } else {
                    b - 1
                };
                assert(r[a] == s[a0] && r[b] == s[b0]);
                assert(s[a0].count == s[b0].count);
            }
        }
    }
}

/// Of any two tallies of `r`, the one that stands first has the higher
/// count, or the same count and a key that was seen first.
pub open spec fn ranked_by_count_then_sighting(keys: Seq<Seq<char>>, r: Seq<Tally>) -> bool {
    forall|a: int, b: int|
        0 <= a < b < r.len() ==> (#[trigger] r[a]).count > (#[trigger] r[b]).count || (r[a].count
            == r[b].count && forall|i: int, j: int|
            #[trigger] first_seen_at(keys, r[a].key, i) && #[trigger] first_seen_at(
                keys,
                r[b].key,
                j,
            ) ==> i < j)
}

/// The ranking of the tallies of a sequence of sightings puts the more
/// frequent key first and, among equally frequent keys, the one that was
/// seen first.
pub proof fn lemma_ranking_rule(keys: Seq<Seq<char>>)
    ensures
        ranked_by_count_then_sighting(keys, ranked(tally_of(keys))),
{
    broadcast use vstd::seq_lib::to_multiset_contains;

    let t = tally_of(keys);
    let r = ranked(t);
    lemma_tally_of(keys);
    lemma_tally_order(keys);
    lemma_ranked(t);
    lemma_ranked_stable(t);
    assert forall|a: int, b: int| 0 <= a < b < r.len() implies (#[trigger] r[a]).count > (
    #[trigger] r[b]).count || (r[a].count == r[b].count && forall|i: int, j: int|
        #[trigger] first_seen_at(keys, r[a].key, i) && #[trigger] first_seen_at(keys, r[b].key, j)
            ==> i < j) by {
        if r[a].count == r[b].count {
            let ka = r[a].key;
            let kb = r[b].key;
            assert(r.contains(r[a]) && r.contains(r[b]));
            assert(t.to_multiset().count(r[a]) > 0 && t.to_multiset().count(r[b]) > 0);
            assert(t.contains(r[a]) && t.contains(r[b]));
            let wa = choose|w: int| 0 <= w < t.len() && t[w] == r[a];
            let wb = choose|w: int| 0 <= w < t.len() && t[w] == r[b];
            lemma_key_index(t, ka, wa);
            lemma_key_index(t, kb, wb);
            assert(wa < wb);
            assert forall|i: int, j: int|
                #[trigger] first_seen_at(keys, ka, i) && #[trigger] first_seen_at(
                    keys,
                    kb,
                    j,
                ) implies i < j by {
                assert(first_seen_at(keys, t[wa].key, i));
                assert(first_seen_at(keys, t[wb].key, j));
            }
        }
    }
}

/// Every tally of `t` counts the sightings of its key, of which there is
/// at least one.
pub open spec fn counts_sightings(keys: Seq<Seq<char>>, t: Seq<Tally>) -> bool {
    forall|a: int|
        0 <= a < t.len() ==> (#[trigger] t[a]).count == occurrences(keys, t[a].key) && t[a].count
            > 0
}

/// Each tally of a sequence of sightings, ranked or not, holds the number
/// of sightings of its key.
pub proof fn lemma_counts_sightings(keys: Seq<Seq<char>>)
    ensures
        counts_sightings(keys, tally_of(keys)),
        counts_sightings(keys, ranked(tally_of(keys))),
{
    broadcast use vstd::seq_lib::to_multiset_contains;

    let t = tally_of(keys);
    let r = ranked(t);
    lemma_tally_of(keys);
    lemma_ranked(t);
    assert forall|a: int| 0 <= a < t.len() implies (#[trigger] t[a]).count == occurrences(
        keys,
        t[a].key,
    ) && t[a].count > 0 by {
        lemma_key_index(t, t[a].key, a);
        lemma_tally_counts(keys, t[a].key);
    }
    assert forall|a: int| 0 <= a < r.len() implies (#[trigger] r[a]).count == occurrences(
        keys,
        r[a].key,
    ) && r[a].count > 0 by {
        assert(r.contains(r[a]));
        assert(t.to_multiset().count(r[a]) > 0);
        assert(t.contains(r[a]));
        let w = choose|w: int| 0 <= w < t.len() && t[w] == r[a];
        assert(t[w].count == occurrences(keys, t[w].key));
    }
}

/// Ranks the frequencies: descending by count, first come first among
/// equal counts.
pub fn rank(v: &Vec<Frequency>) -> (out: Vec<Frequency>)
    ensures
        tallies(out@) == ranked(tallies(v@)),
        out.len() == v.len(),
        tallies(out@).to_multiset() == tallies(v@).to_multiset(),
        descending(tallies(out@)),
{
    let ghost t = tallies(v@);
    proof {
        lemma_ranked(t);
    }
    let mut out: Vec<Frequency> = Vec::new();
    let mut i: usize = 0;
    while i < v.len()
        invariant
            i <= v.len(),
            t == tallies(v@),
            out.len() == i,
            tallies(out@) == ranked(t.take(i as int)),
        decreases v.len() - i,
    {
        let item = v[i].clone();
        let ghost s = tallies(out@);
        let mut p: usize = 0;
        while p < out.len() && out[p].count >= item.count
            invariant
                p <= out.len(),
                s == tallies(out@),
                forall|j: int| 0 <= j < p ==> (#[trigger] s[j]).count >= item@.count,
            decreases out.len() - p,
        {
            assert(s[p as int].count == out[p as int].count);
            p += 1;
        }
        proof {
            if p < out.len() {
                assert(s[p as int].count == out[p as int].count);
            }
            lemma_slot_is(s, item@.count, p as int);
            assert(t.take(i + 1).drop_last() =~= t.take(i as int));
            assert(t.take(i + 1).last() == item@);
        }
        out.insert(p, item);
        assert(tallies(out@) =~= s.insert(p as int, item@));
        i += 1;
    }
    assert(t.take(i as int) =~= t);
    out
}

} // verus!
