//! The order in which a histogram is shown: the greatest count first.

use std::collections::HashMap;
use vstd::prelude::*;
use vstd::relations::{sorted_by, total_ordering};
use vstd::seq_lib::lemma_sorted_unique;

use crate::crawler::histogram::{tallies_of, AgentCount};

verus! {

/// A key and a count.
pub type Entry = (u64, usize);

/// `a` is shown no later than `b`: it has the greater count or, with the same
/// count, a key that is not greater.
pub open spec fn outranks(a: Entry, b: Entry) -> bool {
    a.1 > b.1 || (a.1 == b.1 && a.0 <= b.0)
}

/// `outranks` as a relation.
pub open spec fn by_rank() -> spec_fn(Entry, Entry) -> bool {
    |a: Entry, b: Entry| outranks(a, b)
}

/// The entries in the order in which they are shown.
pub open spec fn ranked(entries: Seq<Entry>) -> Seq<Entry> {
    entries.sort_by(by_rank())
}

/// `outranks` orders the entries totally.
pub proof fn lemma_rank_is_total()
    ensures
        total_ordering(by_rank()),
{
    let r = by_rank();
    assert forall|x: Entry| #[trigger] r(x, x) by {}
    assert forall|x: Entry, y: Entry| #[trigger] r(x, y) && #[trigger] r(y, x) implies x == y by {}
    assert forall|x: Entry, y: Entry, z: Entry| #[trigger] r(x, y) && #[trigger] r(y, z) implies r(
        x,
        z,
    ) by {}
    assert forall|x: Entry, y: Entry| #[trigger] r(x, y) || #[trigger] r(y, x) by {}
}

/// The ranked entries are the given ones in ranked order: sorted, as many,
/// and each of them one of the given.
pub proof fn lemma_ranked(entries: Seq<Entry>)
    ensures
        sorted_by(ranked(entries), by_rank()),
        ranked(entries).to_multiset() == entries.to_multiset(),
        ranked(entries).len() == entries.len(),
        forall|i: int| 0 <= i < ranked(entries).len() ==> entries.contains(#[trigger] ranked(entries)[i]),
        forall|i: int| 0 <= i < entries.len() ==> ranked(entries).contains(#[trigger] entries[i]),
        entries.no_duplicates() ==> ranked(entries).no_duplicates(),
{
    broadcast use vstd::seq_lib::group_to_multiset_ensures;

    lemma_rank_is_total();
    entries.lemma_sort_by_ensures(by_rank());
    let sorted = ranked(entries);
    assert(sorted.to_multiset().len() == sorted.len());
    assert(entries.to_multiset().len() == entries.len());
    assert forall|i: int| 0 <= i < sorted.len() implies entries.contains(#[trigger] sorted[i]) by {
        assert(sorted.contains(sorted[i]));
        assert(sorted.to_multiset().count(sorted[i]) > 0);
    }
    assert forall|i: int| 0 <= i < entries.len() implies sorted.contains(#[trigger] entries[i]) by {
        assert(entries.contains(entries[i]));
        assert(entries.to_multiset().count(entries[i]) > 0);
    }
    if entries.no_duplicates() {
        entries.lemma_multiset_has_no_duplicates();
        sorted.lemma_multiset_has_no_duplicates_conv();
    }
}

/// Sorts the entries into the order in which they are shown: by falling
/// count and, among equal counts, by rising key.
pub fn rank(entries: &Vec<Entry>) -> (sorted: Vec<Entry>)
    ensures
        sorted@ == ranked(entries@),
{
    broadcast use vstd::seq_lib::group_to_multiset_ensures;

    let mut sorted: Vec<Entry> = Vec::new();
    let mut i: usize = 0;
    while i < entries.len()
        invariant
            i <= entries.len(),
            sorted_by(sorted@, by_rank()),
            sorted@.to_multiset() == entries@.take(i as int).to_multiset(),
            sorted@.len() == i,
        decreases entries.len() - i,
    {
        let entry = entries[i];
        let mut at: usize = 0;
        while at < sorted.len() && (sorted[at].1 > entry.1 || (sorted[at].1 == entry.1
            && sorted[at].0 <= entry.0))
            invariant
                at <= sorted.len(),
                forall|j: int| 0 <= j < at ==> outranks(#[trigger] sorted@[j], entry),
            decreases sorted.len() - at,
        {
            at += 1;
        }
        let ghost before = sorted@;
        sorted.insert(at, entry);
        proof {
            let seen = entries@.take(i as int);
            assert(entries@.take(i + 1) =~= seen.push(entry));
            assert(sorted@ == before.insert(at as int, entry));
            vstd::seq_lib::to_multiset_insert(before, at as int, entry);
            vstd::seq_lib::to_multiset_build(seen, entry);
            assert(before.insert(at as int, entry).to_multiset() == before.to_multiset().insert(
                entry,
            ));
            assert(seen.push(entry).to_multiset() == seen.to_multiset().insert(entry));
            let r = by_rank();
            assert forall|p: int, q: int| 0 <= p < q < sorted@.len() implies #[trigger] r(
                sorted@[p],
                sorted@[q],
            ) by {
                if q < at {
                    assert(r(before[p], before[q]));
                } else if q == at {
                    assert(outranks(before[p], entry));
                } else if p == at {
                    assert(!outranks(before[at as int], entry));
                    assert(r(before[at as int], before[q - 1]) || q - 1 == at);
                } else if p < at {
                    assert(r(before[p], before[q - 1]));
                } else {
                    assert(r(before[p - 1], before[q - 1]));
                }
            }
        }
        i += 1;
    }
    proof {
        assert(entries@.take(i as int) =~= entries@);
        lemma_rank_is_total();
        lemma_ranked(entries@);
        lemma_sorted_unique(sorted@, ranked(entries@), by_rank());
    }
    sorted
}

/// `lines` shows a histogram of versions: each version of `versions` once,
/// with its count, in ranked order.
pub open spec fn is_version_ranking(lines: Seq<Entry>, versions: Map<u32, usize>) -> bool {
    &&& sorted_by(lines, by_rank())
    &&& lines.no_duplicates()
    &&& forall|i: int|
        0 <= i < lines.len() ==> (#[trigger] lines[i]).0 <= u32::MAX && versions.contains_pair(
            lines[i].0 as u32,
            lines[i].1,
        )
    &&& forall|v: u32|
        versions.contains_key(v) ==> lines.contains((v as u64, #[trigger] versions[v]))
}

/// The order in which a histogram of versions is shown: by falling count
/// and, among equal counts, by rising version.
pub open spec fn version_ranking(versions: Map<u32, usize>) -> Seq<Entry> {
    choose|lines: Seq<Entry>| is_version_ranking(lines, versions)
}

/// A histogram of versions is shown in one order only.
pub proof fn lemma_version_ranking_unique(a: Seq<Entry>, b: Seq<Entry>, versions: Map<u32, usize>)
    requires
        is_version_ranking(a, versions),
        is_version_ranking(b, versions),
    ensures
        a == b,
        a == version_ranking(versions),
{
    broadcast use vstd::seq_lib::group_to_multiset_ensures;

    lemma_rank_is_total();
    lemma_same_entries(a, b, versions);
    lemma_sorted_unique(a, b, by_rank());
    let c = version_ranking(versions);
    lemma_same_entries(a, c, versions);
    lemma_sorted_unique(a, c, by_rank());
}

proof fn lemma_same_entries(a: Seq<Entry>, b: Seq<Entry>, versions: Map<u32, usize>)
    requires
        is_version_ranking(a, versions),
        is_version_ranking(b, versions),
    ensures
        a.to_multiset() == b.to_multiset(),
{
    broadcast use vstd::seq_lib::group_to_multiset_ensures;

    a.lemma_multiset_has_no_duplicates();
    b.lemma_multiset_has_no_duplicates();
    assert forall|x: Entry| a.contains(x) implies b.contains(x) by {
        let i = choose|i: int| 0 <= i < a.len() && a[i] == x;
        assert(versions.contains_pair(a[i].0 as u32, a[i].1));
        assert(b.contains((a[i].0 as u32 as u64, versions[a[i].0 as u32])));
    }
    assert forall|x: Entry| b.contains(x) implies a.contains(x) by {
        let i = choose|i: int| 0 <= i < b.len() && b[i] == x;
        assert(versions.contains_pair(b[i].0 as u32, b[i].1));
        assert(a.contains((b[i].0 as u32 as u64, versions[b[i].0 as u32])));
    }
    assert forall|x: Entry| a.to_multiset().count(x) == b.to_multiset().count(x) by {
        if a.contains(x) {
            assert(b.contains(x));
            assert(a.to_multiset().contains(x));
            assert(b.to_multiset().contains(x));
        } else {
            assert(!b.contains(x));
        }
    }
    assert(a.to_multiset() =~= b.to_multiset());
}

/// The entries of a histogram of versions in the order in which they are
/// shown.
pub fn rank_versions(versions: &HashMap<u32, usize>) -> (lines: Vec<Entry>)
    ensures
        is_version_ranking(lines@, versions@),
        lines@ == version_ranking(versions@),
{
    let mut entries: Vec<Entry> = Vec::new();
    for pair in it: versions.iter()
        invariant
            entries@.len() == it.index(),
            it.seq().no_duplicates(),
            forall|j: int|
                0 <= j < it.seq().len() ==> versions@.contains_pair(
                    *(#[trigger] it.seq()[j]).0,
                    *it.seq()[j].1,
                ),
            forall|v: u32|
                versions@.contains_key(v) ==> it.seq().contains((&v, &#[trigger] versions@[v])),
            forall|j: int|
                0 <= j < entries@.len() ==> (#[trigger] entries@[j]) == (
                    *it.seq()[j].0 as u64,
                    *it.seq()[j].1,
                ),
            entries@.no_duplicates(),
            forall|j: int|
                0 <= j < entries@.len() ==> (#[trigger] entries@[j]).0 <= u32::MAX
                    && versions@.contains_pair(entries@[j].0 as u32, entries@[j].1),
            it.index() == it.seq().len() ==> forall|v: u32|
                versions@.contains_key(v) ==> entries@.contains((v as u64, #[trigger] versions@[v])),
    {
        let (version, count) = pair;
        let ghost before = entries@;
        entries.push((*version as u64, *count));
        proof {
            let n = before.len() as int;
            assert(it.seq()[n] == pair);
            assert forall|i: int, j: int| 0 <= i < j < entries@.len() implies entries@[i]
                != entries@[j] by {
                if j == n {
                    assert(it.seq()[i] != it.seq()[n]);
                    assert(versions@.contains_pair(*it.seq()[i].0, *it.seq()[i].1));
                    assert(versions@.contains_pair(*it.seq()[n].0, *it.seq()[n].1));
                }
            }
            assert forall|v: u32|
                n + 1 == it.seq().len() && versions@.contains_key(v) implies entries@.contains(
                (v as u64, #[trigger] versions@[v]),
            ) by {
                let found = (&v, &versions@[v]);
                assert(it.seq().contains(found));
                let j = choose|j: int| 0 <= j < it.seq().len() && it.seq()[j] == found;
                assert(entries@[j] == (v as u64, versions@[v]));
            }
        }
    }
    let lines = rank(&entries);
    proof {
        lemma_ranked(entries@);
        assert forall|i: int| 0 <= i < lines@.len() implies (#[trigger] lines@[i]).0 <= u32::MAX
            && versions@.contains_pair(lines@[i].0 as u32, lines@[i].1) by {
            assert(entries@.contains(lines@[i]));
        }
        assert forall|v: u32| versions@.contains_key(v) implies lines@.contains(
            (v as u64, #[trigger] versions@[v]),
        ) by {
            let e = (v as u64, versions@[v]);
            assert(entries@.contains(e));
            let j = choose|j: int| 0 <= j < entries@.len() && entries@[j] == e;
            assert(lines@.contains(entries@[j]));
        }
        lemma_version_ranking_unique(lines@, lines@, versions@);
    }
    lines
}

/// The entries of a list of user agents: for each agent its place in the list
/// and its count.
pub open spec fn agent_entries(tallies: Seq<(Seq<char>, nat)>) -> Seq<Entry> {
    Seq::new(tallies.len(), |i: int| (i as u64, tallies[i].1 as usize))
}

/// The order in which a list of user agents is shown: by falling count and,
/// among equal counts, by place in the list. Each entry holds the place of
/// its agent in the list.
pub open spec fn agent_ranking(tallies: Seq<(Seq<char>, nat)>) -> Seq<Entry> {
    ranked(agent_entries(tallies))
}

/// Every entry of the ranking of a list of user agents holds a place in the
/// list and the count that stands there.
pub proof fn lemma_agent_ranking(tallies: Seq<(Seq<char>, nat)>)
    requires
        tallies.len() <= usize::MAX,
        forall|i: int| 0 <= i < tallies.len() ==> (#[trigger] tallies[i]).1 <= usize::MAX,
    ensures
        agent_ranking(tallies).len() == tallies.len(),
        agent_ranking(tallies).no_duplicates(),
        sorted_by(agent_ranking(tallies), by_rank()),
        forall|i: int|
            0 <= i < tallies.len() ==> {
                &&& (#[trigger] agent_ranking(tallies)[i]).0 < tallies.len()
                &&& agent_ranking(tallies)[i].1 == tallies[agent_ranking(tallies)[i].0 as int].1
            },
{
    let entries = agent_entries(tallies);
    lemma_ranked(entries);
    let lines = agent_ranking(tallies);
    assert forall|i: int| 0 <= i < tallies.len() implies {
        &&& (#[trigger] lines[i]).0 < tallies.len()
        &&& lines[i].1 == tallies[lines[i].0 as int].1
    } by {
        assert(entries.contains(lines[i]));
        let j = choose|j: int| 0 <= j < entries.len() && entries[j] == lines[i];
        assert(lines[i].0 == j);
    }
}

/// The entries of a list of user agents in the order in which they are
/// shown.
pub fn rank_agents(counts: &Vec<AgentCount>) -> (lines: Vec<Entry>)
    ensures
        lines@ == agent_ranking(tallies_of(counts@)),
        lines@.len() == counts@.len(),
        forall|i: int|
            0 <= i < lines@.len() ==> (#[trigger] lines@[i]).0 < counts@.len() && lines@[i].1
                == counts@[lines@[i].0 as int].count,
{
    let mut entries: Vec<Entry> = Vec::new();
    let mut i: usize = 0;
    while i < counts.len()
        invariant
            i <= counts.len(),
            entries@ == agent_entries(tallies_of(counts@)).take(i as int),
        decreases counts.len() - i,
    {
        entries.push((i as u64, counts[i].count));
        assert(entries@ =~= agent_entries(tallies_of(counts@)).take(i + 1));
        i += 1;
    }
    proof {
        assert(entries@ =~= agent_entries(tallies_of(counts@)));
        lemma_agent_ranking(tallies_of(counts@));
    }
    rank(&entries)
}

} // verus!
