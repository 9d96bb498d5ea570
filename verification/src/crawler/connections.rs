//! The set of connections found during a crawl, one entry for each pair of
//! endpoints.

use std::time::Instant;
use vstd::prelude::*;

use crate::crawler::connection::{now, KnownConnection};
use crate::crawler::endpoint::Endpoint;

verus! {

/// No two entries join the same two endpoints.
pub open spec fn distinct_links(s: Seq<KnownConnection>) -> bool {
    forall|i: int, j: int| 0 <= i < j < s.len() ==> !(#[trigger] s[i]).same_link(#[trigger] s[j])
}

/// Some entry joins `x` and `y`.
pub open spec fn holds(s: Seq<KnownConnection>, x: Endpoint, y: Endpoint) -> bool {
    exists|i: int| 0 <= i < s.len() && (#[trigger] s[i]).joins(x, y)
}

/// The entries with the time of each one that joins `x` and `y` replaced by
/// `seen`; the endpoints stay as they were stored.
pub open spec fn refreshed(
    s: Seq<KnownConnection>,
    x: Endpoint,
    y: Endpoint,
    seen: Instant,
) -> Seq<KnownConnection> {
    Seq::new(
        s.len(),
        |i: int|
            if s[i].joins(x, y) {
                KnownConnection { a: s[i].a, b: s[i].b, last_seen: seen }
            } else {
                s[i]
            },
    )
}

/// The entries after a report, at `seen`, of a connection between `x` and
/// `y`: a known connection has its time refreshed, a new one goes to the end.
pub open spec fn observed(
    s: Seq<KnownConnection>,
    x: Endpoint,
    y: Endpoint,
    seen: Instant,
) -> Seq<KnownConnection> {
    if holds(s, x, y) {
        refreshed(s, x, y, seen)
    } else {
        s.push(KnownConnection { a: x, b: y, last_seen: seen })
    }
}

/// A report never makes two entries of one connection.
pub proof fn lemma_observed_distinct(
    s: Seq<KnownConnection>,
    x: Endpoint,
    y: Endpoint,
    seen: Instant,
)
    requires
        distinct_links(s),
    ensures
        distinct_links(observed(s, x, y, seen)),
        holds(observed(s, x, y, seen), x, y),
        observed(s, x, y, seen).len() == s.len() + if holds(s, x, y) {
            0int
        } else {
            1int
        },
{
    let r = observed(s, x, y, seen);
    if holds(s, x, y) {
        let i = choose|i: int| 0 <= i < s.len() && (#[trigger] s[i]).joins(x, y);
        assert(r[i].joins(x, y));
        assert forall|p: int, q: int| 0 <= p < q < r.len() implies !(#[trigger] r[p]).same_link(
            #[trigger] r[q],
        ) by {
            assert(!s[p].same_link(s[q]));
        }
    } else {
        assert(r[s.len() as int].joins(x, y));
        assert forall|p: int, q: int| 0 <= p < q < r.len() implies !(#[trigger] r[p]).same_link(
            #[trigger] r[q],
        ) by {
            if q < s.len() {
                assert(!s[p].same_link(s[q]));
            } else {
                assert(!s[p].joins(x, y));
            }
        }
    }
}

/// A connection reported from one side and then from the other is one entry:
/// it holds the endpoints as they came first and the time of the later
/// report.
pub proof fn lemma_reverse_report_is_one_entry(x: Endpoint, y: Endpoint, t1: Instant, t2: Instant)
    ensures
        observed(observed(Seq::empty(), x, y, t1), y, x, t2) == seq![
            KnownConnection { a: x, b: y, last_seen: t2 },
        ],
{
    let empty = Seq::<KnownConnection>::empty();
    let first = observed(empty, x, y, t1);
    assert(!holds(empty, x, y));
    assert(first =~= seq![KnownConnection { a: x, b: y, last_seen: t1 }]);
    assert(first[0].joins(y, x));
    assert(holds(first, y, x));
    assert(observed(first, y, x, t2) =~= seq![KnownConnection { a: x, b: y, last_seen: t2 }]);
}

/// A connection from an endpoint to itself is one entry.
pub proof fn lemma_self_report_is_one_entry(x: Endpoint, t: Instant)
    ensures
        observed(Seq::empty(), x, x, t) == seq![KnownConnection { a: x, b: x, last_seen: t }],
{
    let empty = Seq::<KnownConnection>::empty();
    assert(!holds(empty, x, x));
    assert(observed(empty, x, x, t) =~= seq![KnownConnection { a: x, b: x, last_seen: t }]);
}

/// A second report of a connection, from either side, leaves the number of
/// entries as it is.
pub proof fn lemma_second_report_keeps_size(
    s: Seq<KnownConnection>,
    x: Endpoint,
    y: Endpoint,
    t1: Instant,
    t2: Instant,
)
    requires
        distinct_links(s),
    ensures
        observed(observed(s, x, y, t1), y, x, t2).len() == observed(s, x, y, t1).len(),
        observed(observed(s, x, y, t1), x, y, t2).len() == observed(s, x, y, t1).len(),
{
    lemma_observed_distinct(s, x, y, t1);
    let first = observed(s, x, y, t1);
    let i = choose|i: int| 0 <= i < first.len() && (#[trigger] first[i]).joins(x, y);
    assert(first[i].joins(y, x));
}

/// The connections found in a network. However often and from whichever side
/// a connection is reported, the set holds it once.
pub struct ConnectionSet {
    entries: Vec<KnownConnection>,
}

impl View for ConnectionSet {
    type V = Seq<KnownConnection>;

    /// The entries, in the order in which their connections were first
    /// reported.
    closed spec fn view(&self) -> Seq<KnownConnection> {
        self.entries@
    }
}

impl Default for ConnectionSet {
    /// The empty set.
    fn default() -> (set: Self)
        ensures
            set@ == Seq::<KnownConnection>::empty(),
    {
        Self::new()
    }
}

impl ConnectionSet {
    #[verifier::type_invariant]
    spec fn well_formed(self) -> bool {
        distinct_links(self.entries@)
    }

    /// The empty set.
    pub fn new() -> (set: Self)
        ensures
            set@ == Seq::<KnownConnection>::empty(),
    {
        Self { entries: Vec::new() }
    }

    /// Where the connection between `x` and `y` is held, if it is.
    fn position(&self, x: Endpoint, y: Endpoint) -> (at: Option<usize>)
        ensures
            distinct_links(self@),
            at matches Some(i) ==> i < self@.len() && self@[i as int].joins(x, y),
            at is None ==> !holds(self@, x, y),
    {
        proof {
            use_type_invariant(self);
        }
        let mut i: usize = 0;
        while i < self.entries.len()
            invariant
                i <= self.entries.len(),
                distinct_links(self.entries@),
                forall|j: int| 0 <= j < i ==> !(#[trigger] self.entries@[j]).joins(x, y),
            decreases self.entries.len() - i,
        {
            if self.entries[i].links(x, y) {
                return Some(i);
            }
            i += 1;
        }
        None
    }

    /// Records that a connection between `a` and `b` was seen at `seen`. If
    /// the set holds the connection, in either direction, its time becomes
    /// `seen`; else the connection is added.
    pub fn observe_at(&mut self, a: Endpoint, b: Endpoint, seen: Instant)
        ensures
            final(self)@ == observed(old(self)@, a, b, seen),
            distinct_links(final(self)@),
    {
        let at = self.position(a, b);
        proof {
            lemma_observed_distinct(self@, a, b, seen);
        }
        let mut entries: Vec<KnownConnection> = Vec::new();
        std::mem::swap(&mut self.entries, &mut entries);
        match at {
            Some(i) => {
                let known = entries[i];
                entries.set(i, KnownConnection { a: known.a, b: known.b, last_seen: seen });
                assert(entries@ =~= refreshed(old(self)@, a, b, seen)) by {
                    assert forall|j: int|
                        0 <= j < old(self)@.len() && j != i implies !(#[trigger] old(self)@[j]).joins(
                        a,
                        b,
                    ) by {
                        if j < i {
                            assert(!old(self)@[j].same_link(old(self)@[i as int]));
                        } else {
                            assert(!old(self)@[i as int].same_link(old(self)@[j]));
                        }
                    }
                }
            },
            None => {
                entries.push(KnownConnection::seen_at(a, b, seen));
            },
        }
        self.entries = entries;
    }

    /// Records that a connection between `a` and `b` is seen now, and returns
    /// the time that it took for now.
    pub fn observe(&mut self, a: Endpoint, b: Endpoint) -> (seen: Instant)
        ensures
            final(self)@ == observed(old(self)@, a, b, seen),
            distinct_links(final(self)@),
    {
        let seen = now();
        self.observe_at(a, b, seen);
        seen
    }

    /// The number of connections in the set.
    pub fn size(&self) -> (n: usize)
        ensures
            n == self@.len(),
            distinct_links(self@),
    {
        proof {
            use_type_invariant(self);
        }
        self.entries.len()
    }

    /// Whether the set holds the connection between `x` and `y`.
    pub fn contains(&self, x: Endpoint, y: Endpoint) -> (r: bool)
        ensures
            r == holds(self@, x, y),
    {
        self.position(x, y).is_some()
    }

    /// The entry for the connection between `x` and `y`, if the set holds it.
    pub fn find(&self, x: Endpoint, y: Endpoint) -> (found: Option<KnownConnection>)
        ensures
            found is Some == holds(self@, x, y),
            found matches Some(c) ==> c.joins(x, y) && self@.contains(c),
    {
        match self.position(x, y) {
            Some(i) => Some(self.entries[i]),
            None => None,
        }
    }

    /// The `i`-th connection in the order kept by the set, if there are that
    /// many.
    pub fn get(&self, i: usize) -> (c: Option<KnownConnection>)
        ensures
            i < self@.len() ==> c == Some(self@[i as int]),
            i >= self@.len() ==> c is None,
    {
        if i < self.entries.len() {
            Some(self.entries[i])
        } else {
            None
        }
    }

    /// All the connections of the set, in the order in which they were first
    /// reported. Each call gives the same sequence until the set changes.
    pub fn iterate(&self) -> (all: Vec<KnownConnection>)
        ensures
            all@ == self@,
            distinct_links(all@),
    {
        proof {
            use_type_invariant(self);
        }
        let mut all: Vec<KnownConnection> = Vec::new();
        let mut i: usize = 0;
        while i < self.entries.len()
            invariant
                i <= self.entries.len(),
                all@ == self.entries@.take(i as int),
            decreases self.entries.len() - i,
        {
            all.push(self.entries[i]);
            assert(all@ =~= self.entries@.take(i + 1));
            i += 1;
        }
        assert(all@ =~= self.entries@);
        all
    }
}

} // verus!
