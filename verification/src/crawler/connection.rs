//! A connection between two endpoints, whichever side reported it.

use std::collections::hash_map::DefaultHasher;
use std::hash::{Hash, Hasher};
use std::time::Instant;
use vstd::prelude::*;
use vstd::std_specs::cmp::PartialEqSpecImpl;
use vstd::std_specs::hash::DefaultHasherAdditionalSpecFns;

use crate::crawler::endpoint::Endpoint;

verus! {

/// `std::time::Instant`: a point in time, carried through and never looked
/// into.
#[verifier::external_type_specification]
#[verifier::external_body]
pub struct ExInstant(Instant);

/// `Instant::now`: the current time. Nothing is known of the value.
#[verifier::external_body]
pub(crate) fn now() -> Instant {
    Instant::now()
}

/// `Hasher::write`: hands `bytes` to a hasher of any kind. What the hasher
/// makes of them is its own affair.
#[verifier::external_body]
fn feed<H: Hasher>(state: &mut H, bytes: &[u8]) {
    state.write(bytes)
}

/// A connection found in the network.
///
/// Two connections are equal when they join the same two endpoints, in
/// whichever order the endpoints are held and whenever they were seen.
#[derive(Debug, Copy, Clone)]
pub struct KnownConnection {
    /// One of the two sides of a connection.
    pub a: Endpoint,
    /// The other side of a connection.
    pub b: Endpoint,
    /// The timestamp of the last time the connection was seen.
    pub last_seen: Instant,
}

impl KnownConnection {
    /// This connection joins `x` and `y`, in either order.
    pub open spec fn joins(self, x: Endpoint, y: Endpoint) -> bool {
        (self.a == y && self.b == x) || (self.a == x && self.b == y)
    }

    /// Both connections join the same two endpoints.
    pub open spec fn same_link(self, other: KnownConnection) -> bool {
        self.joins(other.a, other.b)
    }

    /// The two endpoints, the one that comes first in the order of endpoints
    /// in front.
    pub open spec fn ordered(self) -> (Endpoint, Endpoint) {
        if self.b.before(self.a) {
            (self.b, self.a)
        } else {
            (self.a, self.b)
        }
    }

    /// What is handed to a hasher: the bytes of the endpoint that comes first,
    /// then the bytes of the other.
    pub open spec fn hash_stream(self) -> Seq<Seq<u8>> {
        seq![self.ordered().0.encoding(), self.ordered().1.encoding()]
    }

    /// The connection between `a` and `b`, seen now. The endpoints are kept
    /// as they are given.
    pub fn new(a: Endpoint, b: Endpoint) -> (c: Self)
        ensures
            c.a == a,
            c.b == b,
    {
        Self::seen_at(a, b, now())
    }

    /// The connection between `a` and `b`, last seen at `last_seen`.
    pub fn seen_at(a: Endpoint, b: Endpoint, last_seen: Instant) -> (c: Self)
        ensures
            c == (KnownConnection { a, b, last_seen }),
    {
        Self { a, b, last_seen }
    }

    /// Whether this connection joins `x` and `y`, in either order.
    pub fn links(&self, x: Endpoint, y: Endpoint) -> (r: bool)
        ensures
            r == self.joins(x, y),
    {
        (self.a == y && self.b == x) || (self.a == x && self.b == y)
    }

    /// The two endpoints in the order in which they are hashed.
    pub fn canonical(&self) -> (pair: (Endpoint, Endpoint))
        ensures
            pair == self.ordered(),
    {
        if self.b.precedes(&self.a) {
            (self.b, self.a)
        } else {
            (self.a, self.b)
        }
    }

    /// The hash of this connection under the standard library's default
    /// hasher.
    pub fn hash_code(&self) -> (code: u64)
        ensures
            code == DefaultHasher::spec_finish(self.hash_stream()),
    {
        let (first, second) = self.canonical();
        let mut state = DefaultHasher::new();
        let head = first.encode();
        state.write(head.as_slice());
        let tail = second.encode();
        state.write(tail.as_slice());
        assert(state@ =~= self.hash_stream());
        state.finish()
    }
}

/// A connection is the same whichever end is named first and whenever it was
/// seen: the two are equal, and the same bytes are handed to a hasher for
/// both.
pub proof fn lemma_direction_is_forgotten(x: Endpoint, y: Endpoint, t1: Instant, t2: Instant)
    ensures
        (KnownConnection { a: x, b: y, last_seen: t1 }).same_link(
            KnownConnection { a: y, b: x, last_seen: t2 },
        ),
        (KnownConnection { a: x, b: y, last_seen: t1 }).hash_stream() == (KnownConnection {
            a: y,
            b: x,
            last_seen: t2,
        }).hash_stream(),
        DefaultHasher::spec_finish((KnownConnection { a: x, b: y, last_seen: t1 }).hash_stream())
            == DefaultHasher::spec_finish(
            (KnownConnection { a: y, b: x, last_seen: t2 }).hash_stream(),
        ),
{
    Endpoint::lemma_order_total(x, y);
}

/// Hashing agrees with equality: two connections hand the same bytes to a
/// hasher exactly when they join the same two endpoints.
pub proof fn lemma_hash_agrees_with_equality(c: KnownConnection, d: KnownConnection)
    ensures
        c.same_link(d) <==> c.ordered() == d.ordered(),
        c.same_link(d) <==> c.hash_stream() == d.hash_stream(),
{
    Endpoint::lemma_order_total(c.a, c.b);
    Endpoint::lemma_order_total(d.a, d.b);
    if c.hash_stream() == d.hash_stream() {
        assert(c.hash_stream()[0] == d.hash_stream()[0]);
        assert(c.hash_stream()[1] == d.hash_stream()[1]);
        Endpoint::lemma_encoding_tells_apart(c.ordered().0, d.ordered().0);
        Endpoint::lemma_encoding_tells_apart(c.ordered().1, d.ordered().1);
    }
}

/// Joining the same two endpoints is an equivalence.
pub proof fn lemma_same_link_is_equivalence(
    c: KnownConnection,
    d: KnownConnection,
    e: KnownConnection,
)
    ensures
        c.same_link(c),
        c.same_link(d) == d.same_link(c),
        c.same_link(d) && d.same_link(e) ==> c.same_link(e),
{
}

impl PartialEq for KnownConnection {
    fn eq(&self, other: &Self) -> (r: bool) {
        (self.a == other.b && self.b == other.a) || (self.a == other.a && self.b == other.b)
    }
}

impl PartialEqSpecImpl for KnownConnection {
    open spec fn obeys_eq_spec() -> bool {
        true
    }

    open spec fn eq_spec(&self, other: &Self) -> bool {
        self.same_link(*other)
    }
}

impl Eq for KnownConnection {

}

impl Hash for KnownConnection {
    /// Hands the endpoint that comes first to the hasher, then the other, so
    /// that the hash is the same for (a, b) as it is for (b, a).
    fn hash<H: Hasher>(&self, state: &mut H) {
        let (first, second) = self.canonical();
        let head = first.encode();
        feed(state, head.as_slice());
        let tail = second.encode();
        feed(state, tail.as_slice());
    }
}

} // verus!
