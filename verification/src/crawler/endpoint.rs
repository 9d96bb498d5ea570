//! Network endpoints and their total order.

use vstd::prelude::*;

verus! {

/// A network address: an IP address together with a port.
///
/// The address is held as a number in network byte order, so that comparing
/// two numbers compares the addresses octet by octet.
#[derive(Clone, Copy, Debug, PartialEq, Eq, Structural, Hash)]
#[allow(inconsistent_fields)]
pub enum Endpoint {
    /// An IPv4 address and a port.
    V4 { ip: u32, port: u16 },
    /// An IPv6 address, a port, the flow information and the scope.
    V6 { ip: u128, port: u16, flowinfo: u32, scope_id: u32 },
}

/// The last `width` bytes of `value`, the most significant first.
pub open spec fn be_bytes(value: nat, width: nat) -> Seq<u8>
    decreases width,
{
    if width == 0 {
        Seq::empty()
    } else {
        be_bytes(value / 256, (width - 1) as nat).push((value % 256) as u8)
    }
}

/// The number of values that `width` bytes tell apart.
pub open spec fn span(width: nat) -> nat
    decreases width,
{
    if width == 0 {
        1
    } else {
        256 * span((width - 1) as nat)
    }
}

/// `width` bytes are `width` long, and tell apart the values that fit in
/// them.
pub proof fn lemma_be_bytes(x: nat, y: nat, width: nat)
    ensures
        be_bytes(x, width).len() == width,
        be_bytes(y, width).len() == width,
        x < span(width) && y < span(width) && be_bytes(x, width) == be_bytes(y, width) ==> x == y,
    decreases width,
{
    if width > 0 {
        let fewer = (width - 1) as nat;
        lemma_be_bytes(x / 256, y / 256, fewer);
        if x < span(width) && y < span(width) && be_bytes(x, width) == be_bytes(y, width) {
            let head_x = be_bytes(x / 256, fewer);
            let head_y = be_bytes(y / 256, fewer);
            assert(be_bytes(x, width).drop_last() =~= head_x);
            assert(be_bytes(y, width).drop_last() =~= head_y);
            assert(be_bytes(x, width).last() == (x % 256) as u8);
            assert(be_bytes(y, width).last() == (y % 256) as u8);
            assert(x % 256 == y % 256);
            assert(x / 256 == y / 256);
        }
    }
}

/// Appends the last `width` bytes of `value` to `out`, the most significant
/// first.
fn push_be(out: &mut Vec<u8>, value: u128, width: usize)
    ensures
        final(out)@ == old(out)@ + be_bytes(value as nat, width as nat),
    decreases width,
{
    if width > 0 {
        push_be(out, value / 256, width - 1);
        let low: u8 = (value % 256) as u8;
        out.push(low);
        assert(out@ =~= old(out)@ + be_bytes(value as nat, width as nat));
    } else {
        assert(out@ =~= old(out)@ + be_bytes(value as nat, width as nat));
    }
}

impl Endpoint {
    /// The number that the octets `a.b.c.d` stand for.
    pub open spec fn quad(a: u8, b: u8, c: u8, d: u8) -> u32 {
        (a * 0x100_0000 + b * 0x1_0000 + c * 0x100 + d) as u32
    }

    /// An IPv4 endpoint from the four octets of its address and its port.
    pub fn v4(a: u8, b: u8, c: u8, d: u8, port: u16) -> (e: Endpoint)
        ensures
            e == (Endpoint::V4 { ip: Self::quad(a, b, c, d), port }),
    {
        let high: u32 = (a as u32) * 0x100_0000 + (b as u32) * 0x1_0000;
        let low: u32 = (c as u32) * 0x100 + (d as u32);
        Endpoint::V4 { ip: high + low, port }
    }

    /// The strict order of endpoints: every IPv4 endpoint comes before every
    /// IPv6 endpoint; within a family the address decides, then the port, then
    /// the flow information, then the scope.
    pub open spec fn before(self, other: Endpoint) -> bool {
        match (self, other) {
            (Endpoint::V4 { ip: i1, port: p1 }, Endpoint::V4 { ip: i2, port: p2 }) => {
                i1 < i2 || (i1 == i2 && p1 < p2)
            },
            (Endpoint::V4 { .. }, Endpoint::V6 { .. }) => true,
            (Endpoint::V6 { .. }, Endpoint::V4 { .. }) => false,
            (
                Endpoint::V6 { ip: i1, port: p1, flowinfo: f1, scope_id: s1 },
                Endpoint::V6 { ip: i2, port: p2, flowinfo: f2, scope_id: s2 },
            ) => {
                i1 < i2 || (i1 == i2 && (p1 < p2 || (p1 == p2 && (f1 < f2 || (f1 == f2
                    && s1 < s2)))))
            },
        }
    }

    /// Whether this endpoint comes strictly before `other`.
    pub fn precedes(&self, other: &Endpoint) -> (b: bool)
        ensures
            b == self.before(*other),
    {
        match (*self, *other) {
            (Endpoint::V4 { ip: i1, port: p1 }, Endpoint::V4 { ip: i2, port: p2 }) => {
                i1 < i2 || (i1 == i2 && p1 < p2)
            },
            (Endpoint::V4 { .. }, Endpoint::V6 { .. }) => true,
            (Endpoint::V6 { .. }, Endpoint::V4 { .. }) => false,
            (
                Endpoint::V6 { ip: i1, port: p1, flowinfo: f1, scope_id: s1 },
                Endpoint::V6 { ip: i2, port: p2, flowinfo: f2, scope_id: s2 },
            ) => {
                i1 < i2 || (i1 == i2 && (p1 < p2 || (p1 == p2 && (f1 < f2 || (f1 == f2
                    && s1 < s2)))))
            },
        }
    }

    /// The bytes that stand for this endpoint: a tag for the family, then the
    /// address, the port and, for IPv6, the flow information and the scope,
    /// each with its most significant byte first.
    pub open spec fn encoding(self) -> Seq<u8> {
        match self {
            Endpoint::V4 { ip, port } => seq![4u8] + be_bytes(ip as nat, 4) + be_bytes(
                port as nat,
                2,
            ),
            Endpoint::V6 { ip, port, flowinfo, scope_id } => seq![6u8] + be_bytes(ip as nat, 16)
                + be_bytes(port as nat, 2) + be_bytes(flowinfo as nat, 4) + be_bytes(
                scope_id as nat,
                4,
            ),
        }
    }

    /// The bytes that stand for this endpoint.
    pub fn encode(&self) -> (bytes: Vec<u8>)
        ensures
            bytes@ == self.encoding(),
    {
        let mut bytes: Vec<u8> = Vec::new();
        match *self {
            Endpoint::V4 { ip, port } => {
                bytes.push(4u8);
                push_be(&mut bytes, ip as u128, 4);
                push_be(&mut bytes, port as u128, 2);
            },
            Endpoint::V6 { ip, port, flowinfo, scope_id } => {
                bytes.push(6u8);
                push_be(&mut bytes, ip, 16);
                push_be(&mut bytes, port as u128, 2);
                push_be(&mut bytes, flowinfo as u128, 4);
                push_be(&mut bytes, scope_id as u128, 4);
            },
        }
        bytes
    }

    /// Different endpoints are stood for by different bytes.
    pub proof fn lemma_encoding_tells_apart(a: Endpoint, b: Endpoint)
        requires
            a.encoding() == b.encoding(),
        ensures
            a == b,
    {
        reveal_with_fuel(span, 17);
        let x = a.encoding();
        let y = b.encoding();
        match (a, b) {
            (Endpoint::V4 { ip: i1, port: p1 }, Endpoint::V4 { ip: i2, port: p2 }) => {
                lemma_be_bytes(i1 as nat, i2 as nat, 4);
                lemma_be_bytes(p1 as nat, p2 as nat, 2);
                assert(x.subrange(1, 5) =~= be_bytes(i1 as nat, 4));
                assert(y.subrange(1, 5) =~= be_bytes(i2 as nat, 4));
                assert(x.subrange(5, 7) =~= be_bytes(p1 as nat, 2));
                assert(y.subrange(5, 7) =~= be_bytes(p2 as nat, 2));
            },
            (
                Endpoint::V6 { ip: i1, port: p1, flowinfo: f1, scope_id: s1 },
                Endpoint::V6 { ip: i2, port: p2, flowinfo: f2, scope_id: s2 },
            ) => {
                lemma_be_bytes(i1 as nat, i2 as nat, 16);
                lemma_be_bytes(p1 as nat, p2 as nat, 2);
                lemma_be_bytes(f1 as nat, f2 as nat, 4);
                lemma_be_bytes(s1 as nat, s2 as nat, 4);
                assert(x.subrange(1, 17) =~= be_bytes(i1 as nat, 16));
                assert(y.subrange(1, 17) =~= be_bytes(i2 as nat, 16));
                assert(x.subrange(17, 19) =~= be_bytes(p1 as nat, 2));
                assert(y.subrange(17, 19) =~= be_bytes(p2 as nat, 2));
                assert(x.subrange(19, 23) =~= be_bytes(f1 as nat, 4));
                assert(y.subrange(19, 23) =~= be_bytes(f2 as nat, 4));
                assert(x.subrange(23, 27) =~= be_bytes(s1 as nat, 4));
                assert(y.subrange(23, 27) =~= be_bytes(s2 as nat, 4));
            },
            (Endpoint::V4 { .. }, Endpoint::V6 { .. }) => {
                assert(x[0] == 4u8);
                assert(y[0] == 6u8);
            },
            (Endpoint::V6 { .. }, Endpoint::V4 { .. }) => {
                assert(x[0] == 6u8);
                assert(y[0] == 4u8);
            },
        }
    }

    /// Of two endpoints exactly one holds: the first comes before the second,
    /// they are the same, or the second comes before the first.
    pub proof fn lemma_order_total(a: Endpoint, b: Endpoint)
        ensures
            a.before(b) || a == b || b.before(a),
            !(a.before(b) && b.before(a)),
            !a.before(a),
    {
    }

    /// The order is transitive.
    pub proof fn lemma_order_transitive(a: Endpoint, b: Endpoint, c: Endpoint)
        requires
            a.before(b),
            b.before(c),
        ensures
            a.before(c),
    {
    }
}

} // verus!
