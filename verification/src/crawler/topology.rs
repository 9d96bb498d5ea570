//! The graph of a crawl in compact form: a list of nodes and, for each node,
//! the positions in that list of the nodes it is connected to.

use vstd::prelude::*;

use crate::crawler::connection::KnownConnection;
use crate::crawler::connections::distinct_links;
use crate::crawler::endpoint::Endpoint;

verus! {

/// The first position of `e` in `addrs`, or the length of `addrs` where `e`
/// does not occur.
pub open spec fn first_index(addrs: Seq<Endpoint>, e: Endpoint) -> int
    decreases addrs.len(),
{
    if addrs.len() == 0 {
        0
    } else {
        let before = first_index(addrs.drop_last(), e);
        if before < addrs.len() - 1 {
            before
        } else if addrs.last() == e {
            addrs.len() - 1
        } else {
            addrs.len() as int
        }
    }
}

/// `first_index` is the least position that holds `e`.
pub proof fn lemma_first_index(addrs: Seq<Endpoint>, e: Endpoint)
    ensures
        0 <= first_index(addrs, e) <= addrs.len(),
        first_index(addrs, e) < addrs.len() ==> addrs[first_index(addrs, e)] == e,
        forall|j: int| 0 <= j < first_index(addrs, e) ==> addrs[j] != e,
    decreases addrs.len(),
{
    if addrs.len() > 0 {
        lemma_first_index(addrs.drop_last(), e);
        assert forall|j: int| 0 <= j < first_index(addrs, e) implies addrs[j] != e by {
            if j < addrs.len() - 1 {
                assert(addrs.drop_last()[j] == addrs[j]);
            }
        }
    }
}

/// The positions of the two ends of `c` in `addrs`, where both ends occur.
pub open spec fn link(addrs: Seq<Endpoint>, c: KnownConnection) -> Option<(int, int)> {
    let p = first_index(addrs, c.a);
    let q = first_index(addrs, c.b);
    if p < addrs.len() && q < addrs.len() {
        Some((p, q))
    } else {
        None
    }
}

/// What the connection `c` adds to the list of node `i`: the other end of
/// `c` where one end is node `i`, node `i` itself where both ends are, and
/// nothing where an end of `c` is not in `addrs` or neither end is node `i`.
pub open spec fn contribution(addrs: Seq<Endpoint>, c: KnownConnection, i: int) -> Option<usize> {
    match link(addrs, c) {
        Some((p, q)) => if p == i {
            Some(q as usize)
        } else if q == i {
            Some(p as usize)
        } else {
            None
        },
        None => None,
    }
}

/// The list of node `i`: what each of `conns` adds to it, in their order.
pub open spec fn neighbours(addrs: Seq<Endpoint>, conns: Seq<KnownConnection>, i: int) -> Seq<
    usize,
>
    decreases conns.len(),
{
    if conns.len() == 0 {
        Seq::empty()
    } else {
        let rest = neighbours(addrs, conns.drop_last(), i);
        match contribution(addrs, conns.last(), i) {
            Some(j) => rest.push(j),
            None => rest,
        }
    }
}

/// How often `v` occurs in `s`.
pub open spec fn occurrences(s: Seq<usize>, v: int) -> nat
    decreases s.len(),
{
    if s.len() == 0 {
        0
    } else {
        occurrences(s.drop_last(), v) + if s.last() == v {
            1nat
        } else {
            0nat
        }
    }
}

/// The lists hold, node by node, what `neighbours` says.
pub open spec fn is_adjacency(
    rows: Seq<Vec<usize>>,
    addrs: Seq<Endpoint>,
    conns: Seq<KnownConnection>,
) -> bool {
    &&& rows.len() == addrs.len()
    &&& forall|i: int| 0 <= i < rows.len() ==> (#[trigger] rows[i])@ == neighbours(addrs, conns, i)
}

/// Every entry of every list is a position in the list of nodes.
pub open spec fn indices_in_range(rows: Seq<Vec<usize>>) -> bool {
    forall|i: int, k: int|
        0 <= i < rows.len() && 0 <= k < rows[i]@.len() ==> (#[trigger] rows[i]@[k]) < rows.len()
}

/// Every entry of a node's list is the position of a node.
pub proof fn lemma_neighbours_in_range(
    addrs: Seq<Endpoint>,
    conns: Seq<KnownConnection>,
    i: int,
)
    ensures
        forall|k: int|
            0 <= k < neighbours(addrs, conns, i).len() ==> (#[trigger] neighbours(
                addrs,
                conns,
                i,
            )[k]) < addrs.len(),
        neighbours(addrs, conns, i).len() <= conns.len(),
    decreases conns.len(),
{
    if conns.len() > 0 {
        lemma_neighbours_in_range(addrs, conns.drop_last(), i);
        lemma_first_index(addrs, conns.last().a);
        lemma_first_index(addrs, conns.last().b);
    }
}

/// What one more connection does to the list of node `i`.
pub proof fn lemma_neighbours_push(
    addrs: Seq<Endpoint>,
    conns: Seq<KnownConnection>,
    c: KnownConnection,
    i: int,
)
    ensures
        neighbours(addrs, conns.push(c), i) == match contribution(addrs, c, i) {
            Some(j) => neighbours(addrs, conns, i).push(j),
            None => neighbours(addrs, conns, i),
        },
{
    assert(conns.push(c).drop_last() =~= conns);
}

/// A connection with an end that is not in the list of nodes adds nothing to
/// any list.
pub proof fn lemma_unlisted_end_adds_nothing(
    addrs: Seq<Endpoint>,
    conns: Seq<KnownConnection>,
    c: KnownConnection,
    i: int,
)
    requires
        !addrs.contains(c.a) || !addrs.contains(c.b),
    ensures
        link(addrs, c) is None,
        neighbours(addrs, conns.push(c), i) == neighbours(addrs, conns, i),
{
    lemma_first_index(addrs, c.a);
    lemma_first_index(addrs, c.b);
    lemma_neighbours_push(addrs, conns, c, i);
}

/// A connection from a listed node to itself adds that node's own position
/// once to its own list, and nothing to any other list.
pub proof fn lemma_self_loop_adds_own_index_once(
    addrs: Seq<Endpoint>,
    conns: Seq<KnownConnection>,
    c: KnownConnection,
    i: int,
)
    requires
        c.a == c.b,
        addrs.contains(c.a),
    ensures
        0 <= first_index(addrs, c.a) < addrs.len(),
        i == first_index(addrs, c.a) ==> neighbours(addrs, conns.push(c), i) == neighbours(
            addrs,
            conns,
            i,
        ).push(i as usize),
        i != first_index(addrs, c.a) ==> neighbours(addrs, conns.push(c), i) == neighbours(
            addrs,
            conns,
            i,
        ),
{
    lemma_first_index(addrs, c.a);
    lemma_neighbours_push(addrs, conns, c, i);
}

/// Between two different nodes the lists agree: node `j` stands in the list
/// of node `i` as often as node `i` stands in the list of node `j`.
pub proof fn lemma_adjacency_symmetric(
    addrs: Seq<Endpoint>,
    conns: Seq<KnownConnection>,
    i: int,
    j: int,
)
    requires
        0 <= i < addrs.len(),
        0 <= j < addrs.len(),
        i != j,
        addrs.len() <= usize::MAX,
    ensures
        occurrences(neighbours(addrs, conns, i), j) == occurrences(neighbours(addrs, conns, j), i),
        neighbours(addrs, conns, i).contains(j as usize) == neighbours(addrs, conns, j).contains(
            i as usize,
        ),
    decreases conns.len(),
{
    lemma_occurrences_contains(neighbours(addrs, conns, i), j);
    lemma_occurrences_contains(neighbours(addrs, conns, j), i);
    if conns.len() > 0 {
        let c = conns.last();
        let rest = conns.drop_last();
        lemma_adjacency_symmetric(addrs, rest, i, j);
        lemma_first_index(addrs, c.a);
        lemma_first_index(addrs, c.b);
        let ni = neighbours(addrs, rest, i);
        let nj = neighbours(addrs, rest, j);
        match contribution(addrs, c, i) {
            Some(v) => {
                assert(ni.push(v).drop_last() =~= ni);
            },
            None => {},
        }
        match contribution(addrs, c, j) {
            Some(v) => {
                assert(nj.push(v).drop_last() =~= nj);
            },
            None => {},
        }
    }
}

/// A node stands in the list of another only where some connection joins the
/// two.
pub proof fn lemma_neighbour_has_connection(
    addrs: Seq<Endpoint>,
    conns: Seq<KnownConnection>,
    i: int,
    j: int,
)
    requires
        0 <= i < addrs.len(),
        0 <= j < addrs.len(),
        addrs.len() <= usize::MAX,
        occurrences(neighbours(addrs, conns, i), j) > 0,
    ensures
        exists|k: int| 0 <= k < conns.len() && (#[trigger] conns[k]).joins(addrs[i], addrs[j]),
    decreases conns.len(),
{
    if conns.len() > 0 {
        let c = conns.last();
        let rest = conns.drop_last();
        let known = neighbours(addrs, rest, i);
        lemma_first_index(addrs, c.a);
        lemma_first_index(addrs, c.b);
        let added = match contribution(addrs, c, i) {
            Some(v) => {
                assert(known.push(v).drop_last() =~= known);
                v == j
            },
            None => false,
        };
        if added {
            assert(conns[conns.len() - 1].joins(addrs[i], addrs[j]));
        } else {
            lemma_neighbour_has_connection(addrs, rest, i, j);
            let k = choose|k: int| 0 <= k < rest.len() && (#[trigger] rest[k]).joins(addrs[i], addrs[j]);
            assert(conns[k].joins(addrs[i], addrs[j]));
        }
    }
}

/// Where no connection is held twice, no node stands twice in a list.
pub proof fn lemma_no_repeated_neighbour(
    addrs: Seq<Endpoint>,
    conns: Seq<KnownConnection>,
    i: int,
    j: int,
)
    requires
        distinct_links(conns),
        0 <= i < addrs.len(),
        0 <= j < addrs.len(),
        addrs.len() <= usize::MAX,
    ensures
        occurrences(neighbours(addrs, conns, i), j) <= 1,
    decreases conns.len(),
{
    if conns.len() > 0 {
        let c = conns.last();
        let rest = conns.drop_last();
        let known = neighbours(addrs, rest, i);
        assert forall|p: int, q: int| 0 <= p < q < rest.len() implies !(#[trigger] rest[p]).same_link(
            #[trigger] rest[q],
        ) by {
            assert(!conns[p].same_link(conns[q]));
        }
        lemma_no_repeated_neighbour(addrs, rest, i, j);
        lemma_first_index(addrs, c.a);
        lemma_first_index(addrs, c.b);
        match contribution(addrs, c, i) {
            Some(v) => {
                assert(known.push(v).drop_last() =~= known);
                if v == j && occurrences(known, j) > 0 {
                    lemma_neighbour_has_connection(addrs, rest, i, j);
                    let k = choose|k: int|
                        0 <= k < rest.len() && (#[trigger] rest[k]).joins(addrs[i], addrs[j]);
                    assert(conns[k].same_link(conns[conns.len() - 1]));
                }
            },
            None => {},
        }
    }
}

/// A value occurs in a sequence exactly when it is counted at least once.
pub proof fn lemma_occurrences_contains(s: Seq<usize>, v: int)
    requires
        0 <= v <= usize::MAX,
    ensures
        s.contains(v as usize) == (occurrences(s, v) > 0),
    decreases s.len(),
{
    if s.len() > 0 {
        lemma_occurrences_contains(s.drop_last(), v);
        if s.last() == v {
            assert(s[s.len() - 1] == v as usize);
        } else if s.contains(v as usize) {
            let k = choose|k: int| 0 <= k < s.len() && s[k] == v as usize;
            assert(s.drop_last()[k] == v as usize);
        } else if s.drop_last().contains(v as usize) {
            let k = choose|k: int| 0 <= k < s.drop_last().len() && s.drop_last()[k] == v as usize;
            assert(s[k] == v as usize);
        }
    }
}

/// The position of `e` among `addrs`: the first one, where `e` occurs more
/// than once.
pub fn index_of(addrs: &Vec<Endpoint>, e: Endpoint) -> (at: Option<usize>)
    ensures
        at matches Some(i) ==> i == first_index(addrs@, e) && i < addrs.len(),
        at is None ==> first_index(addrs@, e) == addrs.len(),
        at is Some == addrs@.contains(e),
{
    proof {
        lemma_first_index(addrs@, e);
    }
    let mut i: usize = 0;
    while i < addrs.len()
        invariant
            i <= addrs.len(),
            forall|j: int| 0 <= j < i ==> addrs@[j] != e,
            0 <= first_index(addrs@, e) <= addrs.len(),
            first_index(addrs@, e) < addrs.len() ==> addrs@[first_index(addrs@, e)] == e,
            forall|j: int| 0 <= j < first_index(addrs@, e) ==> addrs@[j] != e,
        decreases addrs.len() - i,
    {
        if addrs[i] == e {
            return Some(i);
        }
        i += 1;
    }
    None
}

/// The lists of a graph: for each of `addrs`, the positions of the nodes
/// that `conns` connect it to. A connection between two listed nodes puts
/// each in the other's list; a connection from a listed node to itself puts
/// it once in its own; any other connection is passed over.
pub fn build_adjacency(addrs: &Vec<Endpoint>, conns: &Vec<KnownConnection>) -> (rows: Vec<
    Vec<usize>,
>)
    ensures
        is_adjacency(rows@, addrs@, conns@),
        indices_in_range(rows@),
{
    let mut rows: Vec<Vec<usize>> = Vec::new();
    let mut n: usize = 0;
    while n < addrs.len()
        invariant
            n <= addrs.len(),
            rows.len() == n,
            forall|i: int| 0 <= i < n ==> (#[trigger] rows@[i])@ == Seq::<usize>::empty(),
        decreases addrs.len() - n,
    {
        rows.push(Vec::new());
        n += 1;
    }
    let mut k: usize = 0;
    while k < conns.len()
        invariant
            k <= conns.len(),
            is_adjacency(rows@, addrs@, conns@.take(k as int)),
        decreases conns.len() - k,
    {
        let c = conns[k];
        let ghost before = rows@;
        let ghost seen = conns@.take(k as int);
        let ghost grown = conns@.take(k + 1);
        proof {
            assert(grown =~= seen.push(c));
            assert forall|i: int| 0 <= i < addrs.len() implies #[trigger] neighbours(
                addrs@,
                grown,
                i,
            ) == match contribution(addrs@, c, i) {
                Some(j) => neighbours(addrs@, seen, i).push(j),
                None => neighbours(addrs@, seen, i),
            } by {
                lemma_neighbours_push(addrs@, seen, c, i);
            }
        }
        let from = index_of(addrs, c.a);
        let to = index_of(addrs, c.b);
        match (from, to) {
            (Some(p), Some(q)) => {
                rows[p].push(q);
                if p != q {
                    rows[q].push(p);
                }
            },
            _ => {},
        }
        k += 1;
    }
    proof {
        assert(conns@.take(k as int) =~= conns@);
        assert forall|i: int, j: int|
            0 <= i < rows@.len() && 0 <= j < rows@[i]@.len() implies (#[trigger] rows@[i]@[j])
            < rows@.len() by {
            lemma_neighbours_in_range(addrs@, conns@, i);
        }
    }
    rows
}

} // verus!
