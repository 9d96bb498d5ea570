//! The summary of a crawl.

use std::collections::HashMap;
use vstd::prelude::*;

use crate::crawler::connection::KnownConnection;
use crate::crawler::connections::{distinct_links, ConnectionSet};
use crate::crawler::endpoint::Endpoint;
use crate::crawler::histogram::{
    agent_tallies, count_agents, count_versions, distinct_agents, lemma_agent_tallies, tallies_of,
    version_histogram, AgentCount,
};
use crate::crawler::node::{collect_reachable, lemma_reachable_addrs, reachable_addrs, NodeRecord};
use crate::crawler::topology::{
    build_adjacency, indices_in_range, is_adjacency, lemma_adjacency_symmetric,
    lemma_no_repeated_neighbour, lemma_unlisted_end_adds_nothing, occurrences,
};

verus! {

/// A span of time: whole seconds and the nanoseconds beyond them.
#[derive(Clone, Copy, Debug, PartialEq, Eq, Structural)]
pub struct Elapsed {
    /// The whole seconds.
    pub secs: u64,
    /// The part of a second beyond them, in nanoseconds.
    pub nanos: u32,
}

/// The nanoseconds in a second.
pub const NANOS_PER_SEC: u32 = 1_000_000_000;

impl Elapsed {
    /// A span of `secs` whole seconds.
    pub fn from_secs(secs: u64) -> (span: Self)
        ensures
            span == (Elapsed { secs, nanos: 0 }),
    {
        Self { secs, nanos: 0 }
    }

    /// A span of `secs` seconds and `nanos` nanoseconds, where `nanos` is
    /// less than a second.
    pub fn new(secs: u64, nanos: u32) -> (span: Option<Self>)
        ensures
            nanos < NANOS_PER_SEC ==> span == Some(Elapsed { secs, nanos }),
            nanos >= NANOS_PER_SEC ==> span is None,
    {
        if nanos < NANOS_PER_SEC {
            Some(Self { secs, nanos })
        } else {
            None
        }
    }

    /// The whole minutes of this span.
    pub fn whole_minutes(&self) -> (minutes: u64)
        ensures
            minutes == self.secs / 60,
    {
        self.secs / 60
    }
}

/// Contains stats about crawled network.
#[derive(Clone, Debug)]
pub struct NetworkSummary {
    /// Total number of nodes discovered.
    pub num_known_nodes: usize,
    /// Number of nodes that a crawler was able to connect to.
    pub num_good_nodes: usize,
    /// Total number of known connections as reported by peers.
    pub num_known_connections: usize,
    /// Number of all protocol versions discovered.
    pub num_versions: usize,
    /// Map: Version number -> number of nodes that reported this version.
    pub protocol_versions: HashMap<u32, usize>,
    /// Nodes' software versions, each with the number of nodes that reported
    /// it, in the order in which they were first found.
    pub user_agents: Vec<AgentCount>,
    /// Crawler's runtime.
    pub crawler_runtime: Elapsed,
    /// Addresses of good nodes.
    pub node_addrs: Vec<Endpoint>,
    /// Unidirected connections graph: for each good node, by its place among
    /// `node_addrs`, the places of the good nodes it is connected to.
    pub nodes_indices: Vec<Vec<usize>>,
}

impl NetworkSummary {
    /// What holds of every summary that `new` makes: the graph has one list
    /// for each good node and every entry of a list is the place of a good
    /// node; the counts agree with what they count; no user agent is listed
    /// twice.
    pub open spec fn wf(self) -> bool {
        &&& self.nodes_indices@.len() == self.node_addrs@.len()
        &&& indices_in_range(self.nodes_indices@)
        &&& self.num_good_nodes == self.node_addrs@.len()
        &&& self.num_good_nodes <= self.num_known_nodes
        &&& self.num_versions == self.protocol_versions@.len()
        &&& self.protocol_versions@.dom().finite()
        &&& distinct_agents(tallies_of(self.user_agents@))
    }

    /// This summary is the one of a crawl that found `nodes` and `conns`
    /// and ran for `runtime`.
    pub open spec fn describes(
        self,
        nodes: Seq<NodeRecord>,
        conns: Seq<KnownConnection>,
        runtime: Elapsed,
    ) -> bool {
        &&& self.num_known_nodes == nodes.len()
        &&& self.num_good_nodes == reachable_addrs(nodes).len()
        &&& self.num_known_connections == conns.len()
        &&& self.num_versions == version_histogram(nodes).len()
        &&& self.protocol_versions@ == version_histogram(nodes)
        &&& tallies_of(self.user_agents@) == agent_tallies(nodes)
        &&& self.crawler_runtime == runtime
        &&& self.node_addrs@ == reachable_addrs(nodes)
        &&& is_adjacency(self.nodes_indices@, reachable_addrs(nodes), conns)
    }

    /// The summary of a crawl that found `nodes` and `connections` and ran
    /// for `crawler_runtime`.
    ///
    /// The good nodes are the reachable ones, in the order of `nodes`. Every
    /// connection counts, but only one between two good nodes stands in the
    /// graph. A version or user agent counts once for each good node that
    /// reported it.
    pub fn new(
        nodes: &Vec<NodeRecord>,
        connections: &ConnectionSet,
        crawler_runtime: Elapsed,
    ) -> (summary: Self)
        ensures
            summary.describes(nodes@, connections@, crawler_runtime),
            summary.wf(),
    {
        let node_addrs = collect_reachable(nodes);
        let conns = connections.iterate();
        let nodes_indices = build_adjacency(&node_addrs, &conns);
        let protocol_versions = count_versions(nodes);
        let user_agents = count_agents(nodes);
        proof {
            lemma_reachable_addrs(nodes@);
            lemma_agent_tallies(nodes@);
        }
        NetworkSummary {
            num_known_nodes: nodes.len(),
            num_good_nodes: node_addrs.len(),
            num_known_connections: conns.len(),
            num_versions: protocol_versions.len(),
            protocol_versions,
            user_agents,
            crawler_runtime,
            node_addrs,
            nodes_indices,
        }
    }
}

/// A connection with an end that is not a good node counts among the known
/// connections and changes no list of the graph.
pub proof fn lemma_unreachable_end_counts_only(
    before: NetworkSummary,
    after: NetworkSummary,
    nodes: Seq<NodeRecord>,
    conns: Seq<KnownConnection>,
    c: KnownConnection,
    runtime: Elapsed,
)
    requires
        before.describes(nodes, conns, runtime),
        after.describes(nodes, conns.push(c), runtime),
        !reachable_addrs(nodes).contains(c.a) || !reachable_addrs(nodes).contains(c.b),
    ensures
        after.num_known_connections == before.num_known_connections + 1,
        after.nodes_indices@.len() == before.nodes_indices@.len(),
        forall|i: int|
            0 <= i < after.nodes_indices@.len() ==> (#[trigger] after.nodes_indices@[i])@
                == before.nodes_indices@[i]@,
{
    assert forall|i: int|
        0 <= i < after.nodes_indices@.len() implies (#[trigger] after.nodes_indices@[i])@
        == before.nodes_indices@[i]@ by {
        lemma_unlisted_end_adds_nothing(reachable_addrs(nodes), conns, c, i);
    }
}

/// The graph of a summary runs both ways: between two different good nodes,
/// each stands in the list of the other equally often, and at most once
/// where the crawl held no connection twice.
pub proof fn lemma_graph_is_symmetric(
    summary: NetworkSummary,
    nodes: Seq<NodeRecord>,
    conns: Seq<KnownConnection>,
    runtime: Elapsed,
    i: int,
    j: int,
)
    requires
        summary.describes(nodes, conns, runtime),
        0 <= i < summary.node_addrs@.len(),
        0 <= j < summary.node_addrs@.len(),
        i != j,
    ensures
        occurrences(summary.nodes_indices@[i]@, j) == occurrences(summary.nodes_indices@[j]@, i),
        summary.nodes_indices@[i]@.contains(j as usize) == summary.nodes_indices@[j]@.contains(
            i as usize,
        ),
        distinct_links(conns) ==> occurrences(summary.nodes_indices@[i]@, j) <= 1,
{
    assert(summary.node_addrs@.len() <= usize::MAX);
    lemma_adjacency_symmetric(summary.node_addrs@, conns, i, j);
    if distinct_links(conns) {
        lemma_no_repeated_neighbour(summary.node_addrs@, conns, i, j);
    }
}

impl Default for NetworkSummary {
    /// The summary of a crawl that found nothing and took no time.
    fn default() -> (summary: Self)
        ensures
            summary.describes(Seq::empty(), Seq::empty(), Elapsed { secs: 0, nanos: 0 }),
            summary.wf(),
    {
        let summary = NetworkSummary {
            num_known_nodes: 0,
            num_good_nodes: 0,
            num_known_connections: 0,
            num_versions: 0,
            protocol_versions: HashMap::new(),
            user_agents: Vec::new(),
            crawler_runtime: Elapsed::from_secs(0),
            node_addrs: Vec::new(),
            nodes_indices: Vec::new(),
        };
        proof {
            let none = Seq::<NodeRecord>::empty();
            assert(summary.protocol_versions@ =~= version_histogram(none));
            assert(tallies_of(summary.user_agents@) =~= agent_tallies(none));
        }
        summary
    }
}

} // verus!
