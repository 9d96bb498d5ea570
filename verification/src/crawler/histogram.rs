//! How many reachable nodes reported each protocol version and each user
//! agent.

use std::collections::HashMap;
use vstd::prelude::*;

use crate::crawler::node::NodeRecord;

verus! {

/// A user agent and the number of reachable nodes that reported it.
#[derive(Clone, Debug)]
pub struct AgentCount {
    /// The user agent, as the nodes reported it.
    pub agent: String,
    /// The number of reachable nodes that reported it.
    pub count: usize,
}

impl View for AgentCount {
    type V = (Seq<char>, nat);

    open spec fn view(&self) -> (Seq<char>, nat) {
        (self.agent@, self.count as nat)
    }
}

/// How many of `nodes` count for version `v`.
pub open spec fn version_count(nodes: Seq<NodeRecord>, v: u32) -> nat
    decreases nodes.len(),
{
    if nodes.len() == 0 {
        0
    } else {
        version_count(nodes.drop_last(), v) + if nodes.last().counted_version() == Some(v) {
            1nat
        } else {
            0nat
        }
    }
}

/// How many of `nodes` count for the user agent `agent`.
pub open spec fn agent_count(nodes: Seq<NodeRecord>, agent: Seq<char>) -> nat
    decreases nodes.len(),
{
    if nodes.len() == 0 {
        0
    } else {
        agent_count(nodes.drop_last(), agent) + if nodes.last().counted_agent() == Some(agent) {
            1nat
        } else {
            0nat
        }
    }
}

/// The versions that some node counts for, each with the number of nodes
/// that count for it.
pub open spec fn version_histogram(nodes: Seq<NodeRecord>) -> Map<u32, usize> {
    Map::new(|v: u32| version_count(nodes, v) > 0, |v: u32| version_count(nodes, v) as usize)
}

/// Some entry of `tallies` is for `agent`.
pub open spec fn listed(tallies: Seq<(Seq<char>, nat)>, agent: Seq<char>) -> bool {
    exists|i: int| 0 <= i < tallies.len() && (#[trigger] tallies[i]).0 == agent
}

/// The tallies after one more node reported `agent`: its entry counts one
/// more, or a new entry with count one goes to the end.
pub open spec fn bumped(tallies: Seq<(Seq<char>, nat)>, agent: Seq<char>) -> Seq<
    (Seq<char>, nat),
> {
    if listed(tallies, agent) {
        Seq::new(
            tallies.len(),
            |i: int|
                if tallies[i].0 == agent {
                    (agent, tallies[i].1 + 1)
                } else {
                    tallies[i]
                },
        )
    } else {
        tallies.push((agent, 1))
    }
}

/// The user agents that some node counts for, in the order in which they
/// first occur among `nodes`, each with the number of nodes that count for
/// it.
pub open spec fn agent_tallies(nodes: Seq<NodeRecord>) -> Seq<(Seq<char>, nat)>
    decreases nodes.len(),
{
    if nodes.len() == 0 {
        Seq::empty()
    } else {
        match nodes.last().counted_agent() {
            Some(agent) => bumped(agent_tallies(nodes.drop_last()), agent),
            None => agent_tallies(nodes.drop_last()),
        }
    }
}

/// No user agent has two entries.
pub open spec fn distinct_agents(tallies: Seq<(Seq<char>, nat)>) -> bool {
    forall|i: int, j: int|
        0 <= i < j < tallies.len() ==> (#[trigger] tallies[i]).0 != (#[trigger] tallies[j]).0
}

/// The entries of a list of user agents with their counts.
pub open spec fn tallies_of(counts: Seq<AgentCount>) -> Seq<(Seq<char>, nat)> {
    Seq::new(counts.len(), |i: int| counts[i]@)
}

/// No more nodes count for a version than there are nodes.
pub proof fn lemma_version_count_bound(nodes: Seq<NodeRecord>, v: u32)
    ensures
        version_count(nodes, v) <= nodes.len(),
    decreases nodes.len(),
{
    if nodes.len() > 0 {
        lemma_version_count_bound(nodes.drop_last(), v);
    }
}

/// The list of user agents holds each agent once, with the number of nodes
/// that count for it, and holds exactly the agents that some node counts
/// for.
pub proof fn lemma_agent_tallies(nodes: Seq<NodeRecord>)
    ensures
        distinct_agents(agent_tallies(nodes)),
        agent_tallies(nodes).len() <= nodes.len(),
        forall|i: int|
            0 <= i < agent_tallies(nodes).len() ==> {
                &&& (#[trigger] agent_tallies(nodes)[i]).1 == agent_count(
                    nodes,
                    agent_tallies(nodes)[i].0,
                )
                &&& 0 < agent_tallies(nodes)[i].1 <= nodes.len()
            },
        forall|agent: Seq<char>|
            listed(agent_tallies(nodes), agent) <==> #[trigger] agent_count(nodes, agent) > 0,
    decreases nodes.len(),
{
    if nodes.len() > 0 {
        let rest = nodes.drop_last();
        lemma_agent_tallies(rest);
        let before = agent_tallies(rest);
        let after = agent_tallies(nodes);
        assert forall|i: int| 0 <= i < after.len() implies {
            &&& (#[trigger] after[i]).1 == agent_count(nodes, after[i].0)
            &&& 0 < after[i].1 <= nodes.len()
        } by {
            match nodes.last().counted_agent() {
                Some(agent) => {
                    if listed(before, agent) {
                        assert(before[i].1 == agent_count(rest, before[i].0));
                    } else if i < before.len() {
                        assert(before[i].1 == agent_count(rest, before[i].0));
                    } else {
                        assert(agent_count(rest, agent) == 0);
                    }
                },
                None => {
                    assert(before[i].1 == agent_count(rest, before[i].0));
                },
            }
        }
        match nodes.last().counted_agent() {
            Some(agent) => {
                if listed(before, agent) {
                    let k = choose|k: int| 0 <= k < before.len() && (#[trigger] before[k]).0 == agent;
                    assert forall|name: Seq<char>| listed(after, name) <==> #[trigger] agent_count(
                        nodes,
                        name,
                    ) > 0 by {
                        if listed(after, name) {
                            let i = choose|i: int|
                                0 <= i < after.len() && (#[trigger] after[i]).0 == name;
                            assert(before[i].0 == name);
                        }
                        if agent_count(nodes, name) > 0 {
                            if name == agent {
                                assert(after[k].0 == name);
                            } else {
                                assert(agent_count(rest, name) > 0);
                                assert(listed(before, name));
                                let i = choose|i: int|
                                    0 <= i < before.len() && (#[trigger] before[i]).0 == name;
                                assert(after[i].0 == name);
                            }
                        }
                    }
                } else {
                    assert(after[before.len() as int].0 == agent);
                    assert forall|name: Seq<char>| listed(after, name) <==> #[trigger] agent_count(
                        nodes,
                        name,
                    ) > 0 by {
                        if listed(after, name) {
                            let i = choose|i: int|
                                0 <= i < after.len() && (#[trigger] after[i]).0 == name;
                            if i < before.len() {
                                assert(before[i].0 == name);
                            }
                        }
                        if agent_count(nodes, name) > 0 {
                            if name == agent {
                                assert(after[before.len() as int].0 == name);
                            } else {
                                assert(agent_count(rest, name) > 0);
                                assert(listed(before, name));
                                let i = choose|i: int|
                                    0 <= i < before.len() && (#[trigger] before[i]).0 == name;
                                assert(after[i].0 == name);
                            }
                        }
                    }
                }
            },
            None => {
                assert forall|name: Seq<char>| listed(after, name) <==> #[trigger] agent_count(
                    nodes,
                    name,
                ) > 0 by {
                    assert(agent_count(nodes, name) == agent_count(rest, name));
                }
            },
        }
    } else {
        assert forall|name: Seq<char>| listed(agent_tallies(nodes), name) <==> #[trigger] agent_count(
            nodes,
            name,
        ) > 0 by {
            assert(!listed(agent_tallies(nodes), name));
        }
    }
}

/// Counts, for each protocol version, the reachable nodes that reported it.
/// A node that reported none, or that was not reached, is left out.
pub fn count_versions(nodes: &Vec<NodeRecord>) -> (versions: HashMap<u32, usize>)
    ensures
        versions@ == version_histogram(nodes@),
{
    let mut versions: HashMap<u32, usize> = HashMap::new();
    let mut i: usize = 0;
    while i < nodes.len()
        invariant
            i <= nodes.len(),
            versions@ == version_histogram(nodes@.take(i as int)),
        decreases nodes.len() - i,
    {
        let ghost seen = nodes@.take(i as int);
        let ghost grown = nodes@.take(i + 1);
        assert(grown.drop_last() =~= seen);
        if nodes[i].reachable {
            match nodes[i].protocol_version {
                Some(v) => {
                    let so_far: usize = match versions.get(&v) {
                        Some(n) => *n,
                        None => 0,
                    };
                    proof {
                        lemma_version_count_bound(seen, v);
                    }
                    versions.insert(v, so_far + 1);
                    assert(versions@ =~= version_histogram(grown));
                },
                None => {
                    assert(versions@ =~= version_histogram(grown));
                },
            }
        } else {
            assert(versions@ =~= version_histogram(grown));
        }
        i += 1;
    }
    assert(nodes@.take(i as int) =~= nodes@);
    versions
}

/// Where `agent` stands in `counts`, if it does.
fn find_agent(counts: &Vec<AgentCount>, agent: &String) -> (at: Option<usize>)
    ensures
        at matches Some(k) ==> k < counts.len() && counts@[k as int].agent@ == agent@,
        at is None ==> !listed(tallies_of(counts@), agent@),
{
    let mut k: usize = 0;
    while k < counts.len()
        invariant
            k <= counts.len(),
            forall|j: int| 0 <= j < k ==> (#[trigger] tallies_of(counts@)[j]).0 != agent@,
        decreases counts.len() - k,
    {
        if counts[k].agent == *agent {
            return Some(k);
        }
        k += 1;
    }
    None
}

/// Counts, for each user agent, the reachable nodes that reported it, and
/// lists the agents in the order in which they first occur. A node that
/// reported none, or that was not reached, is left out.
pub fn count_agents(nodes: &Vec<NodeRecord>) -> (counts: Vec<AgentCount>)
    ensures
        tallies_of(counts@) == agent_tallies(nodes@),
{
    let mut counts: Vec<AgentCount> = Vec::new();
    let mut i: usize = 0;
    assert(tallies_of(counts@) =~= agent_tallies(nodes@.take(0)));
    while i < nodes.len()
        invariant
            i <= nodes.len(),
            tallies_of(counts@) == agent_tallies(nodes@.take(i as int)),
        decreases nodes.len() - i,
    {
        let ghost seen = nodes@.take(i as int);
        let ghost grown = nodes@.take(i + 1);
        let ghost before = tallies_of(counts@);
        assert(grown.drop_last() =~= seen);
        proof {
            lemma_agent_tallies(seen);
        }
        if nodes[i].reachable {
            match &nodes[i].user_agent {
                Some(agent) => {
                    match find_agent(&counts, agent) {
                        Some(k) => {
                            assert(before[k as int].0 == agent@);
                            let so_far: usize = counts[k].count;
                            counts[k].count = so_far + 1;
                            assert(tallies_of(counts@) =~= bumped(before, agent@));
                        },
                        None => {
                            counts.push(AgentCount { agent: agent.clone(), count: 1 });
                            assert(tallies_of(counts@) =~= bumped(before, agent@));
                        },
                    }
                },
                None => {},
            }
        }
        i += 1;
    }
    assert(nodes@.take(i as int) =~= nodes@);
    counts
}

} // verus!
