//! What a crawl knows about one node.

use vstd::prelude::*;

use crate::crawler::endpoint::Endpoint;

verus! {

/// A node of the network as the crawl found it.
#[derive(Clone, Debug)]
pub struct NodeRecord {
    /// The address of the node.
    pub addr: Endpoint,
    /// Whether the crawler was able to connect to the node.
    pub reachable: bool,
    /// The protocol version that the node reported, if it reported one.
    pub protocol_version: Option<u32>,
    /// The user agent that the node reported, if it reported one.
    pub user_agent: Option<String>,
}

impl NodeRecord {
    /// The version that counts for this node: the one it reported, if the
    /// crawler reached it.
    pub open spec fn counted_version(self) -> Option<u32> {
        if self.reachable {
            self.protocol_version
        } else {
            None
        }
    }

    /// The user agent that counts for this node: the one it reported, if the
    /// crawler reached it.
    pub open spec fn counted_agent(self) -> Option<Seq<char>> {
        match self.user_agent {
            Some(agent) if self.reachable => Some(agent@),
            _ => None,
        }
    }
}

/// The addresses of the reachable nodes, in the order of `nodes`.
pub open spec fn reachable_addrs(nodes: Seq<NodeRecord>) -> Seq<Endpoint>
    decreases nodes.len(),
{
    if nodes.len() == 0 {
        Seq::empty()
    } else if nodes.last().reachable {
        reachable_addrs(nodes.drop_last()).push(nodes.last().addr)
    } else {
        reachable_addrs(nodes.drop_last())
    }
}

/// There are no more reachable nodes than nodes, and every address in the
/// list is that of a reachable node.
pub proof fn lemma_reachable_addrs(nodes: Seq<NodeRecord>)
    ensures
        reachable_addrs(nodes).len() <= nodes.len(),
        forall|e: Endpoint|
            reachable_addrs(nodes).contains(e) <==> exists|i: int|
                0 <= i < nodes.len() && (#[trigger] nodes[i]).reachable && nodes[i].addr == e,
    decreases nodes.len(),
{
    if nodes.len() > 0 {
        let rest = nodes.drop_last();
        lemma_reachable_addrs(rest);
        let all = reachable_addrs(nodes);
        let fewer = reachable_addrs(rest);
        assert forall|e: Endpoint| all.contains(e) implies exists|i: int|
            0 <= i < nodes.len() && (#[trigger] nodes[i]).reachable && nodes[i].addr == e by {
            let k = choose|k: int| 0 <= k < all.len() && all[k] == e;
            if k < fewer.len() {
                assert(fewer[k] == e);
                assert(fewer.contains(e));
                let i = choose|i: int|
                    0 <= i < rest.len() && (#[trigger] rest[i]).reachable && rest[i].addr == e;
                assert(nodes[i].reachable && nodes[i].addr == e);
            } else {
                assert(nodes[nodes.len() - 1].reachable);
            }
        }
        assert forall|e: Endpoint|
            (exists|i: int|
                0 <= i < nodes.len() && (#[trigger] nodes[i]).reachable && nodes[i].addr
                    == e) implies all.contains(e) by {
            let i = choose|i: int|
                0 <= i < nodes.len() && (#[trigger] nodes[i]).reachable && nodes[i].addr == e;
            if i < rest.len() {
                assert(rest[i].reachable && rest[i].addr == e);
                assert(fewer.contains(e));
                let k = choose|k: int| 0 <= k < fewer.len() && fewer[k] == e;
                assert(all[k] == e);
            } else {
                assert(all[all.len() - 1] == e);
            }
        }
    }
}

/// The addresses of the reachable nodes, in the order in which the nodes are
/// given.
pub fn collect_reachable(nodes: &Vec<NodeRecord>) -> (addrs: Vec<Endpoint>)
    ensures
        addrs@ == reachable_addrs(nodes@),
{
    let mut addrs: Vec<Endpoint> = Vec::new();
    let mut i: usize = 0;
    while i < nodes.len()
        invariant
            i <= nodes.len(),
            addrs@ == reachable_addrs(nodes@.take(i as int)),
        decreases nodes.len() - i,
    {
        assert(nodes@.take(i + 1).drop_last() =~= nodes@.take(i as int));
        if nodes[i].reachable {
            addrs.push(nodes[i].addr);
        }
        i += 1;
    }
    assert(nodes@.take(i as int) =~= nodes@);
    addrs
}

} // verus!
