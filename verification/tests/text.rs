use std::collections::HashMap;

use ziggurat_core::crawler::connections::ConnectionSet;
use ziggurat_core::crawler::endpoint::Endpoint;
use ziggurat_core::crawler::histogram::AgentCount;
use ziggurat_core::crawler::node::NodeRecord;
use ziggurat_core::crawler::ranking::{rank, rank_agents, rank_versions};
use ziggurat_core::crawler::summary::{Elapsed, NetworkSummary};
use ziggurat_core::crawler::text::{push_decimal, to_decimal};

fn record(last: u8, reachable: bool, version: Option<u32>, agent: Option<&str>) -> NodeRecord {
    NodeRecord {
        addr: Endpoint::v4(10, 0, 0, last, 8233),
        reachable,
        protocol_version: version,
        user_agent: agent.map(|a| a.to_string()),
    }
}

#[test]
fn summary_as_text() {
    let nodes = vec![
        record(1, true, Some(71), Some("/MagicBean:5.0.0/")),
        record(2, true, Some(70), Some("/Zebra:1.0/")),
        record(3, true, Some(70), Some("/Zebra:1.0/")),
        record(4, false, None, None),
    ];
    let mut connections = ConnectionSet::new();
    connections.observe(nodes[0].addr, nodes[1].addr);
    connections.observe(nodes[1].addr, nodes[0].addr);
    connections.observe(nodes[0].addr, nodes[3].addr);
    let summary = NetworkSummary::new(&nodes, &connections, Elapsed::from_secs(125));
    let expected = "Network summary:\n\n\
        Found a total of 4 node(s)\n\
        Managed to connect to 3 node(s)\n\
        2 identified themselves with a Version\n\
        Nodes have 2 known connections between them\n\
        \nProtocol versions:\n\
        70: 2\n\
        71: 1\n\
        \nUser agents:\n\
        /Zebra:1.0/: 2\n\
        /MagicBean:5.0.0/: 1\n\
        \nCrawler ran for a total of 2 minutes\n";
    assert_eq!(summary.to_string(), expected);
}

#[test]
fn empty_summary_as_text() {
    let expected = "Network summary:\n\n\
        Found a total of 0 node(s)\n\
        Managed to connect to 0 node(s)\n\
        0 identified themselves with a Version\n\
        Nodes have 0 known connections between them\n\
        \nProtocol versions:\n\
        \nUser agents:\n\
        \nCrawler ran for a total of 0 minutes\n";
    assert_eq!(NetworkSummary::default().to_string(), expected);
}

#[test]
fn ties_are_broken_the_same_way_every_time() {
    let nodes = vec![
        record(1, true, Some(5), Some("b")),
        record(2, true, Some(3), Some("c")),
        record(3, true, Some(9), Some("a")),
        record(4, true, Some(9), Some("a")),
        record(5, true, Some(4), Some("c")),
        record(6, true, Some(1000), Some("d")),
    ];
    let summary = NetworkSummary::new(&nodes, &ConnectionSet::new(), Elapsed::from_secs(3599));
    let text = summary.to_string();
    let expected = "Network summary:\n\n\
        Found a total of 6 node(s)\n\
        Managed to connect to 6 node(s)\n\
        5 identified themselves with a Version\n\
        Nodes have 0 known connections between them\n\
        \nProtocol versions:\n\
        9: 2\n\
        3: 1\n\
        4: 1\n\
        5: 1\n\
        1000: 1\n\
        \nUser agents:\n\
        c: 2\n\
        a: 2\n\
        b: 1\n\
        d: 1\n\
        \nCrawler ran for a total of 59 minutes\n";
    assert_eq!(text, expected);
    assert_eq!(summary.to_string(), text);
}

#[test]
fn decimal_notation() {
    assert_eq!(to_decimal(0), "0");
    assert_eq!(to_decimal(7), "7");
    assert_eq!(to_decimal(10), "10");
    assert_eq!(to_decimal(909), "909");
    assert_eq!(to_decimal(1_234_567_890), "1234567890");
    assert_eq!(to_decimal(u64::MAX), "18446744073709551615");
    let mut text = String::from("n = ");
    push_decimal(&mut text, 42);
    assert_eq!(text, "n = 42");
}

#[test]
fn rank_sorts_by_falling_count_then_rising_key() {
    let entries = vec![(3, 1), (1, 1), (2, 5), (9, 0), (0, 5), (4, 1)];
    assert_eq!(rank(&entries), vec![(0, 5), (2, 5), (1, 1), (3, 1), (4, 1), (9, 0)]);
    assert_eq!(rank(&Vec::new()), Vec::new());
    assert_eq!(rank(&vec![(1, 1), (1, 1)]), vec![(1, 1), (1, 1)]);
}

#[test]
fn rank_versions_does_not_depend_on_the_walk() {
    let mut versions: HashMap<u32, usize> = HashMap::new();
    for v in 0..200u32 {
        versions.insert(v, (v % 3) as usize);
    }
    let lines = rank_versions(&versions);
    assert_eq!(lines.len(), 200);
    for i in 1..lines.len() {
        let (k0, c0) = lines[i - 1];
        let (k1, c1) = lines[i];
        assert!(c0 > c1 || (c0 == c1 && k0 < k1));
    }
    assert_eq!(lines[0], (2, 2));
    assert_eq!(lines[199], (198, 0));
}

#[test]
fn rank_agents_keeps_first_found_first() {
    let counts = vec![
        AgentCount { agent: "x".to_string(), count: 1 },
        AgentCount { agent: "y".to_string(), count: 4 },
        AgentCount { agent: "z".to_string(), count: 1 },
        AgentCount { agent: "w".to_string(), count: 4 },
    ];
    assert_eq!(rank_agents(&counts), vec![(1, 4), (3, 4), (0, 1), (2, 1)]);
}
