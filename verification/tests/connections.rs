use std::time::{Duration, Instant};

use ziggurat_core::crawler::connection::KnownConnection;
use ziggurat_core::crawler::connections::ConnectionSet;
use ziggurat_core::crawler::endpoint::Endpoint;

fn node(last: u8) -> Endpoint {
    Endpoint::v4(10, 0, 0, last, 8233)
}

#[test]
fn empty_set_has_no_entries() {
    let set = ConnectionSet::new();
    assert_eq!(set.size(), 0);
    assert!(set.iterate().is_empty());
    assert!(!set.contains(node(1), node(2)));
    assert_eq!(set.find(node(1), node(2)), None);
    assert_eq!(set.get(0), None);
    assert_eq!(ConnectionSet::default().size(), 0);
}

#[test]
fn reverse_report_is_not_counted_twice() {
    let mut set = ConnectionSet::new();
    set.observe(node(1), node(2));
    set.observe(node(2), node(1));
    assert_eq!(set.size(), 1);
}

#[test]
fn later_report_refreshes_the_time() {
    let t1 = Instant::now();
    let t2 = t1 + Duration::from_secs(30);
    let mut set = ConnectionSet::new();
    set.observe_at(node(1), node(2), t1);
    assert_eq!(set.find(node(1), node(2)).unwrap().last_seen, t1);
    set.observe_at(node(2), node(1), t2);
    assert_eq!(set.size(), 1);
    let stored = set.get(0).unwrap();
    assert_eq!(stored.last_seen, t2);
    assert_eq!(stored.a, node(1));
    assert_eq!(stored.b, node(2));
}

#[test]
fn refresh_takes_the_time_reported_even_if_earlier() {
    let t1 = Instant::now();
    let t2 = t1 + Duration::from_secs(30);
    let mut set = ConnectionSet::new();
    set.observe_at(node(1), node(2), t2);
    set.observe_at(node(1), node(2), t1);
    assert_eq!(set.size(), 1);
    assert_eq!(set.get(0).unwrap().last_seen, t1);
}

#[test]
fn observe_returns_the_time_it_stored() {
    let mut set = ConnectionSet::new();
    let before = Instant::now();
    let first = set.observe(node(1), node(2));
    let second = set.observe(node(2), node(1));
    let after = Instant::now();
    assert!(before <= first && first <= second && second <= after);
    assert_eq!(set.size(), 1);
    assert_eq!(set.get(0).unwrap().last_seen, second);
}

#[test]
fn self_loop_is_one_entry() {
    let mut set = ConnectionSet::new();
    set.observe(node(1), node(1));
    set.observe(node(1), node(1));
    assert_eq!(set.size(), 1);
    assert_eq!(set.get(0).unwrap().a, node(1));
    assert_eq!(set.get(0).unwrap().b, node(1));
    assert!(set.contains(node(1), node(1)));
    assert!(!set.contains(node(1), node(2)));
}

#[test]
fn entries_keep_the_order_of_first_report() {
    let t = Instant::now();
    let mut set = ConnectionSet::new();
    set.observe_at(node(3), node(4), t);
    set.observe_at(node(1), node(2), t);
    set.observe_at(node(4), node(3), t + Duration::from_secs(1));
    set.observe_at(node(1), node(3), t);
    let all = set.iterate();
    assert_eq!(set.size(), 3);
    assert_eq!(all.len(), 3);
    assert_eq!((all[0].a, all[0].b), (node(3), node(4)));
    assert_eq!(all[0].last_seen, t + Duration::from_secs(1));
    assert_eq!((all[1].a, all[1].b), (node(1), node(2)));
    assert_eq!(all[1].last_seen, t);
    assert_eq!((all[2].a, all[2].b), (node(1), node(3)));
    let again = set.iterate();
    assert_eq!(all, again);
}

#[test]
fn find_gives_the_stored_entry() {
    let t = Instant::now();
    let mut set = ConnectionSet::new();
    set.observe_at(node(1), node(2), t);
    set.observe_at(node(2), node(3), t);
    let found = set.find(node(3), node(2)).unwrap();
    assert_eq!(found, KnownConnection::seen_at(node(2), node(3), t));
    assert_eq!((found.a, found.b), (node(2), node(3)));
    assert!(set.contains(node(2), node(1)));
    assert!(!set.contains(node(1), node(3)));
    assert_eq!(set.find(node(1), node(3)), None);
    assert_eq!(set.get(1), Some(found));
    assert_eq!(set.get(2), None);
}

#[test]
fn many_reports_of_a_few_links() {
    let mut set = ConnectionSet::new();
    for round in 0..5u8 {
        for i in 0..6u8 {
            for j in 0..6u8 {
                if (i + j + round) % 2 == 0 {
                    set.observe(node(i), node(j));
                }
            }
        }
    }
    // 6 self-loops and the 15 pairs of different nodes
    assert_eq!(set.size(), 21);
    let all = set.iterate();
    for i in 0..all.len() {
        for j in (i + 1)..all.len() {
            assert_ne!(all[i], all[j]);
        }
    }
}
