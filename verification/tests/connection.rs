use std::collections::hash_map::DefaultHasher;
use std::collections::HashSet;
use std::hash::{Hash, Hasher};
use std::time::{Duration, Instant};

use ziggurat_core::crawler::connection::KnownConnection;
use ziggurat_core::crawler::endpoint::Endpoint;

fn std_hash(connection: &KnownConnection) -> u64 {
    let mut state = DefaultHasher::new();
    connection.hash(&mut state);
    state.finish()
}

#[test]
fn should_deal_with_reverse_connection() {
    let a = Endpoint::v4(1, 2, 3, 4, 3000);
    let b = Endpoint::v4(1, 2, 3, 5, 3000);
    let connection_present = KnownConnection::new(a, b);
    let connection_reverse = KnownConnection::new(b, a);
    assert_eq!(connection_present, connection_reverse);
    let mut set = HashSet::new();
    set.insert(connection_present);
    assert!(set.contains(&connection_reverse));
}

#[test]
fn new_keeps_the_endpoints_as_given() {
    let a = Endpoint::v4(9, 9, 9, 9, 1);
    let b = Endpoint::v4(1, 1, 1, 1, 1);
    let before = Instant::now();
    let connection = KnownConnection::new(a, b);
    let after = Instant::now();
    assert_eq!(connection.a, a);
    assert_eq!(connection.b, b);
    assert!(before <= connection.last_seen && connection.last_seen <= after);
}

#[test]
fn seen_at_keeps_the_time() {
    let a = Endpoint::v4(1, 2, 3, 4, 3000);
    let b = Endpoint::v4(1, 2, 3, 5, 3000);
    let t = Instant::now() + Duration::from_secs(7);
    let connection = KnownConnection::seen_at(a, b, t);
    assert_eq!(connection.a, a);
    assert_eq!(connection.b, b);
    assert_eq!(connection.last_seen, t);
}

#[test]
fn equality_ignores_the_time() {
    let a = Endpoint::v4(1, 2, 3, 4, 3000);
    let b = Endpoint::v4(1, 2, 3, 5, 3000);
    let t = Instant::now();
    let early = KnownConnection::seen_at(a, b, t);
    let late = KnownConnection::seen_at(b, a, t + Duration::from_secs(60));
    assert_eq!(early, late);
    assert_eq!(std_hash(&early), std_hash(&late));
    assert_eq!(early.hash_code(), late.hash_code());
}

#[test]
fn different_links_are_not_equal() {
    let a = Endpoint::v4(1, 2, 3, 4, 3000);
    let b = Endpoint::v4(1, 2, 3, 5, 3000);
    let c = Endpoint::v4(1, 2, 3, 5, 3001);
    let t = Instant::now();
    assert_ne!(KnownConnection::seen_at(a, b, t), KnownConnection::seen_at(a, c, t));
    assert_ne!(KnownConnection::seen_at(a, b, t), KnownConnection::seen_at(a, a, t));
    assert_ne!(KnownConnection::seen_at(a, a, t), KnownConnection::seen_at(b, b, t));
    assert!(!KnownConnection::seen_at(a, b, t).links(a, c));
    assert!(KnownConnection::seen_at(a, b, t).links(b, a));
}

#[test]
fn self_loop_equals_itself() {
    let a = Endpoint::v4(1, 2, 3, 4, 3000);
    let once = KnownConnection::new(a, a);
    let again = KnownConnection::new(a, a);
    assert_eq!(once, again);
    assert_eq!(once.canonical(), (a, a));
    assert_eq!(once.hash_code(), again.hash_code());
}

#[test]
fn canonical_puts_the_smaller_endpoint_first() {
    let small = Endpoint::v4(1, 2, 3, 4, 3000);
    let large = Endpoint::v4(1, 2, 3, 5, 80);
    assert_eq!(KnownConnection::new(small, large).canonical(), (small, large));
    assert_eq!(KnownConnection::new(large, small).canonical(), (small, large));
    let v6 = Endpoint::V6 { ip: 0, port: 0, flowinfo: 0, scope_id: 0 };
    let v4 = Endpoint::v4(255, 255, 255, 255, 65535);
    assert_eq!(KnownConnection::new(v6, v4).canonical(), (v4, v6));
}

#[test]
fn hash_code_is_what_the_default_hasher_gives() {
    let a = Endpoint::v4(10, 0, 0, 1, 8233);
    let b = Endpoint::V6 { ip: 1, port: 8233, flowinfo: 0, scope_id: 0 };
    let connection = KnownConnection::new(b, a);
    assert_eq!(std_hash(&connection), connection.hash_code());
    assert_eq!(KnownConnection::new(a, b).hash_code(), connection.hash_code());
    let mut by_hand = DefaultHasher::new();
    by_hand.write(&a.encode());
    by_hand.write(&b.encode());
    assert_eq!(by_hand.finish(), connection.hash_code());
}

#[test]
fn hash_depends_on_what_is_fed() {
    let a = Endpoint::v4(10, 0, 0, 1, 8233);
    let b = Endpoint::v4(10, 0, 0, 2, 8233);
    let c = Endpoint::v4(10, 0, 0, 3, 8233);
    let untouched = DefaultHasher::new().finish();
    assert_ne!(std_hash(&KnownConnection::new(a, b)), untouched);
    assert_ne!(std_hash(&KnownConnection::new(a, b)), std_hash(&KnownConnection::new(a, c)));
}

#[test]
fn endpoint_order() {
    let a = Endpoint::v4(1, 2, 3, 4, 3000);
    let b = Endpoint::v4(1, 2, 3, 4, 3001);
    let c = Endpoint::v4(1, 2, 4, 0, 1);
    let d = Endpoint::V6 { ip: 0, port: 0, flowinfo: 0, scope_id: 0 };
    let e = Endpoint::V6 { ip: 0, port: 0, flowinfo: 0, scope_id: 1 };
    let f = Endpoint::V6 { ip: 0, port: 0, flowinfo: 1, scope_id: 0 };
    let g = Endpoint::V6 { ip: 1, port: 0, flowinfo: 0, scope_id: 0 };
    let ascending = [a, b, c, d, e, f, g];
    for i in 0..ascending.len() {
        for j in 0..ascending.len() {
            assert_eq!(ascending[i].precedes(&ascending[j]), i < j);
        }
    }
}

#[test]
fn endpoint_from_octets() {
    assert_eq!(Endpoint::v4(1, 2, 3, 4, 3000), Endpoint::V4 { ip: 0x0102_0304, port: 3000 });
    assert_eq!(Endpoint::v4(0, 0, 0, 0, 0), Endpoint::V4 { ip: 0, port: 0 });
    assert_eq!(
        Endpoint::v4(255, 255, 255, 255, 65535),
        Endpoint::V4 { ip: u32::MAX, port: u16::MAX }
    );
}

#[test]
fn endpoint_encoding() {
    assert_eq!(Endpoint::v4(1, 2, 3, 4, 3000).encode(), vec![4, 1, 2, 3, 4, 0x0b, 0xb8]);
    let v6 = Endpoint::V6 {
        ip: 0x2001_0db8_0000_0000_0000_0000_0000_0001,
        port: 8233,
        flowinfo: 0x0a0b_0c0d,
        scope_id: 2,
    };
    assert_eq!(
        v6.encode(),
        vec![
            6, 0x20, 0x01, 0x0d, 0xb8, 0, 0, 0, 0, 0, 0, 0, 0, 0, 0, 0, 1, 0x20, 0x29, 0x0a, 0x0b,
            0x0c, 0x0d, 0, 0, 0, 2
        ]
    );
}
