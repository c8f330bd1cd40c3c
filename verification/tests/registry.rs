use relay_core::addr::PeerAddr;
use relay_core::registry::{Peer, Registry};
use relay_core::time::Timestamp;

fn host(n: u8) -> PeerAddr {
    PeerAddr::v4(10, 0, 0, n, 4000)
}

fn at(secs: u64) -> Timestamp {
    Timestamp::from_secs(secs)
}

#[test]
fn new_registry_is_empty() {
    let registry = Registry::new();
    assert_eq!(registry.len(), 0);
    assert!(registry.is_empty());
    assert!(!registry.contains(host(1)));
    assert_eq!(registry.get(host(1)), None);
    assert_eq!(registry.position(host(1)), None);
    assert_eq!(registry.nth(0), None);
    assert!(registry.iterate().is_empty());
}

#[test]
fn upsert_registers_a_new_address() {
    let mut registry = Registry::new();
    registry.upsert(host(1), at(7));
    assert_eq!(registry.len(), 1);
    assert!(!registry.is_empty());
    assert!(registry.contains(host(1)));
    assert_eq!(registry.get(host(1)), Some(Peer { last_active: at(7) }));
    assert_eq!(registry.position(host(1)), Some(0));
}

#[test]
fn upsert_refreshes_an_existing_entry() {
    let mut registry = Registry::new();
    registry.upsert(host(1), at(1));
    registry.upsert(host(2), at(2));
    registry.upsert(host(1), at(9));
    assert_eq!(registry.len(), 2);
    assert_eq!(registry.get(host(1)), Some(Peer { last_active: at(9) }));
    assert_eq!(registry.get(host(2)), Some(Peer { last_active: at(2) }));
    assert_eq!(registry.position(host(1)), Some(0));
    assert_eq!(registry.position(host(2)), Some(1));
}

#[test]
fn upsert_twice_is_upsert_with_the_later_time() {
    let mut twice = Registry::new();
    twice.upsert(host(3), at(1));
    twice.upsert(host(1), at(4));
    twice.upsert(host(1), at(6));
    let mut once = Registry::new();
    once.upsert(host(3), at(1));
    once.upsert(host(1), at(6));
    assert_eq!(twice.iterate(), once.iterate());
    assert_eq!(twice.len(), 2);
}

#[test]
fn upsert_with_the_same_time_changes_nothing() {
    let mut registry = Registry::new();
    registry.upsert(host(1), at(4));
    let before = registry.iterate();
    registry.upsert(host(1), at(4));
    assert_eq!(registry.iterate(), before);
}

#[test]
fn upsert_takes_the_time_it_is_given() {
    let mut registry = Registry::new();
    registry.upsert(host(1), at(9));
    registry.upsert(host(1), at(2));
    assert_eq!(registry.get(host(1)), Some(Peer { last_active: at(2) }));
    assert_eq!(registry.len(), 1);
}

#[test]
fn contains_tells_addresses_apart() {
    let mut registry = Registry::new();
    registry.upsert(PeerAddr::v4(10, 0, 0, 1, 4000), at(0));
    assert!(registry.contains(PeerAddr::v4(10, 0, 0, 1, 4000)));
    assert!(!registry.contains(PeerAddr::v4(10, 0, 0, 1, 4001)));
    assert!(!registry.contains(PeerAddr::v4(10, 0, 0, 2, 4000)));
    assert!(!registry.contains(PeerAddr::V6 {
        ip: 0x0a00_0001,
        port: 4000,
        flowinfo: 0,
        scope_id: 0
    }));
}

#[test]
fn ipv6_addresses_differ_by_every_field() {
    let base = PeerAddr::V6 { ip: 1, port: 9, flowinfo: 0, scope_id: 0 };
    let mut registry = Registry::new();
    registry.upsert(base, at(0));
    registry.upsert(PeerAddr::V6 { ip: 2, port: 9, flowinfo: 0, scope_id: 0 }, at(0));
    registry.upsert(PeerAddr::V6 { ip: 1, port: 8, flowinfo: 0, scope_id: 0 }, at(0));
    registry.upsert(PeerAddr::V6 { ip: 1, port: 9, flowinfo: 1, scope_id: 0 }, at(0));
    registry.upsert(PeerAddr::V6 { ip: 1, port: 9, flowinfo: 0, scope_id: 1 }, at(0));
    registry.upsert(base, at(1));
    assert_eq!(registry.len(), 5);
    assert_eq!(registry.get(base), Some(Peer { last_active: at(1) }));
}

#[test]
fn remove_deletes_the_entry() {
    let mut registry = Registry::new();
    registry.upsert(host(1), at(1));
    registry.upsert(host(2), at(2));
    registry.upsert(host(3), at(3));
    registry.remove(host(2));
    assert_eq!(registry.len(), 2);
    assert!(!registry.contains(host(2)));
    assert_eq!(
        registry.iterate(),
        vec![(host(1), Peer { last_active: at(1) }), (host(3), Peer { last_active: at(3) })]
    );
}

#[test]
fn remove_of_an_unknown_address_changes_nothing() {
    let mut registry = Registry::new();
    registry.upsert(host(1), at(1));
    registry.upsert(host(2), at(2));
    let before = registry.iterate();
    registry.remove(host(9));
    assert_eq!(registry.iterate(), before);
    let mut empty = Registry::new();
    empty.remove(host(1));
    assert!(empty.is_empty());
}

#[test]
fn remove_then_upsert_joins_at_the_end() {
    let mut registry = Registry::new();
    registry.upsert(host(1), at(1));
    registry.upsert(host(2), at(2));
    registry.remove(host(1));
    registry.upsert(host(1), at(3));
    assert_eq!(registry.position(host(2)), Some(0));
    assert_eq!(registry.position(host(1)), Some(1));
}

#[test]
fn iterate_lists_the_entries_in_join_order() {
    let mut registry = Registry::new();
    registry.upsert(host(3), at(30));
    registry.upsert(host(1), at(10));
    registry.upsert(host(2), at(20));
    assert_eq!(
        registry.iterate(),
        vec![
            (host(3), Peer { last_active: at(30) }),
            (host(1), Peer { last_active: at(10) }),
            (host(2), Peer { last_active: at(20) }),
        ]
    );
}

#[test]
fn iterate_can_be_repeated_and_is_a_snapshot() {
    let mut registry = Registry::new();
    registry.upsert(host(1), at(1));
    registry.upsert(host(2), at(2));
    let first = registry.iterate();
    let second = registry.iterate();
    assert_eq!(first, second);
    registry.remove(host(1));
    assert_eq!(first.len(), 2);
    assert_eq!(registry.iterate().len(), 1);
}

#[test]
fn entries_can_be_removed_while_a_snapshot_is_walked() {
    let mut registry = Registry::new();
    registry.upsert(host(1), at(1));
    registry.upsert(host(2), at(2));
    registry.upsert(host(3), at(3));
    for (addr, _) in registry.iterate() {
        if addr != host(2) {
            registry.remove(addr);
        }
    }
    assert_eq!(registry.iterate(), vec![(host(2), Peer { last_active: at(2) })]);
}

#[test]
fn nth_follows_the_order() {
    let mut registry = Registry::new();
    registry.upsert(host(5), at(50));
    registry.upsert(host(6), at(60));
    assert_eq!(registry.nth(0), Some((host(5), Peer { last_active: at(50) })));
    assert_eq!(registry.nth(1), Some((host(6), Peer { last_active: at(60) })));
    assert_eq!(registry.nth(2), None);
    assert_eq!(registry.nth(usize::MAX), None);
}
