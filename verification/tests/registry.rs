use synapse::codec::SocketAddress;
use synapse::registry::{
    AddressRegistry, MigrationInfo, UdpClientState, CLEANUP_EVERY, STALE_AFTER,
};

fn reg_addr(port: u16) -> SocketAddress {
    SocketAddress::V4 { ip: 0x0a00_0001, port }
}

fn reg_sorted(mut ids: Vec<u128>) -> Vec<u128> {
    ids.sort();
    ids
}

#[test]
fn timing_constants() {
    assert_eq!(STALE_AFTER, 60 * 1_000_000_000);
    assert_eq!(CLEANUP_EVERY, 5 * 1_000_000_000);
}

#[test]
fn new_registry_knows_nobody() {
    let reg = AddressRegistry::new();
    assert_eq!(reg.lookup(1), None);
    assert_eq!(reg.lookup_by_addr(reg_addr(1)), None);
}

#[test]
fn observe_registers_an_unknown_client() {
    let mut reg = AddressRegistry::new();
    assert_eq!(reg.observe(1, reg_addr(1000), 5), MigrationInfo::Registered);
    assert_eq!(reg.lookup(1), Some(UdpClientState { udp_addr: reg_addr(1000), last_seen: 5 }));
    assert_eq!(reg.lookup_by_addr(reg_addr(1000)), Some(1));
    assert_eq!(reg.lookup(2), None);
    assert_eq!(reg.lookup_by_addr(reg_addr(1001)), None);
}

#[test]
fn observe_at_the_same_endpoint_refreshes() {
    let mut reg = AddressRegistry::new();
    reg.observe(1, reg_addr(1000), 5);
    assert_eq!(reg.observe(1, reg_addr(1000), 9), MigrationInfo::Refreshed);
    assert_eq!(reg.lookup(1), Some(UdpClientState { udp_addr: reg_addr(1000), last_seen: 9 }));
    assert_eq!(reg.lookup_by_addr(reg_addr(1000)), Some(1));
}

#[test]
fn observe_at_a_new_endpoint_repoints_both_maps() {
    let mut reg = AddressRegistry::new();
    reg.observe(1, reg_addr(1000), 5);
    reg.observe(2, reg_addr(2000), 5);
    assert_eq!(
        reg.observe(1, reg_addr(1001), 7),
        MigrationInfo::Migrated { from: reg_addr(1000) }
    );
    assert_eq!(reg.lookup_by_addr(reg_addr(1001)), Some(1));
    assert_eq!(reg.lookup_by_addr(reg_addr(1000)), None);
    assert_eq!(reg.lookup(1), Some(UdpClientState { udp_addr: reg_addr(1001), last_seen: 7 }));
    // the other client is as it was
    assert_eq!(reg.lookup(2), Some(UdpClientState { udp_addr: reg_addr(2000), last_seen: 5 }));
    assert_eq!(reg.lookup_by_addr(reg_addr(2000)), Some(2));
}

#[test]
fn endpoints_differ_by_every_part() {
    let v4 = SocketAddress::V4 { ip: 1, port: 9 };
    let v6 = SocketAddress::V6 { ip: 1, port: 9, flowinfo: 0, scope_id: 0 };
    let scoped = SocketAddress::V6 { ip: 1, port: 9, flowinfo: 0, scope_id: 2 };
    let flowing = SocketAddress::V6 { ip: 1, port: 9, flowinfo: 2, scope_id: 0 };
    let other_port = SocketAddress::V6 { ip: 1, port: 10, flowinfo: 0, scope_id: 0 };
    let other_ip = SocketAddress::V6 { ip: 2, port: 9, flowinfo: 0, scope_id: 0 };
    let all = [v4, v6, scoped, flowing, other_port, other_ip];
    let mut reg = AddressRegistry::new();
    for (i, a) in all.iter().enumerate() {
        assert_eq!(reg.observe(100 + i as u128, *a, 1), MigrationInfo::Registered);
    }
    for (i, a) in all.iter().enumerate() {
        assert_eq!(reg.lookup_by_addr(*a), Some(100 + i as u128));
    }
    // extreme values of every part keep apart too
    let top = SocketAddress::V6 { ip: u128::MAX, port: u16::MAX, flowinfo: u32::MAX, scope_id: u32::MAX };
    let near = SocketAddress::V6 { ip: u128::MAX, port: u16::MAX, flowinfo: u32::MAX, scope_id: u32::MAX - 1 };
    reg.observe(1, top, 1);
    reg.observe(2, near, 1);
    assert_eq!(reg.lookup_by_addr(top), Some(1));
    assert_eq!(reg.lookup_by_addr(near), Some(2));
}

#[test]
fn touch_refreshes_a_known_client_only() {
    let mut reg = AddressRegistry::new();
    reg.observe(1, reg_addr(1000), 5);
    assert!(reg.touch(1, 50));
    assert_eq!(reg.lookup(1), Some(UdpClientState { udp_addr: reg_addr(1000), last_seen: 50 }));
    assert_eq!(reg.lookup_by_addr(reg_addr(1000)), Some(1));
    assert!(!reg.touch(2, 50));
    assert_eq!(reg.lookup(2), None);
}

#[test]
fn sweep_removes_exactly_the_stale() {
    let mut reg = AddressRegistry::new();
    reg.observe(1, reg_addr(1000), 0);
    reg.observe(2, reg_addr(2000), 10);
    reg.observe(3, reg_addr(3000), 11);
    reg.observe(4, reg_addr(4000), 100);
    // at 70 with a threshold of 60: idle 70, 60, 59 and none
    let removed = reg.sweep(70, 60);
    assert_eq!(removed, vec![1]);
    assert_eq!(reg.lookup(1), None);
    assert_eq!(reg.lookup_by_addr(reg_addr(1000)), None);
    assert_eq!(reg.lookup(2), Some(UdpClientState { udp_addr: reg_addr(2000), last_seen: 10 }));
    assert_eq!(reg.lookup(3), Some(UdpClientState { udp_addr: reg_addr(3000), last_seen: 11 }));
    assert_eq!(reg.lookup(4), Some(UdpClientState { udp_addr: reg_addr(4000), last_seen: 100 }));
    assert_eq!(reg.lookup_by_addr(reg_addr(2000)), Some(2));
    assert_eq!(reg.lookup_by_addr(reg_addr(3000)), Some(3));
    assert_eq!(reg.lookup_by_addr(reg_addr(4000)), Some(4));
    // one tick later the next one is due
    assert_eq!(reg.sweep(71, 60), vec![2]);
    assert_eq!(reg.sweep(71, 60), Vec::<u128>::new());
    assert_eq!(reg_sorted(reg.sweep(1000, 60)), vec![3, 4]);
    assert_eq!(reg.lookup(3), None);
    assert_eq!(reg.lookup(4), None);
    assert_eq!(reg.lookup_by_addr(reg_addr(3000)), None);
    assert_eq!(reg.lookup_by_addr(reg_addr(4000)), None);
}

#[test]
fn sweep_of_many_returns_each_once() {
    let mut reg = AddressRegistry::new();
    for i in 0..200u16 {
        reg.observe(i as u128, reg_addr(i), if i % 2 == 0 { 0 } else { 500 });
    }
    let removed = reg_sorted(reg.sweep(501, 100));
    let expected: Vec<u128> = (0..200u128).filter(|i| i % 2 == 0).collect();
    assert_eq!(removed, expected);
    for i in 0..200u16 {
        if i % 2 == 0 {
            assert_eq!(reg.lookup(i as u128), None);
            assert_eq!(reg.lookup_by_addr(reg_addr(i)), None);
        } else {
            assert_eq!(reg.lookup_by_addr(reg_addr(i)), Some(i as u128));
        }
    }
}

#[test]
fn a_client_seen_after_now_is_not_stale() {
    let mut reg = AddressRegistry::new();
    reg.observe(1, reg_addr(1000), 500);
    assert_eq!(reg.sweep(100, 0), Vec::<u128>::new());
    assert_eq!(reg.sweep(500, 0), Vec::<u128>::new());
    assert_eq!(reg.sweep(501, 0), vec![1]);
}

#[test]
fn a_refreshed_client_outlives_the_sweep() {
    let mut reg = AddressRegistry::new();
    reg.observe(1, reg_addr(1000), 0);
    reg.observe(2, reg_addr(2000), 0);
    reg.observe(1, reg_addr(1000), STALE_AFTER);
    assert_eq!(reg.sweep(STALE_AFTER + 1, STALE_AFTER), vec![2]);
    assert_eq!(reg.lookup_by_addr(reg_addr(1000)), Some(1));
}

#[test]
fn sweep_clears_the_endpoint_of_a_stale_client_even_when_shared() {
    let mut reg = AddressRegistry::new();
    reg.observe(1, reg_addr(1000), 0);
    // a second client shows up at the same endpoint and takes the reverse entry
    assert_eq!(reg.observe(2, reg_addr(1000), 100), MigrationInfo::Registered);
    assert_eq!(reg.lookup_by_addr(reg_addr(1000)), Some(2));
    assert_eq!(reg.sweep(100, 50), vec![1]);
    assert_eq!(reg.lookup(1), None);
    assert_eq!(reg.lookup(2), Some(UdpClientState { udp_addr: reg_addr(1000), last_seen: 100 }));
    assert_eq!(reg.lookup_by_addr(reg_addr(1000)), None);
    // the next packet of the client that stayed leaves the reverse map as it is
    assert_eq!(reg.observe(2, reg_addr(1000), 101), MigrationInfo::Refreshed);
    assert_eq!(reg.lookup_by_addr(reg_addr(1000)), None);
}
