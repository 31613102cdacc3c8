use synapse::codec::{Datagram, SocketAddress};
use synapse::directory::AppStateInner;
use synapse::registry::{UdpClientState, STALE_AFTER};
use synapse::relay::{RelayForwarder, RelaySend, RelaySendType};

const RELAY_A: u128 = 0x0102_0304_0506_0708_090a_0b0c_0d0e_0f10;
const RELAY_B: u128 = 0xf1f2_f3f4_f5f6_f7f8_f9fa_fbfc_fdfe_ff00;

fn relay_addr_a() -> SocketAddress {
    SocketAddress::V4 { ip: 0xC633_6401, port: 6000 }
}

fn relay_addr_b() -> SocketAddress {
    SocketAddress::V4 { ip: 0xC633_6402, port: 6001 }
}

fn relay_bind(id: u128) -> Vec<u8> {
    let mut d = vec![0x1];
    d.extend_from_slice(&id.to_be_bytes());
    d
}

fn relay_paired() -> AppStateInner {
    let mut st = AppStateInner::new();
    st.create_room(RELAY_A);
    st.join_room(RELAY_B, 0).unwrap();
    st
}

#[test]
fn relay_send_type_from_its_byte() {
    assert_eq!(RelaySendType::try_from(0x1), Ok(RelaySendType::Bind));
    assert_eq!(RelaySendType::try_from(0x2), Ok(RelaySendType::Relay));
    assert_eq!(RelaySendType::try_from(0x0), Err(()));
    assert_eq!(RelaySendType::try_from(0x3), Err(()));
    assert_eq!(RelaySendType::try_from(0xff), Err(()));
    assert_eq!(RelaySendType::Bind.tag(), 0x1);
    assert_eq!(RelaySendType::Relay.tag(), 0x2);
}

#[test]
fn parse_bind_reads_the_identity() {
    let mut d = relay_bind(RELAY_A);
    assert!(matches!(RelaySend::parse(&mut d), Some(RelaySend::Bind(id)) if id == RELAY_A));
    let mut long = relay_bind(RELAY_B);
    long.push(0xee);
    assert!(matches!(RelaySend::parse(&mut long), Some(RelaySend::Bind(id)) if id == RELAY_B));
    assert!(matches!(RelaySend::parse_datagram(&long), Some(RelaySend::Bind(id)) if id == RELAY_B));
}

#[test]
fn parse_relay_keeps_the_whole_datagram() {
    let mut d = vec![0x2, 0xde, 0xad, 0xbe, 0xef];
    match RelaySend::parse(&mut d) {
        Some(RelaySend::Relay(buf)) => assert_eq!(buf, &[0x2, 0xde, 0xad, 0xbe, 0xef][..]),
        other => panic!("{other:?}"),
    }
    let mut bare = vec![0x2];
    match RelaySend::parse(&mut bare) {
        Some(RelaySend::Relay(buf)) => assert_eq!(buf, &[0x2][..]),
        other => panic!("{other:?}"),
    }
}

#[test]
fn parse_rejects_what_is_no_message() {
    let mut empty: Vec<u8> = vec![];
    assert!(RelaySend::parse(&mut empty).is_none());
    let mut unknown = vec![0x3, 1, 2, 3];
    assert!(RelaySend::parse(&mut unknown).is_none());
    let mut zero = vec![0x0; 17];
    assert!(RelaySend::parse(&mut zero).is_none());
    // a bind with fifteen bytes of identity
    let mut short = relay_bind(RELAY_A);
    short.pop();
    assert!(RelaySend::parse(&mut short).is_none());
    let mut bare = vec![0x1];
    assert!(RelaySend::parse(&mut bare).is_none());
}

#[test]
fn bind_is_acknowledged_with_its_type_byte() {
    let st = relay_paired();
    let mut rf = RelayForwarder::new();
    let out = rf.handle_datagram(&st, &relay_bind(RELAY_A), relay_addr_a(), 3);
    assert_eq!(out, Some(Datagram { dst: relay_addr_a(), payload: vec![0x1] }));
    assert_eq!(
        rf.registry().lookup(RELAY_A),
        Some(UdpClientState { udp_addr: relay_addr_a(), last_seen: 3 })
    );
    assert_eq!(rf.registry().lookup_by_addr(relay_addr_a()), Some(RELAY_A));
}

#[test]
fn bind_needs_no_room() {
    let st = AppStateInner::new();
    let mut rf = RelayForwarder::new();
    let out = rf.handle_datagram(&st, &relay_bind(5), relay_addr_a(), 3);
    assert_eq!(out, Some(Datagram { dst: relay_addr_a(), payload: vec![0x1] }));
    assert_eq!(rf.registry().lookup_by_addr(relay_addr_a()), Some(5));
}

#[test]
fn relay_is_forwarded_byte_for_byte_to_the_peer() {
    let st = relay_paired();
    let mut rf = RelayForwarder::new();
    rf.handle_datagram(&st, &relay_bind(RELAY_A), relay_addr_a(), 1);
    rf.handle_datagram(&st, &relay_bind(RELAY_B), relay_addr_b(), 2);
    let data = vec![0x2, b'h', b'e', b'l', b'l', b'o', 0x00, 0xff];
    let out = rf.handle_datagram(&st, &data, relay_addr_a(), 10);
    assert_eq!(out, Some(Datagram { dst: relay_addr_b(), payload: data.clone() }));
    let back = rf.handle_datagram(&st, &data, relay_addr_b(), 11);
    assert_eq!(back, Some(Datagram { dst: relay_addr_a(), payload: data }));
    // the senders were refreshed
    assert_eq!(rf.registry().lookup(RELAY_A).unwrap().last_seen, 10);
    assert_eq!(rf.registry().lookup(RELAY_B).unwrap().last_seen, 11);
    // a relay of the tag alone goes through as well
    let bare = rf.handle_datagram(&st, &[0x2], relay_addr_a(), 12);
    assert_eq!(bare, Some(Datagram { dst: relay_addr_b(), payload: vec![0x2] }));
}

#[test]
fn relay_from_an_unbound_endpoint_is_dropped() {
    let st = relay_paired();
    let mut rf = RelayForwarder::new();
    rf.handle_datagram(&st, &relay_bind(RELAY_B), relay_addr_b(), 2);
    assert_eq!(rf.handle_datagram(&st, &[0x2, 1, 2], relay_addr_a(), 10), None);
    assert_eq!(rf.registry().lookup(RELAY_A), None);
}

#[test]
fn relay_without_a_peer_is_dropped_and_the_sender_refreshed() {
    let mut st = AppStateInner::new();
    st.create_room(RELAY_A);
    let mut rf = RelayForwarder::new();
    rf.handle_datagram(&st, &relay_bind(RELAY_A), relay_addr_a(), 1);
    assert_eq!(rf.handle_datagram(&st, &[0x2, 1, 2], relay_addr_a(), 10), None);
    assert_eq!(rf.registry().lookup(RELAY_A).unwrap().last_seen, 10);
}

#[test]
fn relay_to_an_unbound_peer_is_dropped() {
    let st = relay_paired();
    let mut rf = RelayForwarder::new();
    rf.handle_datagram(&st, &relay_bind(RELAY_A), relay_addr_a(), 1);
    assert_eq!(rf.handle_datagram(&st, &[0x2, 1, 2], relay_addr_a(), 10), None);
}

#[test]
fn other_datagrams_are_dropped_without_reply() {
    let st = relay_paired();
    let mut rf = RelayForwarder::new();
    rf.handle_datagram(&st, &relay_bind(RELAY_A), relay_addr_a(), 1);
    assert_eq!(rf.handle_datagram(&st, &[], relay_addr_a(), 10), None);
    assert_eq!(rf.handle_datagram(&st, &[0x7, 1, 2], relay_addr_a(), 10), None);
    assert_eq!(rf.handle_datagram(&st, &[0x1, 1, 2], relay_addr_b(), 10), None);
    assert_eq!(rf.registry().lookup(RELAY_A).unwrap().last_seen, 1);
    assert_eq!(rf.registry().lookup_by_addr(relay_addr_b()), None);
}

#[test]
fn a_rebound_client_is_reached_at_its_new_endpoint() {
    let st = relay_paired();
    let mut rf = RelayForwarder::new();
    rf.handle_datagram(&st, &relay_bind(RELAY_A), relay_addr_a(), 1);
    rf.handle_datagram(&st, &relay_bind(RELAY_B), relay_addr_b(), 1);
    let moved = SocketAddress::V4 { ip: 0xC633_6402, port: 7001 };
    rf.handle_datagram(&st, &relay_bind(RELAY_B), moved, 2);
    let out = rf.handle_datagram(&st, &[0x2, 9], relay_addr_a(), 3);
    assert_eq!(out, Some(Datagram { dst: moved, payload: vec![0x2, 9] }));
    // nothing is bound to the old endpoint any more
    assert_eq!(rf.handle_datagram(&st, &[0x2, 9], relay_addr_b(), 3), None);
}

#[test]
fn relay_cleanup_evicts_the_silent() {
    let st = relay_paired();
    let mut rf = RelayForwarder::new();
    rf.handle_datagram(&st, &relay_bind(RELAY_A), relay_addr_a(), 0);
    rf.handle_datagram(&st, &relay_bind(RELAY_B), relay_addr_b(), 0);
    rf.handle_datagram(&st, &[0x2, 1], relay_addr_a(), STALE_AFTER);
    assert_eq!(rf.cleanup(STALE_AFTER + 1), vec![RELAY_B]);
    assert_eq!(rf.handle_datagram(&st, &[0x2, 1], relay_addr_a(), STALE_AFTER + 2), None);
    assert_eq!(rf.registry().lookup_by_addr(relay_addr_a()), Some(RELAY_A));
}
