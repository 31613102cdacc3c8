use synapse::codec::{
    decode_socket, encode_socket, encode_waiting, parse_client_id, OutgoingPacketType,
    SocketAddress, CLIENT_ID_LEN, FOUND_PEER_V4_LEN, FOUND_PEER_V6_LEN,
};

fn codec_v4() -> SocketAddress {
    // 192.168.1.10:8080
    SocketAddress::V4 { ip: 0xC0A8_010A, port: 8080 }
}

fn codec_v6() -> SocketAddress {
    // [2001:db8::1]:9000
    SocketAddress::V6 { ip: 0x2001_0db8_0000_0000_0000_0000_0000_0001, port: 9000, flowinfo: 0, scope_id: 0 }
}

#[test]
fn parse_client_id_rejects_short_payloads() {
    assert_eq!(parse_client_id(&[]), None);
    assert_eq!(parse_client_id(&[0xff; 15]), None);
}

#[test]
fn parse_client_id_reads_sixteen_bytes_big_endian() {
    let buf: Vec<u8> = (0u8..16).collect();
    assert_eq!(buf.len(), CLIENT_ID_LEN);
    assert_eq!(parse_client_id(&buf), Some(0x0001_0203_0405_0607_0809_0a0b_0c0d_0e0f));
    assert_eq!(parse_client_id(&[0u8; 16]), Some(0));
    assert_eq!(parse_client_id(&[0xff; 16]), Some(u128::MAX));
    let mut one = [0u8; 16];
    one[15] = 1;
    assert_eq!(parse_client_id(&one), Some(1));
    let mut top = [0u8; 16];
    top[0] = 0x80;
    assert_eq!(parse_client_id(&top), Some(1u128 << 127));
}

#[test]
fn parse_client_id_agrees_with_from_be_bytes() {
    let bytes: [u8; 16] = [
        0xde, 0xad, 0xbe, 0xef, 0x01, 0x23, 0x45, 0x67, 0x89, 0xab, 0xcd, 0xef, 0x10, 0x32, 0x54,
        0x76,
    ];
    assert_eq!(parse_client_id(&bytes), Some(u128::from_be_bytes(bytes)));
}

#[test]
fn parse_client_id_ignores_what_follows_the_identity() {
    let mut buf = vec![0u8; 16];
    buf[15] = 7;
    buf.extend_from_slice(&[0xaa, 0xbb, 0xcc]);
    assert_eq!(parse_client_id(&buf), Some(7));
}

#[test]
fn packet_type_tags() {
    assert_eq!(OutgoingPacketType::FoundPeer.tag(), 0x1);
    assert_eq!(OutgoingPacketType::WaitingPeer.tag(), 0x2);
}

#[test]
fn encode_waiting_is_the_tag_alone() {
    let mut tx = [0xeeu8; 64];
    let pkt = encode_waiting(&mut tx);
    assert_eq!(pkt, &[0x2u8][..]);
    let mut one = [0u8; 1];
    assert_eq!(encode_waiting(&mut one), &[0x2u8][..]);
}

#[test]
fn encode_socket_ipv4_is_eight_bytes() {
    let mut tx = [0xeeu8; 64];
    let pkt = encode_socket(codec_v4(), &mut tx);
    assert_eq!(pkt.len(), FOUND_PEER_V4_LEN);
    assert_eq!(pkt, &[0x1u8, 4, 192, 168, 1, 10, 0x1f, 0x90][..]);
}

#[test]
fn encode_socket_ipv6_is_twenty_bytes() {
    let mut tx = [0xeeu8; 64];
    let pkt = encode_socket(codec_v6(), &mut tx);
    assert_eq!(pkt.len(), FOUND_PEER_V6_LEN);
    assert_eq!(
        pkt,
        &[0x1u8, 6, 0x20, 0x01, 0x0d, 0xb8, 0, 0, 0, 0, 0, 0, 0, 0, 0, 0, 0, 1, 0x23, 0x28][..]
    );
}

#[test]
fn encode_socket_fits_a_buffer_of_exactly_its_length() {
    let mut eight = [0u8; 8];
    assert_eq!(encode_socket(codec_v4(), &mut eight).len(), 8);
    let mut twenty = [0u8; 20];
    assert_eq!(encode_socket(codec_v6(), &mut twenty).len(), 20);
}

#[test]
fn encode_socket_leaves_out_flow_and_scope() {
    let scoped = SocketAddress::V6 { ip: 0xfe80 << 112 | 1, port: 9000, flowinfo: 77, scope_id: 3 };
    let plain = SocketAddress::V6 { ip: 0xfe80 << 112 | 1, port: 9000, flowinfo: 0, scope_id: 0 };
    let mut a = [0u8; 64];
    let mut b = [0u8; 64];
    let pa = encode_socket(scoped, &mut a).to_vec();
    let pb = encode_socket(plain, &mut b).to_vec();
    assert_eq!(pa, pb);
    assert_eq!(decode_socket(&pa), Some(plain));
}

#[test]
fn found_peer_round_trips_ipv4() {
    let mut tx = [0u8; 64];
    let pkt = encode_socket(codec_v4(), &mut tx);
    assert_eq!(pkt.len(), 8);
    assert_eq!(pkt[1], 4);
    assert_eq!(decode_socket(pkt), Some(codec_v4()));
    let edge = SocketAddress::V4 { ip: u32::MAX, port: u16::MAX };
    let mut tx2 = [0u8; 64];
    assert_eq!(decode_socket(encode_socket(edge, &mut tx2)), Some(edge));
    let zero = SocketAddress::V4 { ip: 0, port: 0 };
    let mut tx3 = [0xffu8; 64];
    assert_eq!(decode_socket(encode_socket(zero, &mut tx3)), Some(zero));
}

#[test]
fn found_peer_round_trips_ipv6() {
    let mut tx = [0u8; 64];
    let pkt = encode_socket(codec_v6(), &mut tx);
    assert_eq!(pkt.len(), 20);
    assert_eq!(pkt[1], 6);
    assert_eq!(decode_socket(pkt), Some(codec_v6()));
    let edge = SocketAddress::V6 { ip: u128::MAX, port: u16::MAX, flowinfo: 0, scope_id: 0 };
    let mut tx2 = [0u8; 64];
    assert_eq!(decode_socket(encode_socket(edge, &mut tx2)), Some(edge));
}

#[test]
fn decode_socket_rejects_what_is_no_found_peer_packet() {
    assert_eq!(decode_socket(&[]), None);
    assert_eq!(decode_socket(&[0x2]), None);
    // the waiting tag in front of an endpoint
    assert_eq!(decode_socket(&[0x2, 4, 192, 168, 1, 10, 0x1f, 0x90]), None);
    // an unknown family
    assert_eq!(decode_socket(&[0x1, 5, 192, 168, 1, 10, 0x1f, 0x90]), None);
    // one byte short, one byte long
    assert_eq!(decode_socket(&[0x1, 4, 192, 168, 1, 10, 0x1f]), None);
    assert_eq!(decode_socket(&[0x1, 4, 192, 168, 1, 10, 0x1f, 0x90, 0]), None);
    // family 6 with the length of family 4
    assert_eq!(decode_socket(&[0x1, 6, 192, 168, 1, 10, 0x1f, 0x90]), None);
    // family 4 with the length of family 6
    let mut long = [0u8; 20];
    long[0] = 1;
    long[1] = 4;
    assert_eq!(decode_socket(&long), None);
}
