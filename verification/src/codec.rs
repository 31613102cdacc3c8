//! Wire codec shared by the two UDP engines: client identities and endpoint
//! descriptors, both big-endian.

use vstd::prelude::*;

verus! {

/// Opaque 128-bit client identity, trusted as given.
pub type ClientId = u128;

/// Number of bytes a client identity takes on the wire.
pub const CLIENT_ID_LEN: usize = 16;

/// Address-family byte of an IPv4 endpoint descriptor.
pub const FAMILY_V4: u8 = 4;

/// Address-family byte of an IPv6 endpoint descriptor.
pub const FAMILY_V6: u8 = 6;

/// Length of a `FoundPeer` packet that carries an IPv4 endpoint.
pub const FOUND_PEER_V4_LEN: usize = 8;

/// Length of a `FoundPeer` packet that carries an IPv6 endpoint.
pub const FOUND_PEER_V6_LEN: usize = 20;

/// A UDP endpoint as the engines see it: the address as an integer (its octets
/// read most significant first), the port, and for IPv6 the flow label and the
/// scope, which distinguish endpoints but never travel in a packet.
#[derive(Clone, Copy, Debug, PartialEq, Eq, Hash, Structural)]
#[allow(inconsistent_fields)]
pub enum SocketAddress {
    V4 { ip: u32, port: u16 },
    V6 { ip: u128, port: u16, flowinfo: u32, scope_id: u32 },
}

impl SocketAddress {
    /// The address bits, widened to 128 bits.
    pub open spec fn ip_bits(self) -> u128 {
        match self {
            SocketAddress::V4 { ip, .. } => ip as u128,
            SocketAddress::V6 { ip, .. } => ip,
        }
    }

    /// What a packet can carry of this endpoint: family, address and port.
    pub open spec fn on_wire(self) -> SocketAddress {
        match self {
            SocketAddress::V4 { ip, port } => SocketAddress::V4 { ip, port },
            SocketAddress::V6 { ip, port, .. } => SocketAddress::V6 {
                ip,
                port,
                flowinfo: 0,
                scope_id: 0,
            },
        }
    }
}

/// A datagram that an engine wants sent: where to, and what.
#[derive(Debug, PartialEq, Eq)]
pub struct Datagram {
    pub dst: SocketAddress,
    pub payload: Vec<u8>,
}

/// A datagram as mathematics.
pub struct DatagramView {
    pub dst: SocketAddress,
    pub payload: Seq<u8>,
}

impl View for Datagram {
    type V = DatagramView;

    open spec fn view(&self) -> DatagramView {
        DatagramView { dst: self.dst, payload: self.payload@ }
    }
}

/// Leading type byte of the packets the punch coordinator sends.
#[derive(Clone, Copy, Debug, PartialEq, Eq, Structural)]
pub enum OutgoingPacketType {
    FoundPeer,
    WaitingPeer,
}

impl OutgoingPacketType {
    /// The byte that stands for this packet type.
    pub open spec fn spec_tag(self) -> u8 {
        match self {
            OutgoingPacketType::FoundPeer => 0x1,
            OutgoingPacketType::WaitingPeer => 0x2,
        }
    }

    /// The byte that stands for this packet type.
    #[verifier::when_used_as_spec(spec_tag)]
    pub fn tag(self) -> (t: u8)
        ensures
            t == self.spec_tag(),
    {
        match self {
            OutgoingPacketType::FoundPeer => 0x1,
            OutgoingPacketType::WaitingPeer => 0x2,
        }
    }
}

/// The natural number that `bytes` spell in base 256, most significant byte first.
pub open spec fn be_value(bytes: Seq<u8>) -> nat
    decreases bytes.len(),
{
    if bytes.len() == 0 {
        0
    } else {
        be_value(bytes.drop_last()) * 256 + bytes.last() as nat
    }
}

/// The `len` low base-256 digits of `value`, most significant first.
pub open spec fn be_bytes(value: nat, len: nat) -> Seq<u8>
    decreases len,
{
    if len == 0 {
        Seq::empty()
    } else {
        be_bytes(value / 256, (len - 1) as nat).push((value % 256) as u8)
    }
}

/// 256 raised to the power `n`.
pub open spec fn pow256(n: nat) -> nat
    decreases n,
{
    if n == 0 {
        1
    } else {
        256 * pow256((n - 1) as nat)
    }
}

/// `pow256` grows with its exponent.
pub proof fn lemma_pow256_monotonic(a: nat, b: nat)
    requires
        a <= b,
    ensures
        pow256(a) <= pow256(b),
    decreases b,
{
    if a < b {
        lemma_pow256_monotonic(a, (b - 1) as nat);
    }
}

/// A big-endian value of `n` bytes is below `256^n`.
pub proof fn lemma_be_value_bound(bytes: Seq<u8>)
    ensures
        be_value(bytes) < pow256(bytes.len()),
    decreases bytes.len(),
{
    if bytes.len() > 0 {
        lemma_be_value_bound(bytes.drop_last());
    }
}

/// `be_bytes` yields exactly as many bytes as it is asked for.
pub proof fn lemma_be_bytes_len(value: nat, len: nat)
    ensures
        be_bytes(value, len).len() == len,
    decreases len,
{
    if len > 0 {
        lemma_be_bytes_len(value / 256, (len - 1) as nat);
    }
}

/// Reading back the bytes of a value that fits in them gives the value.
pub proof fn lemma_be_round_trip(value: nat, len: nat)
    requires
        value < pow256(len),
    ensures
        be_value(be_bytes(value, len)) == value,
    decreases len,
{
    if len > 0 {
        let rest = be_bytes(value / 256, (len - 1) as nat);
        lemma_be_round_trip(value / 256, (len - 1) as nat);
        assert(be_bytes(value, len).drop_last() =~= rest);
    }
}

/// What `parse_client_id` returns: the first 16 bytes read as a big-endian
/// integer, or nothing when the payload is shorter than that.
pub open spec fn spec_parse_client_id(buf: Seq<u8>) -> Option<ClientId> {
    if buf.len() < 16 {
        None
    } else {
        Some(be_value(buf.subrange(0, 16)) as u128)
    }
}

/// The `WaitingPeer` packet: the type tag alone.
pub open spec fn spec_encode_waiting() -> Seq<u8> {
    seq![OutgoingPacketType::WaitingPeer.spec_tag()]
}

/// The `FoundPeer` packet for `peer`: type tag, family byte, address octets, port.
pub open spec fn spec_encode_socket(peer: SocketAddress) -> Seq<u8> {
    match peer {
        SocketAddress::V4 { ip, port } => seq![OutgoingPacketType::FoundPeer.spec_tag(), FAMILY_V4]
            + be_bytes(ip as nat, 4) + be_bytes(port as nat, 2),
        SocketAddress::V6 { ip, port, .. } => seq![
            OutgoingPacketType::FoundPeer.spec_tag(),
            FAMILY_V6,
        ] + be_bytes(ip as nat, 16) + be_bytes(port as nat, 2),
    }
}

/// The endpoint that a `FoundPeer` packet carries, where `pkt` is one.
pub open spec fn spec_decode_socket(pkt: Seq<u8>) -> Option<SocketAddress> {
    if pkt.len() == 8 && pkt[0] == OutgoingPacketType::FoundPeer.spec_tag() && pkt[1] == FAMILY_V4 {
        Some(
            SocketAddress::V4 {
                ip: be_value(pkt.subrange(2, 6)) as u32,
                port: be_value(pkt.subrange(6, 8)) as u16,
            },
        )
    } else if pkt.len() == 20 && pkt[0] == OutgoingPacketType::FoundPeer.spec_tag() && pkt[1]
        == FAMILY_V6 {
        Some(
            SocketAddress::V6 {
                ip: be_value(pkt.subrange(2, 18)) as u128,
                port: be_value(pkt.subrange(18, 20)) as u16,
                flowinfo: 0,
                scope_id: 0,
            },
        )
    } else {
        None
    }
}

/// The length of the `FoundPeer` packet for `peer`.
pub open spec fn found_peer_len(peer: SocketAddress) -> nat {
    match peer {
        SocketAddress::V4 { .. } => 8,
        SocketAddress::V6 { .. } => 20,
    }
}

/// A `FoundPeer` packet is 8 bytes with family byte 4 for an IPv4 endpoint and
/// 20 bytes with family byte 6 for an IPv6 endpoint, and decoding it gives back
/// the family, the address and the port it was made from.
pub proof fn lemma_found_peer_round_trip(peer: SocketAddress)
    ensures
        spec_encode_socket(peer).len() == found_peer_len(peer),
        spec_encode_socket(peer)[0] == 0x1,
        peer is V4 ==> spec_encode_socket(peer).len() == 8 && spec_encode_socket(peer)[1] == 4,
        peer is V6 ==> spec_encode_socket(peer).len() == 20 && spec_encode_socket(peer)[1] == 6,
        spec_decode_socket(spec_encode_socket(peer)) == Some(peer.on_wire()),
{
    let pkt = spec_encode_socket(peer);
    assert(pow256(2) == 0x1_0000 && pow256(4) == 0x1_0000_0000 && pow256(16)
        == 0x1_0000_0000_0000_0000_0000_0000_0000_0000) by {
        reveal_with_fuel(pow256, 17);
    }
    match peer {
        SocketAddress::V4 { ip, port } => {
            lemma_be_bytes_len(ip as nat, 4);
            lemma_be_bytes_len(port as nat, 2);
            lemma_be_round_trip(ip as nat, 4);
            lemma_be_round_trip(port as nat, 2);
            assert(pkt.subrange(2, 6) =~= be_bytes(ip as nat, 4));
            assert(pkt.subrange(6, 8) =~= be_bytes(port as nat, 2));
        },
        SocketAddress::V6 { ip, port, .. } => {
            lemma_be_bytes_len(ip as nat, 16);
            lemma_be_bytes_len(port as nat, 2);
            lemma_be_round_trip(ip as nat, 16);
            lemma_be_round_trip(port as nat, 2);
            assert(pkt.subrange(2, 18) =~= be_bytes(ip as nat, 16));
            assert(pkt.subrange(18, 20) =~= be_bytes(port as nat, 2));
        },
    }
}

/// Reads `len` bytes of `buf` from `start` as one big-endian integer.
fn read_be(buf: &[u8], start: usize, len: usize) -> (value: u128)
    requires
        len <= 16,
        start + len <= buf@.len(),
    ensures
        value as nat == be_value(buf@.subrange(start as int, start + len)),
        (value as nat) < pow256(len as nat),
{
    let total: usize = buf.len();
    let mut acc: u128 = 0;
    let mut i: usize = 0;
    while i < len
        invariant
            i <= len <= 16,
            start + len <= buf@.len(),
            total == buf@.len(),
            acc as nat == be_value(buf@.subrange(start as int, start + i)),
        decreases len - i,
    {
        proof {
            let head = buf@.subrange(start as int, start + i);
            let next = buf@.subrange(start as int, start + i + 1);
            assert(next.drop_last() =~= head);
            assert(next.last() == buf@[start + i]);
            lemma_be_value_bound(next);
            lemma_pow256_monotonic((i + 1) as nat, 16);
            assert(pow256(16) == 0x1_0000_0000_0000_0000_0000_0000_0000_0000) by {
                reveal_with_fuel(pow256, 17);
            }
        }
        acc = acc * 256 + buf[start + i] as u128;
        i = i + 1;
    }
    proof {
        lemma_be_value_bound(buf@.subrange(start as int, start + len));
    }
    acc
}

/// Writes the `len` low bytes of `value` into `out` from `start`, most
/// significant first, and leaves the rest of `out` as it was.
fn write_be(out: &mut [u8], start: usize, len: usize, value: u128)
    requires
        start + len <= old(out)@.len(),
    ensures
        final(out)@.len() == old(out)@.len(),
        final(out)@.subrange(start as int, start + len) == be_bytes(value as nat, len as nat),
        forall|j: int|
            0 <= j < old(out)@.len() && !(start <= j < start + len) ==> final(out)@[j] == old(out)@[j],
{
    let ghost before = out@;
    let ghost full = be_bytes(value as nat, len as nat);
    proof {
        lemma_be_bytes_len(value as nat, len as nat);
        assert(full.subrange(0, len as int) =~= full);
    }
    let total: usize = out.len();
    let mut rem: u128 = value;
    let mut i: usize = len;
    while i > 0
        invariant
            i <= len,
            start + len <= out@.len(),
            total == out@.len(),
            out@.len() == before.len(),
            full == be_bytes(value as nat, len as nat),
            full.len() == len,
            full.subrange(0, i as int) == be_bytes(rem as nat, i as nat),
            forall|j: int| i <= j < len ==> out@[start + j] == full[j],
            forall|j: int|
                0 <= j < before.len() && !(start <= j < start + len) ==> out@[j] == before[j],
        decreases i,
    {
        proof {
            lemma_be_bytes_len(rem as nat / 256, (i - 1) as nat);
            assert(full.subrange(0, i as int).drop_last() =~= full.subrange(0, i - 1));
            assert(full[i - 1] == full.subrange(0, i as int).last());
        }
        i = i - 1;
        out[start + i] = (rem % 256) as u8;
        rem = rem / 256;
    }
    assert(out@.subrange(start as int, start + len) =~= full);
}

/// Decodes a client identity from the head of a payload: its first 16 bytes,
/// read as a big-endian integer. A shorter payload is rejected.
pub fn parse_client_id(buf: &[u8]) -> (id: Option<ClientId>)
    ensures
        id == spec_parse_client_id(buf@),
        id is Some <==> buf@.len() >= 16,
{
    if buf.len() < CLIENT_ID_LEN {
        return None;
    }
    Some(read_be(buf, 0, CLIENT_ID_LEN))
}

/// Writes the `WaitingPeer` packet at the head of `out` and returns it.
pub fn encode_waiting<'a>(out: &'a mut [u8]) -> (pkt: &'a [u8])
    requires
        old(out)@.len() >= 1,
    ensures
        pkt@ == spec_encode_waiting(),
        pkt@.len() == 1 && pkt@[0] == 0x2,
        final(out)@ == old(out)@.update(0, 0x2u8),
{
    out[0] = OutgoingPacketType::WaitingPeer.tag();
    let written: &[u8] = out;
    let pkt = &written[0..1];
    assert(pkt@ =~= spec_encode_waiting());
    pkt
}

/// Writes the `FoundPeer` packet for `peer` at the head of `out` and returns it.
pub fn encode_socket<'a>(peer: SocketAddress, out: &'a mut [u8]) -> (pkt: &'a [u8])
    requires
        old(out)@.len() >= found_peer_len(peer),
    ensures
        pkt@ == spec_encode_socket(peer),
        pkt@.len() == found_peer_len(peer),
        final(out)@ == spec_encode_socket(peer) + old(out)@.skip(found_peer_len(peer) as int),
{
    out[0] = OutgoingPacketType::FoundPeer.tag();
    match peer {
        SocketAddress::V4 { ip, port } => {
            out[1] = FAMILY_V4;
            write_be(out, 2, 4, ip as u128);
            write_be(out, 6, 2, port as u128);
            let written: &[u8] = out;
            let pkt = &written[0..8];
            proof {
                lemma_be_bytes_len(ip as nat, 4);
                lemma_be_bytes_len(port as nat, 2);
                let want = spec_encode_socket(peer);
                assert(pkt@.subrange(2, 6) =~= written@.subrange(2, 6));
                assert(pkt@.subrange(6, 8) =~= written@.subrange(6, 8));
                assert forall|j: int| 0 <= j < 8 implies pkt@[j] == want[j] by {
                    if 2 <= j < 6 {
                        assert(pkt@[j] == pkt@.subrange(2, 6)[j - 2]);
                    } else if 6 <= j {
                        assert(pkt@[j] == pkt@.subrange(6, 8)[j - 6]);
                    }
                }
                assert(pkt@ =~= want);
            }
            pkt
        },
        SocketAddress::V6 { ip, port, .. } => {
            out[1] = FAMILY_V6;
            write_be(out, 2, 16, ip);
            write_be(out, 18, 2, port as u128);
            let written: &[u8] = out;
            let pkt = &written[0..20];
            proof {
                lemma_be_bytes_len(ip as nat, 16);
                lemma_be_bytes_len(port as nat, 2);
                let want = spec_encode_socket(peer);
                assert(pkt@.subrange(2, 18) =~= written@.subrange(2, 18));
                assert(pkt@.subrange(18, 20) =~= written@.subrange(18, 20));
                assert forall|j: int| 0 <= j < 20 implies pkt@[j] == want[j] by {
                    if 2 <= j < 18 {
                        assert(pkt@[j] == pkt@.subrange(2, 18)[j - 2]);
                    } else if 18 <= j {
                        assert(pkt@[j] == pkt@.subrange(18, 20)[j - 18]);
                    }
                }
                assert(pkt@ =~= want);
            }
            pkt
        },
    }
}

/// Reads the endpoint out of a `FoundPeer` packet. Anything that is not exactly
/// such a packet, of 8 bytes for IPv4 or 20 for IPv6, is rejected.
pub fn decode_socket(pkt: &[u8]) -> (peer: Option<SocketAddress>)
    ensures
        peer == spec_decode_socket(pkt@),
{
    proof {
        assert(pow256(2) == 0x1_0000 && pow256(4) == 0x1_0000_0000) by {
            reveal_with_fuel(pow256, 5);
        }
    }
    if pkt.len() == FOUND_PEER_V4_LEN && pkt[0] == OutgoingPacketType::FoundPeer.tag() && pkt[1]
        == FAMILY_V4 {
        let ip = read_be(pkt, 2, 4);
        let port = read_be(pkt, 6, 2);
        Some(SocketAddress::V4 { ip: ip as u32, port: port as u16 })
    } else if pkt.len() == FOUND_PEER_V6_LEN && pkt[0] == OutgoingPacketType::FoundPeer.tag()
        && pkt[1] == FAMILY_V6 {
        let ip = read_be(pkt, 2, 16);
        let port = read_be(pkt, 18, 2);
        Some(SocketAddress::V6 { ip, port: port as u16, flowinfo: 0, scope_id: 0 })
    } else {
        None
    }
}

} // verus!
