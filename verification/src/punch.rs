//! Punch coordinator: what the hole-punch engine does with a probe and with a
//! tick of its cleanup timer. The engine's loop receives, asks here, and sends.

use crate::codec::{
    encode_socket, encode_waiting, parse_client_id, spec_encode_socket, spec_encode_waiting,
    spec_parse_client_id, ClientId, Datagram, DatagramView, SocketAddress,
};
use crate::directory::{AppStateInner, DirectoryView};
use crate::registry::{AddressRegistry, RegistryView, Timestamp, STALE_AFTER};
use vstd::prelude::*;
use vstd::slice::slice_to_vec;

verus! {

/// Size of the buffer a probe is received into.
pub const RX_BUF_SIZE: usize = 2048;

/// Size of the buffer a reply is built in.
pub const TX_BUF_SIZE: usize = 64;

/// The endpoints of the host and of the guest of the room that `client_id` is
/// recorded in, in that order. There are none unless the client has a record,
/// its room exists and has a guest, and the registry knows both occupants.
pub open spec fn paired_endpoints(
    directory: DirectoryView,
    registry: RegistryView,
    client_id: ClientId,
) -> Option<(SocketAddress, SocketAddress)> {
    if !directory.clients.contains_key(client_id) {
        None
    } else if !directory.rooms.contains_key(directory.clients[client_id].room) {
        None
    } else {
        let room = directory.rooms[directory.clients[client_id].room];
        match room.client {
            None => None,
            Some(guest) => if registry.forward.contains_key(room.host)
                && registry.forward.contains_key(guest) {
                Some((registry.forward[room.host].udp_addr, registry.forward[guest].udp_addr))
            } else {
                None
            },
        }
    }
}

/// What is sent in answer to a probe of `client_id` that came from `src`: to
/// the host the guest's endpoint and to the guest the host's, where both are
/// known, else the waiting signal back to where the probe came from.
pub open spec fn punch_replies(
    directory: DirectoryView,
    registry: RegistryView,
    client_id: ClientId,
    src: SocketAddress,
) -> Seq<DatagramView> {
    match paired_endpoints(directory, registry, client_id) {
        Some((host_addr, guest_addr)) => seq![
            DatagramView { dst: host_addr, payload: spec_encode_socket(guest_addr) },
            DatagramView { dst: guest_addr, payload: spec_encode_socket(host_addr) },
        ],
        None => seq![DatagramView { dst: src, payload: spec_encode_waiting() }],
    }
}

/// The datagrams of `replies` as mathematics.
pub open spec fn datagram_views(replies: Seq<Datagram>) -> Seq<DatagramView> {
    replies.map_values(|d: Datagram| d@)
}

/// The `FoundPeer` packet for `peer`, addressed to `dst`.
fn found_peer_datagram(dst: SocketAddress, peer: SocketAddress) -> (datagram: Datagram)
    ensures
        datagram@ == (DatagramView { dst, payload: spec_encode_socket(peer) }),
{
    let mut tx: Vec<u8> = vec![0u8; TX_BUF_SIZE];
    let pkt = encode_socket(peer, tx.as_mut_slice());
    Datagram { dst, payload: slice_to_vec(pkt) }
}

/// The `WaitingPeer` packet, addressed to `dst`.
fn waiting_datagram(dst: SocketAddress) -> (datagram: Datagram)
    ensures
        datagram@ == (DatagramView { dst, payload: spec_encode_waiting() }),
{
    let mut tx: Vec<u8> = vec![0u8; TX_BUF_SIZE];
    let pkt = encode_waiting(tx.as_mut_slice());
    Datagram { dst, payload: slice_to_vec(pkt) }
}

/// The hole-punch engine's state: its own address registry.
pub struct PunchCoordinator {
    clients: AddressRegistry,
}

impl View for PunchCoordinator {
    type V = RegistryView;

    closed spec fn view(&self) -> RegistryView {
        self.clients@
    }
}

impl PunchCoordinator {
    /// The engine's registry holds finitely many clients and finitely many
    /// endpoints.
    pub proof fn lemma_maps_finite(&self)
        ensures
            self@.forward.dom().finite(),
            self@.reverse.dom().finite(),
    {
        self.clients.lemma_maps_finite();
    }

    /// A coordinator that has seen nobody.
    pub fn new() -> (coordinator: PunchCoordinator)
        ensures
            coordinator@ == RegistryView::empty(),
            coordinator@.consistent(),
    {
        PunchCoordinator { clients: AddressRegistry::new() }
    }

    /// The engine's registry, to look things up in.
    pub fn registry(&self) -> (registry: &AddressRegistry)
        ensures
            registry@ == self@,
    {
        &self.clients
    }

    /// The endpoints of host and guest of the sender's room, where the
    /// directory pairs them and the registry knows both.
    fn resolve(&self, directory: &AppStateInner, client_id: ClientId) -> (pair: Option<
        (SocketAddress, SocketAddress),
    >)
        ensures
            pair == paired_endpoints(directory@, self@, client_id),
    {
        let room_id = match directory.room_of(client_id) {
            Some(room_id) => room_id,
            None => {
                return None;
            },
        };
        let room = match directory.room(room_id) {
            Some(room) => room,
            None => {
                return None;
            },
        };
        let guest_id = match room.client {
            Some(guest_id) => guest_id,
            None => {
                return None;
            },
        };
        let host_punch = match self.clients.lookup(room.host) {
            Some(ep) => ep,
            None => {
                return None;
            },
        };
        let guest_punch = match self.clients.lookup(guest_id) {
            Some(ep) => ep,
            None => {
                return None;
            },
        };
        Some((host_punch.udp_addr, guest_punch.udp_addr))
    }

    /// Handles one datagram that came from `src` at time `now`, and returns what
    /// is to be sent, in the order in which to send it.
    ///
    /// A payload that holds no client identity is dropped: nothing changes and
    /// nothing is sent. Else the sender is observed at `src`. Then, where the
    /// directory pairs the sender's room and this engine knows the endpoints of
    /// both occupants, the host is sent the guest's endpoint and the guest the
    /// host's; in every other case the sender is sent the waiting signal.
    pub fn handle_probe(
        &mut self,
        directory: &AppStateInner,
        payload: &[u8],
        src: SocketAddress,
        now: Timestamp,
    ) -> (replies: Vec<Datagram>)
        ensures
            match spec_parse_client_id(payload@) {
                None => final(self)@ == old(self)@ && replies@.len() == 0,
                Some(client_id) => final(self)@ == old(self)@.observe(client_id, src, now)
                    && datagram_views(replies@) == punch_replies(
                    directory@,
                    final(self)@,
                    client_id,
                    src,
                ),
            },
            old(self)@.consistent() ==> final(self)@.consistent(),
    {
        let mut replies: Vec<Datagram> = Vec::new();
        let client_id = match parse_client_id(payload) {
            Some(client_id) => client_id,
            None => {
                return replies;
            },
        };
        self.clients.observe(client_id, src, now);
        match self.resolve(directory, client_id) {
            Some((host_addr, guest_addr)) => {
                replies.push(found_peer_datagram(host_addr, guest_addr));
                replies.push(found_peer_datagram(guest_addr, host_addr));
            },
            None => {
                replies.push(waiting_datagram(src));
            },
        }
        assert(datagram_views(replies@) =~= punch_replies(directory@, self@, client_id, src));
        replies
    }

    /// Handles a tick of the cleanup timer at time `now`: evicts every client
    /// that has been idle for longer than `STALE_AFTER`, and returns the evicted
    /// clients, each once, in no particular order. Nobody is told.
    pub fn cleanup(&mut self, now: Timestamp) -> (removed: Vec<ClientId>)
        ensures
            final(self)@ == old(self)@.sweep(now, STALE_AFTER),
            removed@.no_duplicates(),
            removed@.to_set() == old(self)@.stale_ids(now, STALE_AFTER),
            old(self)@.consistent() ==> final(self)@.consistent(),
            old(self)@.paired() ==> final(self)@.paired(),
    {
        self.clients.sweep(now, STALE_AFTER)
    }
}

} // verus!
