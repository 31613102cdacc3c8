//! Relay forwarder: the two messages of the relay protocol, and what the relay
//! engine does with a datagram and with a tick of its cleanup timer.

use crate::codec::{
    parse_client_id, spec_parse_client_id, ClientId, Datagram, DatagramView, SocketAddress,
};
use crate::directory::{AppStateInner, DirectoryView};
use crate::registry::{AddressRegistry, RegistryView, Timestamp, STALE_AFTER};
use vstd::prelude::*;
use vstd::slice::slice_to_vec;
use vstd::std_specs::convert::TryFromSpecImpl;

verus! {

/// Leading type byte of the datagrams the relay engine accepts.
#[derive(Clone, Copy, Debug, PartialEq, Eq, Structural)]
pub enum RelaySendType {
    Bind,
    Relay,
}

impl RelaySendType {
    /// The byte that stands for this message type.
    pub open spec fn spec_tag(self) -> u8 {
        match self {
            RelaySendType::Bind => 0x1,
            RelaySendType::Relay => 0x2,
        }
    }

    /// The byte that stands for this message type.
    #[verifier::when_used_as_spec(spec_tag)]
    pub fn tag(self) -> (t: u8)
        ensures
            t == self.spec_tag(),
    {
        match self {
            RelaySendType::Bind => 0x1,
            RelaySendType::Relay => 0x2,
        }
    }
}

impl TryFrom<u8> for RelaySendType {
    type Error = ();

    /// The message type that `value` stands for, if it stands for one.
    fn try_from(value: u8) -> (kind: Result<Self, Self::Error>) {
        match value {
            0x1 => Ok(RelaySendType::Bind),
            0x2 => Ok(RelaySendType::Relay),
            _ => Err(()),
        }
    }
}

impl TryFromSpecImpl<u8> for RelaySendType {
    open spec fn obeys_try_from_spec() -> bool {
        true
    }

    open spec fn try_from_spec(value: u8) -> Result<Self, ()> {
        if value == 0x1 {
            Ok(RelaySendType::Bind)
        } else if value == 0x2 {
            Ok(RelaySendType::Relay)
        } else {
            Err(())
        }
    }
}

/// A message of the relay protocol: a bind handshake with the client's
/// identity, or a datagram to be relayed, leading type byte included.
#[derive(Debug)]
pub enum RelaySend<'a> {
    Bind(ClientId),
    Relay(&'a [u8]),
}

/// A message of the relay protocol as mathematics.
pub enum RelaySendView {
    Bind(ClientId),
    Relay(Seq<u8>),
}

impl<'a> View for RelaySend<'a> {
    type V = RelaySendView;

    open spec fn view(&self) -> RelaySendView {
        match *self {
            RelaySend::Bind(client_id) => RelaySendView::Bind(client_id),
            RelaySend::Relay(datagram) => RelaySendView::Relay(datagram@),
        }
    }
}

/// The message that the datagram `buf` holds. An empty datagram holds none, nor
/// does one with an unknown type byte, nor a bind without a whole identity
/// behind its type byte.
pub open spec fn spec_parse_relay(buf: Seq<u8>) -> Option<RelaySendView> {
    if buf.len() == 0 {
        None
    } else if buf[0] == RelaySendType::Bind.spec_tag() {
        match spec_parse_client_id(buf.skip(1)) {
            Some(client_id) => Some(RelaySendView::Bind(client_id)),
            None => None,
        }
    } else if buf[0] == RelaySendType::Relay.spec_tag() {
        Some(RelaySendView::Relay(buf))
    } else {
        None
    }
}

/// The view of a parsed message, if there is one.
pub open spec fn relay_send_view(parsed: Option<RelaySend<'_>>) -> Option<RelaySendView> {
    match parsed {
        Some(message) => Some(message@),
        None => None,
    }
}

impl<'a> RelaySend<'a> {
    /// Reads the message that a received datagram holds.
    pub fn parse(buf: &'a mut [u8]) -> (parsed: Option<Self>)
        ensures
            relay_send_view(parsed) == spec_parse_relay(old(buf)@),
            final(buf)@ == old(buf)@,
    {
        let datagram: &'a [u8] = buf;
        Self::parse_datagram(datagram)
    }

    /// Reads the message that a datagram holds, without a claim on the buffer.
    pub fn parse_datagram(buf: &'a [u8]) -> (parsed: Option<Self>)
        ensures
            relay_send_view(parsed) == spec_parse_relay(buf@),
    {
        if buf.len() == 0 {
            return None;
        }
        let kind = match RelaySendType::try_from(buf[0]) {
            Ok(kind) => kind,
            Err(_) => {
                return None;
            },
        };
        match kind {
            RelaySendType::Bind => {
                let rest = &buf[1..buf.len()];
                assert(rest@ =~= buf@.skip(1));
                match parse_client_id(rest) {
                    Some(client_id) => Some(RelaySend::Bind(client_id)),
                    None => None,
                }
            },
            RelaySendType::Relay => Some(RelaySend::Relay(buf)),
        }
    }
}

/// The registry after the relay engine has handled `datagram` from `src` at
/// `now`: a bind observes its client at `src`; a relay from a bound endpoint
/// refreshes the sender; anything else changes nothing.
pub open spec fn relay_registry_after(
    registry: RegistryView,
    datagram: Seq<u8>,
    src: SocketAddress,
    now: Timestamp,
) -> RegistryView {
    match spec_parse_relay(datagram) {
        Some(RelaySendView::Bind(client_id)) => registry.observe(client_id, src, now),
        Some(RelaySendView::Relay(_)) => match registry.reverse.get(src) {
            Some(sender) => registry.touch(sender, now),
            None => registry,
        },
        None => registry,
    }
}

/// Where a relayed datagram from `src` goes: to the endpoint at which the
/// registry holds the peer that the directory pairs with the client bound to
/// `src`. It goes nowhere where `src` is not bound, the sender has no peer, or
/// the peer is not bound.
pub open spec fn relay_destination(
    directory: DirectoryView,
    registry: RegistryView,
    src: SocketAddress,
) -> Option<SocketAddress> {
    match registry.reverse.get(src) {
        None => None,
        Some(sender) => if !registry.forward.contains_key(sender) {
            None
        } else {
            match directory.peer_of(sender) {
                None => None,
                Some(peer) => match registry.forward.get(peer) {
                    None => None,
                    Some(ep) => Some(ep.udp_addr),
                },
            }
        },
    }
}

/// What the relay engine sends after `datagram` came from `src`: for a bind
/// the type byte alone, back to `src`; for a relay the whole datagram as it
/// came, to the peer's endpoint, where there is one; else nothing.
pub open spec fn relay_output(
    directory: DirectoryView,
    registry: RegistryView,
    datagram: Seq<u8>,
    src: SocketAddress,
) -> Option<DatagramView> {
    match spec_parse_relay(datagram) {
        Some(RelaySendView::Bind(_)) => Some(
            DatagramView { dst: src, payload: datagram.subrange(0, 1) },
        ),
        Some(RelaySendView::Relay(_)) => match relay_destination(directory, registry, src) {
            Some(dst) => Some(DatagramView { dst, payload: datagram }),
            None => None,
        },
        None => None,
    }
}

/// The view of a datagram to be sent, if there is one.
pub open spec fn output_view(out: Option<Datagram>) -> Option<DatagramView> {
    match out {
        Some(datagram) => Some(datagram@),
        None => None,
    }
}

/// The relay engine's state: its own address registry.
pub struct RelayForwarder {
    clients: AddressRegistry,
}

impl View for RelayForwarder {
    type V = RegistryView;

    closed spec fn view(&self) -> RegistryView {
        self.clients@
    }
}

impl RelayForwarder {
    /// The engine's registry holds finitely many clients and finitely many
    /// endpoints.
    pub proof fn lemma_maps_finite(&self)
        ensures
            self@.forward.dom().finite(),
            self@.reverse.dom().finite(),
    {
        self.clients.lemma_maps_finite();
    }

    /// A forwarder to which nobody is bound.
    pub fn new() -> (forwarder: RelayForwarder)
        ensures
            forwarder@ == RegistryView::empty(),
            forwarder@.consistent(),
    {
        RelayForwarder { clients: AddressRegistry::new() }
    }

    /// The engine's registry, to look things up in.
    pub fn registry(&self) -> (registry: &AddressRegistry)
        ensures
            registry@ == self@,
    {
        &self.clients
    }

    /// Handles one datagram that came from `src` at time `now`, and returns
    /// what is to be sent, if anything.
    ///
    /// A bind registers or updates the sender's endpoint and is acknowledged
    /// with its type byte. A relay is forwarded whole, type byte included, to
    /// the endpoint bound by the sender's peer; the sender, once found by its
    /// endpoint, is refreshed. It is dropped where the sender is not bound, has
    /// no peer, or the peer is not bound. Anything else is dropped.
    pub fn handle_datagram(
        &mut self,
        directory: &AppStateInner,
        datagram: &[u8],
        src: SocketAddress,
        now: Timestamp,
    ) -> (out: Option<Datagram>)
        ensures
            final(self)@ == relay_registry_after(old(self)@, datagram@, src, now),
            output_view(out) == relay_output(directory@, old(self)@, datagram@, src),
            old(self)@.consistent() ==> final(self)@.consistent(),
    {
        match RelaySend::parse_datagram(datagram) {
            None => None,
            Some(RelaySend::Bind(client_id)) => {
                self.clients.observe(client_id, src, now);
                let ack = &datagram[0..1];
                Some(Datagram { dst: src, payload: slice_to_vec(ack) })
            },
            Some(RelaySend::Relay(buf)) => {
                let client_id = match self.clients.lookup_by_addr(src) {
                    Some(client_id) => client_id,
                    None => {
                        return None;
                    },
                };
                if !self.clients.touch(client_id, now) {
                    return None;
                }
                let peer = match directory.get_peer(client_id) {
                    Some(peer) => peer,
                    None => {
                        return None;
                    },
                };
                let peer_ep = match self.clients.lookup(peer) {
                    Some(ep) => ep,
                    None => {
                        return None;
                    },
                };
                Some(Datagram { dst: peer_ep.udp_addr, payload: slice_to_vec(buf) })
            },
        }
    }

    /// Handles a tick of the cleanup timer at time `now`: evicts every client
    /// that has been idle for longer than `STALE_AFTER`, and returns the evicted
    /// clients, each once, in no particular order.
    pub fn cleanup(&mut self, now: Timestamp) -> (removed: Vec<ClientId>)
        ensures
            final(self)@ == old(self)@.sweep(now, STALE_AFTER),
            removed@.no_duplicates(),
            removed@.to_set() == old(self)@.stale_ids(now, STALE_AFTER),
            old(self)@.consistent() ==> final(self)@.consistent(),
            old(self)@.paired() ==> final(self)@.paired(),
    {
        self.clients.sweep(now, STALE_AFTER)
    }
}

} // verus!
