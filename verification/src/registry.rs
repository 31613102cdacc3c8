//! Address registry of one UDP engine: the last endpoint each client was seen
//! at, when it was seen, and the way back from an endpoint to its client.

use crate::codec::{ClientId, SocketAddress};
use std::collections::HashMap;
use vstd::prelude::*;
use vstd::std_specs::hash::spec_keys_iter;
use vstd::std_specs::iter::IteratorSpec;

verus! {

/// A reading of the engine's monotonic clock, in nanoseconds.
pub type Timestamp = u64;

/// An endpoint that has been idle for longer than this is evicted: 60 seconds.
pub const STALE_AFTER: Timestamp = 60_000_000_000;

/// Time between two sweeps of a registry: 5 seconds.
pub const CLEANUP_EVERY: Timestamp = 5_000_000_000;

/// What a registry remembers of one client.
#[derive(Clone, Copy, Debug, PartialEq, Eq, Structural)]
pub struct UdpClientState {
    pub udp_addr: SocketAddress,
    pub last_seen: Timestamp,
}

/// What an observation did to the registry. It serves diagnostics only.
#[derive(Clone, Copy, Debug, PartialEq, Eq, Structural)]
pub enum MigrationInfo {
    /// The client was unknown and has been registered.
    Registered,
    /// The client was known at this very endpoint.
    Refreshed,
    /// The client was known at another endpoint, `from`, and has moved.
    Migrated { from: SocketAddress },
}

/// How long an endpoint last seen at `last_seen` has been idle at `now`. A
/// `last_seen` that lies after `now` counts as no idle time at all.
pub open spec fn idle_time(now: Timestamp, last_seen: Timestamp) -> nat {
    if now >= last_seen {
        (now - last_seen) as nat
    } else {
        0
    }
}

/// Whether `ep` has been idle at `now` for longer than `stale_after`.
pub open spec fn is_stale(ep: UdpClientState, now: Timestamp, stale_after: Timestamp) -> bool {
    idle_time(now, ep.last_seen) > stale_after
}

/// The registry as mathematics: the forward map from client to endpoint and the
/// reverse map from endpoint to client.
#[verifier::ext_equal]
pub struct RegistryView {
    pub forward: Map<ClientId, UdpClientState>,
    pub reverse: Map<SocketAddress, ClientId>,
}

impl RegistryView {
    /// The registry that knows nobody.
    pub open spec fn empty() -> RegistryView {
        RegistryView { forward: Map::empty(), reverse: Map::empty() }
    }

    /// Every reverse entry leads to a client that the forward map holds at that
    /// very endpoint.
    pub open spec fn consistent(self) -> bool {
        forall|addr: SocketAddress| #[trigger]
            self.reverse.contains_key(addr) ==> self.forward.contains_key(self.reverse[addr])
                && self.forward[self.reverse[addr]].udp_addr == addr
    }

    /// The two maps are each other's inverse: besides being consistent, every
    /// client is found again by the endpoint it is held at.
    pub open spec fn paired(self) -> bool {
        &&& self.consistent()
        &&& forall|id: ClientId| #[trigger]
            self.forward.contains_key(id) ==> self.reverse.contains_key(
                self.forward[id].udp_addr,
            ) && self.reverse[self.forward[id].udp_addr] == id
    }

    /// What observing `client_id` at `addr` reports.
    pub open spec fn observation(self, client_id: ClientId, addr: SocketAddress) -> MigrationInfo {
        if !self.forward.contains_key(client_id) {
            MigrationInfo::Registered
        } else if self.forward[client_id].udp_addr != addr {
            MigrationInfo::Migrated { from: self.forward[client_id].udp_addr }
        } else {
            MigrationInfo::Refreshed
        }
    }

    /// The registry after `client_id` was observed at `addr` at time `now`. The
    /// forward entry is set in every case. The reverse map gains `addr` for a new
    /// client, trades the old endpoint for `addr` on a migration, and is left
    /// alone otherwise.
    pub open spec fn observe(
        self,
        client_id: ClientId,
        addr: SocketAddress,
        now: Timestamp,
    ) -> RegistryView {
        RegistryView {
            forward: self.forward.insert(
                client_id,
                UdpClientState { udp_addr: addr, last_seen: now },
            ),
            reverse: match self.observation(client_id, addr) {
                MigrationInfo::Registered => self.reverse.insert(addr, client_id),
                MigrationInfo::Migrated { from } => self.reverse.remove(from).insert(
                    addr,
                    client_id,
                ),
                MigrationInfo::Refreshed => self.reverse,
            },
        }
    }

    /// The registry after the `last_seen` of `client_id`, if known, was set to `now`.
    pub open spec fn touch(self, client_id: ClientId, now: Timestamp) -> RegistryView {
        if self.forward.contains_key(client_id) {
            RegistryView {
                forward: self.forward.insert(
                    client_id,
                    UdpClientState { udp_addr: self.forward[client_id].udp_addr, last_seen: now },
                ),
                reverse: self.reverse,
            }
        } else {
            self
        }
    }

    /// The endpoints at which the clients in `ids` are held.
    pub open spec fn addrs_of(self, ids: Set<ClientId>) -> Set<SocketAddress> {
        Set::new(
            |addr: SocketAddress|
                exists|id: ClientId|
                    ids.contains(id) && self.forward.contains_key(id)
                        && #[trigger] self.forward[id].udp_addr == addr,
        )
    }

    /// The registry without the clients in `ids`: their forward entries are gone,
    /// and so is whatever the reverse map held at their endpoints.
    pub open spec fn evict(self, ids: Set<ClientId>) -> RegistryView {
        RegistryView {
            forward: self.forward.remove_keys(ids),
            reverse: self.reverse.remove_keys(self.addrs_of(ids)),
        }
    }

    /// The clients whose endpoints are stale at `now`.
    pub open spec fn stale_ids(self, now: Timestamp, stale_after: Timestamp) -> Set<ClientId> {
        Set::new(
            |id: ClientId|
                self.forward.contains_key(id) && is_stale(self.forward[id], now, stale_after),
        )
    }

    /// The registry after a sweep at `now`: every stale client is evicted.
    pub open spec fn sweep(self, now: Timestamp, stale_after: Timestamp) -> RegistryView {
        self.evict(self.stale_ids(now, stale_after))
    }
}

/// Evicting one more client removes its forward entry and the reverse entry at
/// its endpoint.
proof fn lemma_evict_one(view: RegistryView, ids: Set<ClientId>, id: ClientId)
    requires
        view.forward.contains_key(id),
    ensures
        view.evict(ids.insert(id)) == (RegistryView {
            forward: view.evict(ids).forward.remove(id),
            reverse: view.evict(ids).reverse.remove(view.forward[id].udp_addr),
        }),
{
    let more = ids.insert(id);
    let addr = view.forward[id].udp_addr;
    assert(view.forward.remove_keys(more) =~= view.forward.remove_keys(ids).remove(id));
    assert forall|a: SocketAddress|
        view.addrs_of(more).contains(a) <==> (view.addrs_of(ids).contains(a) || a == addr) by {
        if view.addrs_of(more).contains(a) {
            let w = choose|w: ClientId|
                more.contains(w) && view.forward.contains_key(w)
                    && #[trigger] view.forward[w].udp_addr == a;
            if w != id {
                assert(ids.contains(w));
            }
        }
        if view.addrs_of(ids).contains(a) {
            let w = choose|w: ClientId|
                ids.contains(w) && view.forward.contains_key(w)
                    && #[trigger] view.forward[w].udp_addr == a;
            assert(more.contains(w));
        }
        if a == addr {
            assert(more.contains(id) && view.forward[id].udp_addr == a);
        }
    }
    assert(view.reverse.remove_keys(view.addrs_of(more)) =~= view.reverse.remove_keys(
        view.addrs_of(ids),
    ).remove(addr));
}

/// What a sequence holds once one more item has been pushed.
proof fn lemma_push_contains(s: Seq<ClientId>, last: ClientId)
    ensures
        forall|x: ClientId| #[trigger] s.push(last).contains(x) <==> s.contains(x) || x == last,
{
    assert forall|x: ClientId| #[trigger] s.push(last).contains(x) <==> s.contains(x) || x
        == last by {
        if s.push(last).contains(x) {
            let k = choose|k: int| 0 <= k < s.push(last).len() && s.push(last)[k] == x;
            if k < s.len() {
                assert(s[k] == x);
            }
        }
        if s.contains(x) {
            let k = choose|k: int| 0 <= k < s.len() && s[k] == x;
            assert(s.push(last)[k] == x);
        }
        if x == last {
            assert(s.push(last)[s.len() as int] == x);
        }
    }
}

/// Evicting nobody changes nothing.
proof fn lemma_evict_none(view: RegistryView)
    ensures
        view.evict(Set::empty()) == view,
{
    assert(view.forward.remove_keys(Set::empty()) =~= view.forward);
    assert(view.reverse.remove_keys(view.addrs_of(Set::empty())) =~= view.reverse);
}

/// An observation keeps a consistent registry consistent.
pub proof fn lemma_observe_keeps_consistent(
    view: RegistryView,
    client_id: ClientId,
    addr: SocketAddress,
    now: Timestamp,
)
    requires
        view.consistent(),
    ensures
        view.observe(client_id, addr, now).consistent(),
{
    let next = view.observe(client_id, addr, now);
    assert forall|a: SocketAddress| #[trigger] next.reverse.contains_key(a) implies (
    next.forward.contains_key(next.reverse[a]) && next.forward[next.reverse[a]].udp_addr == a) by {
        if a != addr || view.observation(client_id, addr) is Refreshed {
            assert(view.reverse.contains_key(a));
        }
    }
}

/// A refresh keeps a consistent registry consistent.
pub proof fn lemma_touch_keeps_consistent(view: RegistryView, client_id: ClientId, now: Timestamp)
    requires
        view.consistent(),
    ensures
        view.touch(client_id, now).consistent(),
{
    let next = view.touch(client_id, now);
    assert forall|a: SocketAddress| #[trigger] next.reverse.contains_key(a) implies (
    next.forward.contains_key(next.reverse[a]) && next.forward[next.reverse[a]].udp_addr == a) by {
        assert(view.reverse.contains_key(a));
    }
}

/// An eviction keeps a consistent registry consistent.
pub proof fn lemma_evict_keeps_consistent(view: RegistryView, ids: Set<ClientId>)
    requires
        view.consistent(),
    ensures
        view.evict(ids).consistent(),
{
    let next = view.evict(ids);
    assert forall|a: SocketAddress| #[trigger] next.reverse.contains_key(a) implies (
    next.forward.contains_key(next.reverse[a]) && next.forward[next.reverse[a]].udp_addr == a) by {
        assert(view.reverse.contains_key(a));
        let owner = view.reverse[a];
        if ids.contains(owner) {
            assert(view.forward[owner].udp_addr == a);
            assert(view.addrs_of(ids).contains(a));
        }
    }
}

/// Once a known client has been observed at an endpoint other than the one it
/// was held at, the reverse map leads from the new endpoint to the client and
/// holds nothing at the old one, and the forward map holds the new endpoint.
pub proof fn lemma_migration_repoints(
    view: RegistryView,
    client_id: ClientId,
    addr: SocketAddress,
    now: Timestamp,
)
    requires
        view.forward.contains_key(client_id),
        view.forward[client_id].udp_addr != addr,
    ensures
        view.observe(client_id, addr, now).reverse.get(addr) == Some(client_id),
        view.observe(client_id, addr, now).reverse.get(view.forward[client_id].udp_addr)
            == None::<ClientId>,
        view.observe(client_id, addr, now).forward.get(client_id) == Some(
            UdpClientState { udp_addr: addr, last_seen: now },
        ),
{
}

/// A sweep removes exactly the stale clients and leaves every other client as
/// it was. The reverse entry of a client that stays is left as it was too,
/// unless a stale client is held at the same endpoint: a sweep clears whatever
/// the reverse map holds at the endpoint of a client it removes.
pub proof fn lemma_sweep_removes_exactly_stale(
    view: RegistryView,
    now: Timestamp,
    stale_after: Timestamp,
)
    ensures
        forall|id: ClientId|
            view.forward.contains_key(id) && is_stale(view.forward[id], now, stale_after)
                ==> !#[trigger] view.sweep(now, stale_after).forward.contains_key(id),
        forall|id: ClientId|
            view.forward.contains_key(id) && !is_stale(view.forward[id], now, stale_after)
                ==> #[trigger] view.sweep(now, stale_after).forward.contains_key(id)
                && view.sweep(now, stale_after).forward[id] == view.forward[id],
        forall|id: ClientId| #[trigger]
            view.sweep(now, stale_after).forward.contains_key(id) ==> view.forward.contains_key(
                id,
            ),
        forall|addr: SocketAddress| #[trigger]
            view.sweep(now, stale_after).reverse.contains_key(addr) ==> view.reverse.contains_key(
                addr,
            ) && view.sweep(now, stale_after).reverse[addr] == view.reverse[addr],
        forall|addr: SocketAddress|
            view.reverse.contains_key(addr) && !view.addrs_of(
                view.stale_ids(now, stale_after),
            ).contains(addr) ==> #[trigger] view.sweep(now, stale_after).reverse.contains_key(addr),
{
}

/// In a consistent registry in which no stale client shares its endpoint with
/// a reverse entry of a client that is not stale, a sweep leaves the reverse
/// entries of the clients that stay untouched and removes those of the others.
pub proof fn lemma_sweep_keeps_fresh_pairs(
    view: RegistryView,
    now: Timestamp,
    stale_after: Timestamp,
)
    requires
        view.consistent(),
        forall|id: ClientId|
            #![trigger view.forward[id]]
            view.forward.contains_key(id) && is_stale(view.forward[id], now, stale_after)
                && view.reverse.contains_key(view.forward[id].udp_addr) ==> is_stale(
                view.forward[view.reverse[view.forward[id].udp_addr]],
                now,
                stale_after,
            ),
    ensures
        forall|addr: SocketAddress|
            #![trigger view.reverse[addr]]
            view.reverse.contains_key(addr) ==> (view.sweep(now, stale_after).reverse.contains_key(
                addr,
            ) <==> !is_stale(view.forward[view.reverse[addr]], now, stale_after)),
        forall|addr: SocketAddress| #[trigger]
            view.sweep(now, stale_after).reverse.contains_key(addr) ==> view.sweep(
                now,
                stale_after,
            ).reverse[addr] == view.reverse[addr],
{
    let stale = view.stale_ids(now, stale_after);
    let next = view.sweep(now, stale_after);
    assert forall|addr: SocketAddress|
        #![trigger view.reverse[addr]]
        view.reverse.contains_key(addr) implies (next.reverse.contains_key(addr) <==> !is_stale(
        view.forward[view.reverse[addr]],
        now,
        stale_after,
    )) by {
        let owner = view.reverse[addr];
        assert(view.forward.contains_key(owner) && view.forward[owner].udp_addr == addr);
        if is_stale(view.forward[owner], now, stale_after) {
            assert(stale.contains(owner));
            assert(view.addrs_of(stale).contains(addr));
        } else if view.addrs_of(stale).contains(addr) {
            let w = choose|w: ClientId|
                stale.contains(w) && view.forward.contains_key(w)
                    && #[trigger] view.forward[w].udp_addr == addr;
            assert(is_stale(view.forward[view.reverse[view.forward[w].udp_addr]], now, stale_after));
        }
    }
}

/// An observation keeps the two maps each other's inverse, unless it is made
/// at an endpoint that the reverse map holds for another client.
pub proof fn lemma_observe_keeps_paired(
    view: RegistryView,
    client_id: ClientId,
    addr: SocketAddress,
    now: Timestamp,
)
    requires
        view.paired(),
        view.reverse.contains_key(addr) ==> view.reverse[addr] == client_id,
    ensures
        view.observe(client_id, addr, now).paired(),
{
    lemma_observe_keeps_consistent(view, client_id, addr, now);
    let next = view.observe(client_id, addr, now);
    assert forall|id: ClientId| #[trigger] next.forward.contains_key(id) implies (
    next.reverse.contains_key(next.forward[id].udp_addr) && next.reverse[next.forward[id].udp_addr]
        == id) by {
        if id != client_id {
            assert(view.forward.contains_key(id));
            assert(view.reverse.contains_key(view.forward[id].udp_addr));
        } else if view.forward.contains_key(client_id) {
            assert(view.reverse.contains_key(view.forward[client_id].udp_addr));
        }
    }
}

/// A sweep keeps the two maps each other's inverse. Every client that stays
/// keeps both its entries as they were, and every client that goes loses both.
pub proof fn lemma_sweep_keeps_paired(view: RegistryView, now: Timestamp, stale_after: Timestamp)
    requires
        view.paired(),
    ensures
        view.sweep(now, stale_after).paired(),
        forall|id: ClientId|
            #![trigger view.forward[id]]
            view.forward.contains_key(id) && !is_stale(view.forward[id], now, stale_after) ==> {
                &&& view.sweep(now, stale_after).forward.get(id) == Some(view.forward[id])
                &&& view.sweep(now, stale_after).reverse.get(view.forward[id].udp_addr) == Some(
                    id,
                )
            },
        forall|id: ClientId|
            #![trigger view.forward[id]]
            view.forward.contains_key(id) && is_stale(view.forward[id], now, stale_after) ==> {
                &&& view.sweep(now, stale_after).forward.get(id) == None::<UdpClientState>
                &&& view.sweep(now, stale_after).reverse.get(view.forward[id].udp_addr)
                    == None::<ClientId>
            },
{
    let stale = view.stale_ids(now, stale_after);
    let next = view.sweep(now, stale_after);
    lemma_evict_keeps_consistent(view, stale);
    assert forall|id: ClientId|
        #![trigger view.forward[id]]
        view.forward.contains_key(id) && !is_stale(
            view.forward[id],
            now,
            stale_after,
        ) implies next.reverse.get(view.forward[id].udp_addr) == Some(id) by {
        let addr = view.forward[id].udp_addr;
        assert(view.reverse.contains_key(addr));
        if view.addrs_of(stale).contains(addr) {
            let w = choose|w: ClientId|
                stale.contains(w) && view.forward.contains_key(w)
                    && #[trigger] view.forward[w].udp_addr == addr;
            assert(view.reverse[view.forward[w].udp_addr] == w);
        }
    }
    assert forall|id: ClientId|
        #![trigger view.forward[id]]
        view.forward.contains_key(id) && is_stale(
            view.forward[id],
            now,
            stale_after,
        ) implies next.reverse.get(view.forward[id].udp_addr) == None::<ClientId> by {
        assert(stale.contains(id));
        assert(view.addrs_of(stale).contains(view.forward[id].udp_addr));
    }
    assert forall|id: ClientId| #[trigger] next.forward.contains_key(id) implies (
    next.reverse.contains_key(next.forward[id].udp_addr) && next.reverse[next.forward[id].udp_addr]
        == id) by {
        assert(view.forward.contains_key(id) && !is_stale(view.forward[id], now, stale_after));
        assert(next.forward[id] == view.forward[id]);
    }
}

/// Where the two maps are each other's inverse and one is finite, they hold
/// equally many entries.
pub proof fn lemma_paired_maps_have_one_size(view: RegistryView)
    requires
        view.paired(),
        view.forward.dom().finite(),
    ensures
        view.reverse.dom().finite(),
        view.reverse.len() == view.forward.len(),
{
    let held_at = |id: ClientId| view.forward[id].udp_addr;
    assert forall|a: SocketAddress|
        view.forward.dom().map(held_at).contains(a) <==> view.reverse.dom().contains(a) by {
        if view.reverse.dom().contains(a) {
            assert(view.reverse.contains_key(a));
            let owner = view.reverse[a];
            assert(view.forward.dom().contains(owner) && held_at(owner) == a);
        }
        if view.forward.dom().map(held_at).contains(a) {
            let owner = choose|id: ClientId| view.forward.dom().contains(id) && a == held_at(id);
            assert(view.forward.contains_key(owner));
        }
    }
    assert(view.forward.dom().map(held_at) =~= view.reverse.dom());
    assert forall|x: ClientId, y: ClientId|
        view.forward.dom().contains(x) && view.forward.dom().contains(y) && #[trigger] held_at(x)
            == #[trigger] held_at(y) implies x == y by {
        assert(view.forward.contains_key(x) && view.forward.contains_key(y));
        assert(view.reverse[view.forward[x].udp_addr] == x);
        assert(view.reverse[view.forward[y].udp_addr] == y);
    }
    vstd::set_lib::lemma_map_size(view.forward.dom(), view.reverse.dom(), held_at);
}

/// First key of the reverse index: the address bits.
spec fn ip_key(addr: SocketAddress) -> u128 {
    addr.ip_bits()
}

/// Second key of the reverse index: everything else, packed so that the two
/// keys together determine the endpoint.
spec fn rest_key(addr: SocketAddress) -> u128 {
    match addr {
        SocketAddress::V4 { port, .. } => port as u128,
        SocketAddress::V6 { port, flowinfo, scope_id, .. } => (0x1_0000_0000_0000_0000_0000
            + flowinfo as int * 0x1_0000_0000_0000 + scope_id as int * 0x1_0000
            + port as int) as u128,
    }
}

/// Two endpoints with the same keys are the same endpoint.
proof fn lemma_keys_injective(a: SocketAddress, b: SocketAddress)
    requires
        ip_key(a) == ip_key(b),
        rest_key(a) == rest_key(b),
    ensures
        a == b,
{
}

fn ip_key_of(addr: SocketAddress) -> (key: u128)
    ensures
        key == ip_key(addr),
{
    match addr {
        SocketAddress::V4 { ip, .. } => ip as u128,
        SocketAddress::V6 { ip, .. } => ip,
    }
}

fn rest_key_of(addr: SocketAddress) -> (key: u128)
    ensures
        key == rest_key(addr),
{
    match addr {
        SocketAddress::V4 { port, .. } => port as u128,
        SocketAddress::V6 { port, flowinfo, scope_id, .. } => 0x1_0000_0000_0000_0000_0000u128
            + flowinfo as u128 * 0x1_0000_0000_0000u128 + scope_id as u128 * 0x1_0000u128
            + port as u128,
    }
}

/// The pairs of keys under which the two levels of an index hold something.
spec fn key_pairs(by_ip: Map<u128, HashMap<u128, ClientId>>) -> Set<(u128, u128)> {
    Set::new(|p: (u128, u128)| by_ip.contains_key(p.0) && by_ip[p.0]@.contains_key(p.1))
}

/// An index of finitely many first keys holds finitely many pairs of keys.
proof fn lemma_key_pairs_finite(by_ip: Map<u128, HashMap<u128, ClientId>>)
    requires
        by_ip.dom().finite(),
    ensures
        key_pairs(by_ip).finite(),
    decreases by_ip.dom().len(),
{
    if by_ip.dom().len() == 0 {
        assert(by_ip.dom() =~= Set::empty());
        assert(key_pairs(by_ip) =~= Set::empty());
    } else {
        let first = by_ip.dom().choose();
        let rest = by_ip.remove(first);
        lemma_key_pairs_finite(rest);
        let under = |second: u128| (first, second);
        let here = by_ip[first]@.dom().map(under);
        vstd::std_specs::hash::axiom_hashmap_view_finite_dom(by_ip[first]);
        by_ip[first]@.dom().lemma_map_finite(under);
        assert forall|p: (u128, u128)|
            key_pairs(by_ip).contains(p) <==> key_pairs(rest).union(here).contains(p) by {
            if key_pairs(by_ip).contains(p) && p.0 == first {
                assert(by_ip[first]@.dom().contains(p.1) && p == under(p.1));
            }
        }
        assert(key_pairs(by_ip) =~= key_pairs(rest).union(here));
    }
}

/// The way back from an endpoint to a client: a hash index in two levels, the
/// address bits first, the rest of the endpoint second.
struct AddressIndex {
    by_ip: HashMap<u128, HashMap<u128, ClientId>>,
}

impl AddressIndex {
    /// The index as one map from endpoints to clients.
    spec fn entries(&self) -> Map<SocketAddress, ClientId> {
        Map::new(
            |addr: SocketAddress|
                self.by_ip@.contains_key(ip_key(addr)) && self.by_ip@[ip_key(addr)]@.contains_key(
                    rest_key(addr),
                ),
            |addr: SocketAddress| self.by_ip@[ip_key(addr)]@[rest_key(addr)],
        )
    }

    /// The index holds finitely many endpoints.
    proof fn lemma_entries_finite(&self)
        ensures
            self.entries().dom().finite(),
    {
        vstd::std_specs::hash::axiom_hashmap_view_finite_dom(self.by_ip);
        lemma_key_pairs_finite(self.by_ip@);
        let pairs = key_pairs(self.by_ip@);
        let back = |p: (u128, u128)|
            choose|addr: SocketAddress| ip_key(addr) == p.0 && rest_key(addr) == p.1;
        pairs.lemma_map_finite(back);
        assert forall|addr: SocketAddress|
            self.entries().dom().contains(addr) implies pairs.map(back).contains(addr) by {
            let p = (ip_key(addr), rest_key(addr));
            assert(pairs.contains(p));
            lemma_keys_injective(back(p), addr);
        }
        vstd::set_lib::lemma_len_subset(self.entries().dom(), pairs.map(back));
    }

    fn new() -> (index: AddressIndex)
        ensures
            index.entries() == Map::<SocketAddress, ClientId>::empty(),
    {
        let index = AddressIndex { by_ip: HashMap::new() };
        assert(index.entries() =~= Map::<SocketAddress, ClientId>::empty());
        index
    }

    fn get(&self, addr: SocketAddress) -> (found: Option<ClientId>)
        ensures
            found == self.entries().get(addr),
    {
        broadcast use vstd::std_specs::hash::group_hash_axioms;

        let ik = ip_key_of(addr);
        let rk = rest_key_of(addr);
        match self.by_ip.get(&ik) {
            Some(inner) => match inner.get(&rk) {
                Some(id) => Some(*id),
                None => None,
            },
            None => None,
        }
    }

    fn insert(&mut self, addr: SocketAddress, client_id: ClientId)
        ensures
            final(self).entries() == old(self).entries().insert(addr, client_id),
    {
        broadcast use vstd::std_specs::hash::group_hash_axioms;

        let ik = ip_key_of(addr);
        let rk = rest_key_of(addr);
        let mut inner = match self.by_ip.remove(&ik) {
            Some(present) => present,
            None => HashMap::new(),
        };
        inner.insert(rk, client_id);
        self.by_ip.insert(ik, inner);
        proof {
            assert forall|b: SocketAddress| ip_key(b) == ik && rest_key(b) == rk implies b
                == addr by {
                lemma_keys_injective(b, addr);
            }
            assert(self.entries() =~= old(self).entries().insert(addr, client_id));
        }
    }

    fn remove(&mut self, addr: SocketAddress)
        ensures
            final(self).entries() == old(self).entries().remove(addr),
    {
        broadcast use vstd::std_specs::hash::group_hash_axioms;

        let ik = ip_key_of(addr);
        let rk = rest_key_of(addr);
        match self.by_ip.remove(&ik) {
            Some(present) => {
                let mut inner = present;
                inner.remove(&rk);
                if !inner.is_empty() {
                    self.by_ip.insert(ik, inner);
                }
            },
            None => {},
        }
        proof {
            assert forall|b: SocketAddress| ip_key(b) == ik && rest_key(b) == rk implies b
                == addr by {
                lemma_keys_injective(b, addr);
            }
            assert(self.entries() =~= old(self).entries().remove(addr));
        }
    }
}

/// The address registry of one engine.
pub struct AddressRegistry {
    clients: HashMap<ClientId, UdpClientState>,
    addr_to_client: AddressIndex,
}

impl View for AddressRegistry {
    type V = RegistryView;

    closed spec fn view(&self) -> RegistryView {
        RegistryView { forward: self.clients@, reverse: self.addr_to_client.entries() }
    }
}

impl AddressRegistry {
    /// A registry holds finitely many clients and finitely many endpoints.
    pub proof fn lemma_maps_finite(&self)
        ensures
            self@.forward.dom().finite(),
            self@.reverse.dom().finite(),
    {
        vstd::std_specs::hash::axiom_hashmap_view_finite_dom(self.clients);
        self.addr_to_client.lemma_entries_finite();
    }

    /// A registry that knows nobody.
    pub fn new() -> (registry: AddressRegistry)
        ensures
            registry@ == RegistryView::empty(),
            registry@.consistent(),
    {
        AddressRegistry { clients: HashMap::new(), addr_to_client: AddressIndex::new() }
    }

    /// Records that a packet of `client_id` came from `addr` at time `now`.
    ///
    /// An unknown client is registered in both maps. A known client keeps its
    /// entry and has it refreshed; where it came from another endpoint than
    /// before, the reverse entry at the old endpoint is removed and one at `addr`
    /// is set.
    pub fn observe(&mut self, client_id: ClientId, addr: SocketAddress, now: Timestamp) -> (info:
        MigrationInfo)
        ensures
            final(self)@ == old(self)@.observe(client_id, addr, now),
            info == old(self)@.observation(client_id, addr),
            final(self)@.forward.get(client_id) == Some(
                UdpClientState { udp_addr: addr, last_seen: now },
            ),
            info matches MigrationInfo::Migrated { from } ==> final(self)@.reverse.get(addr)
                == Some(client_id) && final(self)@.reverse.get(from) == None::<ClientId>,
            old(self)@.consistent() ==> final(self)@.consistent(),
    {
        broadcast use vstd::std_specs::hash::group_hash_axioms;

        proof {
            if old(self)@.consistent() {
                lemma_observe_keeps_consistent(old(self)@, client_id, addr, now);
            }
        }
        let known = match self.clients.get(&client_id) {
            Some(ep) => Some(*ep),
            None => None,
        };
        let info = match known {
            Some(ep) => {
                if ep.udp_addr != addr {
                    self.addr_to_client.remove(ep.udp_addr);
                    self.addr_to_client.insert(addr, client_id);
                    MigrationInfo::Migrated { from: ep.udp_addr }
                } else {
                    MigrationInfo::Refreshed
                }
            },
            None => {
                self.addr_to_client.insert(addr, client_id);
                MigrationInfo::Registered
            },
        };
        self.clients.insert(client_id, UdpClientState { udp_addr: addr, last_seen: now });
        info
    }

    /// The endpoint and last-seen time recorded for `client_id`, if any.
    pub fn lookup(&self, client_id: ClientId) -> (found: Option<UdpClientState>)
        ensures
            found == self@.forward.get(client_id),
    {
        broadcast use vstd::std_specs::hash::group_hash_axioms;

        match self.clients.get(&client_id) {
            Some(ep) => Some(*ep),
            None => None,
        }
    }

    /// The client that the reverse map holds at `addr`, if any.
    pub fn lookup_by_addr(&self, addr: SocketAddress) -> (found: Option<ClientId>)
        ensures
            found == self@.reverse.get(addr),
    {
        self.addr_to_client.get(addr)
    }

    /// Sets the last-seen time of `client_id` to `now`, where the client is
    /// known, and says whether it is.
    pub fn touch(&mut self, client_id: ClientId, now: Timestamp) -> (known: bool)
        ensures
            final(self)@ == old(self)@.touch(client_id, now),
            known == old(self)@.forward.contains_key(client_id),
            old(self)@.consistent() ==> final(self)@.consistent(),
    {
        broadcast use vstd::std_specs::hash::group_hash_axioms;

        proof {
            if old(self)@.consistent() {
                lemma_touch_keeps_consistent(old(self)@, client_id, now);
            }
        }
        let known = match self.clients.get(&client_id) {
            Some(ep) => Some(*ep),
            None => None,
        };
        match known {
            Some(ep) => {
                self.clients.insert(
                    client_id,
                    UdpClientState { udp_addr: ep.udp_addr, last_seen: now },
                );
                true
            },
            None => false,
        }
    }

    /// The clients the registry knows, each once, in no particular order.
    fn client_ids(&self) -> (ids: Vec<ClientId>)
        ensures
            ids@.no_duplicates(),
            ids@.to_set() == self@.forward.dom(),
    {
        broadcast use vstd::std_specs::hash::group_hash_axioms;

        let ghost all = spec_keys_iter(&self.clients).remaining();
        let mut ids: Vec<ClientId> = Vec::new();
        for id in it: self.clients.keys()
            invariant
                it.seq() == all,
                ids@.len() == it.index(),
                forall|j: int| 0 <= j < it.index() ==> ids@[j] == *all[j],
        {
            ids.push(*id);
        }
        assert(ids@ =~= all.unref());
        ids
    }

    /// Evicts every client whose endpoint has been idle at `now` for longer than
    /// `stale_after`, and returns the evicted clients, each once, in no
    /// particular order. With a client goes its forward entry and whatever the
    /// reverse map holds at its endpoint.
    pub fn sweep(&mut self, now: Timestamp, stale_after: Timestamp) -> (removed: Vec<ClientId>)
        ensures
            final(self)@ == old(self)@.sweep(now, stale_after),
            removed@.no_duplicates(),
            removed@.to_set() == old(self)@.stale_ids(now, stale_after),
            old(self)@.consistent() ==> final(self)@.consistent(),
            old(self)@.paired() ==> final(self)@.paired(),
    {
        broadcast use vstd::std_specs::hash::group_hash_axioms;

        let ghost before = self@;
        let ids = self.client_ids();
        let mut removed: Vec<ClientId> = Vec::new();
        proof {
            lemma_evict_none(before);
            assert(removed@.to_set() =~= Set::<ClientId>::empty());
        }
        let mut i: usize = 0;
        while i < ids.len()
            invariant
                i <= ids@.len(),
                ids@.no_duplicates(),
                ids@.to_set() == before.forward.dom(),
                self@ == before.evict(removed@.to_set()),
                removed@.no_duplicates(),
                forall|id: ClientId|
                    removed@.contains(id) <==> (exists|j: int|
                        0 <= j < i && #[trigger] ids@[j] == id && is_stale(
                            before.forward[id],
                            now,
                            stale_after,
                        )),
            decreases ids@.len() - i,
        {
            let id = ids[i];
            let ghost prev = removed@;
            proof {
                assert(ids@.contains(id));
                assert(before.forward.dom().contains(id));
                assert(!prev.contains(id));
                lemma_push_contains(prev, id);
            }
            let held = match self.clients.get(&id) {
                Some(ep) => Some(*ep),
                None => None,
            };
            match held {
                Some(ep) => {
                    let idle = if now >= ep.last_seen {
                        now - ep.last_seen
                    } else {
                        0
                    };
                    if idle > stale_after {
                        self.clients.remove(&id);
                        self.addr_to_client.remove(ep.udp_addr);
                        removed.push(id);
                        proof {
                            lemma_evict_one(before, prev.to_set(), id);
                            assert(removed@.to_set() =~= prev.to_set().insert(id));
                        }
                    }
                },
                None => {},
            }
            proof {
                assert forall|x: ClientId|
                    removed@.contains(x) <==> (exists|j: int|
                        0 <= j < i + 1 && #[trigger] ids@[j] == x && is_stale(
                            before.forward[x],
                            now,
                            stale_after,
                        )) by {
                    if removed@.contains(x) && x != id {
                        assert(prev.contains(x));
                        let j = choose|j: int|
                            0 <= j < i && #[trigger] ids@[j] == x && is_stale(
                                before.forward[x],
                                now,
                                stale_after,
                            );
                        assert(0 <= j < i + 1 && ids@[j] == x);
                    }
                    if removed@.contains(x) && x == id {
                        assert(ids@[i as int] == x);
                    }
                    if exists|j: int|
                        0 <= j < i + 1 && #[trigger] ids@[j] == x && is_stale(
                            before.forward[x],
                            now,
                            stale_after,
                        ) {
                        let j = choose|j: int|
                            0 <= j < i + 1 && #[trigger] ids@[j] == x && is_stale(
                                before.forward[x],
                                now,
                                stale_after,
                            );
                        if j < i {
                            assert(prev.contains(x));
                        } else {
                            assert(x == id);
                        }
                    }
                }
            }
            i = i + 1;
        }
        proof {
            assert(removed@.to_set() =~= before.stale_ids(now, stale_after)) by {
                assert forall|x: ClientId|
                    removed@.to_set().contains(x) <==> before.stale_ids(now, stale_after).contains(
                        x,
                    ) by {
                    if before.stale_ids(now, stale_after).contains(x) {
                        assert(ids@.to_set().contains(x));
                        let j = choose|j: int| 0 <= j < ids@.len() && ids@[j] == x;
                        assert(ids@[j] == x);
                    }
                    if removed@.contains(x) {
                        let j = choose|j: int|
                            0 <= j < i && #[trigger] ids@[j] == x && is_stale(
                                before.forward[x],
                                now,
                                stale_after,
                            );
                        assert(ids@.contains(x));
                        assert(ids@.to_set().contains(x));
                    }
                }
            }
            if before.consistent() {
                lemma_evict_keeps_consistent(before, before.stale_ids(now, stale_after));
            }
            if before.paired() {
                lemma_sweep_keeps_paired(before, now, stale_after);
            }
        }
        removed
    }
}

} // verus!
