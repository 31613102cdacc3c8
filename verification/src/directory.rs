//! Session directory: the rooms, each with a host and at most one guest, and
//! for every client the room it is in.

use crate::codec::ClientId;
use std::collections::HashMap;
use vstd::prelude::*;

verus! {

/// Identifier of a room.
pub type RoomId = u64;

/// Why a session-control operation was refused, with the reason in words.
#[derive(Clone, Copy, Debug, PartialEq, Eq)]
pub enum ApiError {
    /// The request itself is malformed.
    BadRequest(&'static str),
    /// The room or the client is not known.
    NotFound(&'static str),
    /// The room is taken, or the client is elsewhere.
    Conflict(&'static str),
    /// The directory contradicts itself.
    Internal(&'static str),
}

impl ApiError {
    /// The reason in words.
    pub fn message(&self) -> (text: &'static str)
        ensures
            text == match *self {
                ApiError::BadRequest(m) => m,
                ApiError::NotFound(m) => m,
                ApiError::Conflict(m) => m,
                ApiError::Internal(m) => m,
            },
    {
        match *self {
            ApiError::BadRequest(m) => m,
            ApiError::NotFound(m) => m,
            ApiError::Conflict(m) => m,
            ApiError::Internal(m) => m,
        }
    }
}

/// A room: its host and, once somebody has joined, its guest.
#[derive(Clone, Copy, Debug, Default, PartialEq, Eq)]
pub struct RoomState {
    pub host: ClientId,
    pub client: Option<ClientId>,
}

/// What the directory records of a client: the room it is in.
#[derive(Clone, Copy, Debug, PartialEq, Eq)]
pub struct ClientState {
    pub room: RoomId,
}

impl ClientState {
    /// The record of a client that is in `room_id`.
    pub fn new(room_id: RoomId) -> (state: ClientState)
        ensures
            state.room == room_id,
    {
        ClientState { room: room_id }
    }
}

/// One session-control operation, as a value.
pub enum DirectoryOp {
    Create { client_id: ClientId },
    Join { client_id: ClientId, room_id: RoomId },
    Leave { client_id: ClientId },
}

/// The directory as mathematics: the rooms, the clients' records, and the
/// identifier that the next room will get.
#[verifier::ext_equal]
pub struct DirectoryView {
    pub rooms: Map<RoomId, RoomState>,
    pub clients: Map<ClientId, ClientState>,
    pub next_room_id: RoomId,
}

impl DirectoryView {
    /// The directory without rooms and clients, whose first room will be room 0.
    pub open spec fn empty() -> DirectoryView {
        DirectoryView { rooms: Map::empty(), clients: Map::empty(), next_room_id: 0 }
    }

    /// Whether `client_id` is the host or the guest of `room`.
    pub open spec fn occupies(room: RoomState, client_id: ClientId) -> bool {
        room.host == client_id || room.client == Some(client_id)
    }

    /// Every client's recorded room exists and has that client as its host or
    /// its guest; no room has its host as its guest; and every room has an
    /// identifier that was already handed out. That a room has one host and at
    /// most one guest is in its type.
    pub open spec fn wf(self) -> bool {
        &&& forall|c: ClientId| #[trigger]
            self.clients.contains_key(c) ==> self.rooms.contains_key(self.clients[c].room)
                && Self::occupies(self.rooms[self.clients[c].room], c)
        &&& forall|r: RoomId| #[trigger]
            self.rooms.contains_key(r) ==> self.rooms[r].client != Some(self.rooms[r].host)
        &&& forall|r: RoomId| #[trigger] self.rooms.contains_key(r) ==> r < self.next_room_id
    }

    /// The other occupant of the room that `client_id` is recorded in: the guest
    /// for the host, the host for anybody else. There is none where the client
    /// has no record, its room does not exist, or the room has no guest.
    pub open spec fn peer_of(self, client_id: ClientId) -> Option<ClientId> {
        if !self.clients.contains_key(client_id) {
            None
        } else if !self.rooms.contains_key(self.clients[client_id].room) {
            None
        } else {
            let room = self.rooms[self.clients[client_id].room];
            match room.client {
                None => None,
                Some(guest) => Some(
                    if room.host == client_id {
                        guest
                    } else {
                        room.host
                    },
                ),
            }
        }
    }

    /// Whether an identifier is left for one more room.
    pub open spec fn has_free_room_id(self) -> bool {
        self.next_room_id < u64::MAX
    }

    /// The directory after `client_id` has created a room: the room with the
    /// next identifier exists with `client_id` as host and no guest, and the
    /// client's record leads to it. A room the client was in before stays as it is.
    pub open spec fn create(self, client_id: ClientId) -> DirectoryView {
        DirectoryView {
            rooms: self.rooms.insert(
                self.next_room_id,
                RoomState { host: client_id, client: None },
            ),
            clients: self.clients.insert(client_id, ClientState { room: self.next_room_id }),
            next_room_id: (self.next_room_id + 1) as RoomId,
        }
    }

    /// Why `client_id` cannot join `room_id`, if it cannot: it is recorded in
    /// another room, or the room does not exist, or the room has a guest, or the
    /// client is the room's host.
    pub open spec fn join_error(self, client_id: ClientId, room_id: RoomId) -> Option<ApiError> {
        if self.clients.contains_key(client_id) && self.clients[client_id].room != room_id {
            Some(ApiError::Conflict("client is already in another room"))
        } else if !self.rooms.contains_key(room_id) {
            Some(ApiError::NotFound("room not found"))
        } else if self.rooms[room_id].client is Some {
            Some(ApiError::Conflict("room is full"))
        } else if self.rooms[room_id].host == client_id {
            Some(ApiError::Conflict("client is the host of this room"))
        } else {
            None
        }
    }

    /// The directory after `client_id` has asked to join `room_id`: unchanged
    /// where that is refused, else with the client as the room's guest and the
    /// client's record leading to the room.
    pub open spec fn join(self, client_id: ClientId, room_id: RoomId) -> DirectoryView {
        if self.join_error(client_id, room_id) is Some {
            self
        } else {
            DirectoryView {
                rooms: self.rooms.insert(
                    room_id,
                    RoomState { host: self.rooms[room_id].host, client: Some(client_id) },
                ),
                clients: self.clients.insert(client_id, ClientState { room: room_id }),
                next_room_id: self.next_room_id,
            }
        }
    }

    /// Why `client_id` cannot leave, if it cannot: it has no record, or its room
    /// does not exist, or it is neither host nor guest of its room.
    pub open spec fn leave_error(self, client_id: ClientId) -> Option<ApiError> {
        if !self.clients.contains_key(client_id) {
            Some(ApiError::NotFound("client not in a room"))
        } else if !self.rooms.contains_key(self.clients[client_id].room) {
            Some(ApiError::NotFound("client's room no longer exists"))
        } else if !Self::occupies(self.rooms[self.clients[client_id].room], client_id) {
            Some(ApiError::Internal("client's cached room was incorrect"))
        } else {
            None
        }
    }

    /// The directory after `client_id` has asked to leave: unchanged where that
    /// is refused. Else the client's record is gone, and of its room: a guest
    /// that leaves frees the guest slot; a host that leaves hands the room to the
    /// guest, whose slot is freed; a host without a guest takes the room along.
    pub open spec fn leave(self, client_id: ClientId) -> DirectoryView {
        if self.leave_error(client_id) is Some {
            self
        } else {
            let room_id = self.clients[client_id].room;
            let room = self.rooms[room_id];
            DirectoryView {
                rooms: if room.client == Some(client_id) {
                    self.rooms.insert(room_id, RoomState { host: room.host, client: None })
                } else {
                    match room.client {
                        Some(guest) => self.rooms.insert(
                            room_id,
                            RoomState { host: guest, client: None },
                        ),
                        None => self.rooms.remove(room_id),
                    }
                },
                clients: self.clients.remove(client_id),
                next_room_id: self.next_room_id,
            }
        }
    }

    /// The directory after one operation. A creation for which no identifier is
    /// left changes nothing.
    pub open spec fn apply(self, op: DirectoryOp) -> DirectoryView {
        match op {
            DirectoryOp::Create { client_id } => if self.has_free_room_id() {
                self.create(client_id)
            } else {
                self
            },
            DirectoryOp::Join { client_id, room_id } => self.join(client_id, room_id),
            DirectoryOp::Leave { client_id } => self.leave(client_id),
        }
    }

    /// The directory after the operations `ops`, in their order.
    pub open spec fn run(self, ops: Seq<DirectoryOp>) -> DirectoryView
        decreases ops.len(),
    {
        if ops.len() == 0 {
            self
        } else {
            self.run(ops.drop_last()).apply(ops.last())
        }
    }
}

/// Creating a room keeps a well-formed directory well-formed.
pub proof fn lemma_create_keeps_wf(view: DirectoryView, client_id: ClientId)
    requires
        view.wf(),
        view.has_free_room_id(),
    ensures
        view.create(client_id).wf(),
{
    let next = view.create(client_id);
    assert forall|c: ClientId| #[trigger] next.clients.contains_key(c) implies (
    next.rooms.contains_key(next.clients[c].room) && DirectoryView::occupies(
        next.rooms[next.clients[c].room],
        c,
    )) by {
        if c != client_id {
            assert(view.clients.contains_key(c));
            assert(view.rooms.contains_key(view.clients[c].room));
        }
    }
    assert forall|r: RoomId| #[trigger] next.rooms.contains_key(r) implies r < next.next_room_id
        && next.rooms[r].client != Some(next.rooms[r].host) by {
        if r != view.next_room_id {
            assert(view.rooms.contains_key(r));
        }
    }
}

/// Joining a room, or being refused, keeps a well-formed directory well-formed.
pub proof fn lemma_join_keeps_wf(view: DirectoryView, client_id: ClientId, room_id: RoomId)
    requires
        view.wf(),
    ensures
        view.join(client_id, room_id).wf(),
{
    let next = view.join(client_id, room_id);
    if view.join_error(client_id, room_id) is None {
        assert forall|c: ClientId| #[trigger] next.clients.contains_key(c) implies (
        next.rooms.contains_key(next.clients[c].room) && DirectoryView::occupies(
            next.rooms[next.clients[c].room],
            c,
        )) by {
            if c != client_id {
                assert(view.clients.contains_key(c));
                assert(view.rooms.contains_key(view.clients[c].room));
            }
        }
        assert forall|r: RoomId| #[trigger] next.rooms.contains_key(r) implies r
            < next.next_room_id && next.rooms[r].client != Some(next.rooms[r].host) by {
            assert(view.rooms.contains_key(r));
        }
    }
}

/// Leaving a room, or being refused, keeps a well-formed directory well-formed.
pub proof fn lemma_leave_keeps_wf(view: DirectoryView, client_id: ClientId)
    requires
        view.wf(),
    ensures
        view.leave(client_id).wf(),
{
    let next = view.leave(client_id);
    if view.leave_error(client_id) is None {
        assert forall|c: ClientId| #[trigger] next.clients.contains_key(c) implies (
        next.rooms.contains_key(next.clients[c].room) && DirectoryView::occupies(
            next.rooms[next.clients[c].room],
            c,
        )) by {
            assert(view.clients.contains_key(c));
            assert(view.rooms.contains_key(view.clients[c].room));
        }
        assert forall|r: RoomId| #[trigger] next.rooms.contains_key(r) implies r
            < next.next_room_id && next.rooms[r].client != Some(next.rooms[r].host) by {
            assert(view.rooms.contains_key(r));
        }
    }
}

/// A leave that succeeds deletes exactly one room where a host leaves that has
/// no guest, and else none; every room but the caller's stays as it was.
pub proof fn lemma_leave_room_count(view: DirectoryView, client_id: ClientId)
    requires
        view.rooms.dom().finite(),
        view.leave_error(client_id) is None,
    ensures
        view.leave(client_id).rooms.dom().finite(),
        view.rooms[view.clients[client_id].room].client is None ==> view.leave(
            client_id,
        ).rooms.len() == view.rooms.len() - 1 && !view.leave(client_id).rooms.contains_key(
            view.clients[client_id].room,
        ),
        view.rooms[view.clients[client_id].room].client is Some ==> view.leave(
            client_id,
        ).rooms.len() == view.rooms.len(),
        forall|r: RoomId|
            r != view.clients[client_id].room ==> #[trigger] view.leave(client_id).rooms.get(r)
                == view.rooms.get(r),
{
    let room_id = view.clients[client_id].room;
    let next = view.leave(client_id);
    if view.rooms[room_id].client is None {
        assert(next.rooms.dom() =~= view.rooms.dom().remove(room_id));
    } else {
        assert(next.rooms.dom() =~= view.rooms.dom());
    }
}

/// Whatever operations are applied to the empty directory, in whatever order,
/// the directory is well-formed afterwards: every client's recorded room exists
/// and holds that client as host or guest.
pub proof fn lemma_wf_after_any_sequence(ops: Seq<DirectoryOp>)
    ensures
        DirectoryView::empty().run(ops).wf(),
    decreases ops.len(),
{
    if ops.len() > 0 {
        lemma_wf_after_any_sequence(ops.drop_last());
        let before = DirectoryView::empty().run(ops.drop_last());
        match ops.last() {
            DirectoryOp::Create { client_id } => {
                if before.has_free_room_id() {
                    lemma_create_keeps_wf(before, client_id);
                }
            },
            DirectoryOp::Join { client_id, room_id } => {
                lemma_join_keeps_wf(before, client_id, room_id);
            },
            DirectoryOp::Leave { client_id } => {
                lemma_leave_keeps_wf(before, client_id);
            },
        }
    }
}

/// In a well-formed directory a client has a peer exactly when it has a record
/// and its room has a guest, and the peer is then the other occupant, never the
/// client itself: the guest for the host, the host for the guest.
pub proof fn lemma_peer_is_other_occupant(view: DirectoryView, client_id: ClientId)
    requires
        view.wf(),
    ensures
        view.peer_of(client_id) is None <==> (!view.clients.contains_key(client_id)
            || view.rooms[view.clients[client_id].room].client is None),
        view.peer_of(client_id) matches Some(peer) ==> {
            let room = view.rooms[view.clients[client_id].room];
            &&& peer != client_id
            &&& DirectoryView::occupies(room, client_id)
            &&& DirectoryView::occupies(room, peer)
            &&& room.host == client_id ==> room.client == Some(peer)
            &&& room.host != client_id ==> room.host == peer && room.client == Some(client_id)
        },
{
    if view.clients.contains_key(client_id) {
        assert(view.rooms.contains_key(view.clients[client_id].room));
    }
}

/// The shared pairing state of the service.
pub struct AppStateInner {
    rooms: HashMap<RoomId, RoomState>,
    clients: HashMap<ClientId, ClientState>,
    next_room_id: RoomId,
}

impl View for AppStateInner {
    type V = DirectoryView;

    closed spec fn view(&self) -> DirectoryView {
        DirectoryView {
            rooms: self.rooms@,
            clients: self.clients@,
            next_room_id: self.next_room_id,
        }
    }
}

impl AppStateInner {
    /// A directory holds finitely many rooms and finitely many records.
    pub proof fn lemma_maps_finite(&self)
        ensures
            self@.rooms.dom().finite(),
            self@.clients.dom().finite(),
    {
        vstd::std_specs::hash::axiom_hashmap_view_finite_dom(self.rooms);
        vstd::std_specs::hash::axiom_hashmap_view_finite_dom(self.clients);
    }

    /// A directory without rooms and clients.
    pub fn new() -> (state: AppStateInner)
        ensures
            state@ == DirectoryView::empty(),
            state@.wf(),
    {
        AppStateInner { rooms: HashMap::new(), clients: HashMap::new(), next_room_id: 0 }
    }

    /// The other occupant of the client's room. There is none where the client
    /// is unknown, its room is unknown, or the room has no guest yet.
    pub fn get_peer(&self, client_id: ClientId) -> (peer: Option<ClientId>)
        ensures
            peer == self@.peer_of(client_id),
            peer is None <==> (!self@.clients.contains_key(client_id) || !self@.rooms.contains_key(
                self@.clients[client_id].room,
            ) || self@.rooms[self@.clients[client_id].room].client is None),
            peer matches Some(other) ==> {
                let room = self@.rooms[self@.clients[client_id].room];
                &&& room.host == client_id ==> room.client == Some(other)
                &&& room.host != client_id ==> room.host == other
                &&& self@.wf() ==> other != client_id
            },
    {
        broadcast use vstd::std_specs::hash::group_hash_axioms;

        proof {
            if self@.wf() {
                lemma_peer_is_other_occupant(self@, client_id);
            }
        }
        let room_id = match self.clients.get(&client_id) {
            Some(client) => client.room,
            None => {
                return None;
            },
        };
        let room = match self.rooms.get(&room_id) {
            Some(room) => *room,
            None => {
                return None;
            },
        };
        match room.client {
            Some(guest_id) => {
                if room.host == client_id {
                    Some(guest_id)
                } else {
                    Some(room.host)
                }
            },
            None => None,
        }
    }

    /// The room with this identifier, if there is one.
    pub fn room(&self, room_id: RoomId) -> (found: Option<RoomState>)
        ensures
            found == self@.rooms.get(room_id),
    {
        broadcast use vstd::std_specs::hash::group_hash_axioms;

        match self.rooms.get(&room_id) {
            Some(room) => Some(*room),
            None => None,
        }
    }

    /// The room that `client_id` is recorded in, if it has a record.
    pub fn room_of(&self, client_id: ClientId) -> (found: Option<RoomId>)
        ensures
            found == (match self@.clients.get(client_id) {
                Some(client) => Some(client.room),
                None => None,
            }),
    {
        broadcast use vstd::std_specs::hash::group_hash_axioms;

        match self.clients.get(&client_id) {
            Some(client) => Some(client.room),
            None => None,
        }
    }

    /// Whether an identifier is left for one more room.
    pub fn has_free_room_id(&self) -> (free: bool)
        ensures
            free == self@.has_free_room_id(),
    {
        self.next_room_id < u64::MAX
    }

    /// Creates a room with `client_id` as its host and returns its identifier.
    /// Identifiers are handed out in rising order from 0 and never again. A
    /// client that has a record already is recorded in the new room from now
    /// on; the room it was in stays as it is.
    pub fn create_room(&mut self, client_id: ClientId) -> (room_id: RoomId)
        requires
            old(self)@.has_free_room_id(),
        ensures
            room_id == old(self)@.next_room_id,
            final(self)@ == old(self)@.create(client_id),
            final(self)@.rooms.get(room_id) == Some(RoomState { host: client_id, client: None }),
            final(self)@.clients.get(client_id) == Some(ClientState { room: room_id }),
            old(self)@.wf() ==> final(self)@.wf() && !old(self)@.rooms.contains_key(room_id),
    {
        broadcast use vstd::std_specs::hash::group_hash_axioms;

        proof {
            if old(self)@.wf() {
                lemma_create_keeps_wf(old(self)@, client_id);
            }
        }
        let room_id = self.next_room_id;
        self.rooms.insert(room_id, RoomState { host: client_id, client: None });
        self.clients.insert(client_id, ClientState::new(room_id));
        self.next_room_id = room_id + 1;
        room_id
    }

    /// Makes `client_id` the guest of `room_id`.
    ///
    /// This is refused, and nothing changes, with `Conflict` where the client is
    /// recorded in another room, else with `NotFound` where the room does not
    /// exist, else with `Conflict` where the room has a guest already, whoever
    /// asks, else with `Conflict` where the client is the room's host.
    pub fn join_room(&mut self, client_id: ClientId, room_id: RoomId) -> (result: Result<
        (),
        ApiError,
    >)
        ensures
            result == (match old(self)@.join_error(client_id, room_id) {
                Some(error) => Err::<(), ApiError>(error),
                None => Ok::<(), ApiError>(()),
            }),
            final(self)@ == old(self)@.join(client_id, room_id),
            result is Err ==> final(self)@ == old(self)@,
            old(self)@.rooms.contains_key(room_id) && old(self)@.rooms[room_id].client is Some
                ==> result is Err && result->Err_0 is Conflict && final(self)@ == old(self)@,
            result is Ok ==> final(self)@.rooms.get(room_id) == Some(
                RoomState { host: old(self)@.rooms[room_id].host, client: Some(client_id) },
            ) && final(self)@.clients.get(client_id) == Some(ClientState { room: room_id })
                && old(self)@.rooms[room_id].host != client_id,
            old(self)@.wf() ==> final(self)@.wf(),
    {
        broadcast use vstd::std_specs::hash::group_hash_axioms;

        proof {
            if old(self)@.wf() {
                lemma_join_keeps_wf(old(self)@, client_id, room_id);
            }
        }
        let elsewhere = match self.clients.get(&client_id) {
            Some(client) => client.room != room_id,
            None => false,
        };
        if elsewhere {
            return Err(ApiError::Conflict("client is already in another room"));
        }
        let room = match self.rooms.get(&room_id) {
            Some(room) => *room,
            None => {
                return Err(ApiError::NotFound("room not found"));
            },
        };
        if room.client.is_some() {
            return Err(ApiError::Conflict("room is full"));
        }
        if room.host == client_id {
            return Err(ApiError::Conflict("client is the host of this room"));
        }
        self.rooms.insert(room_id, RoomState { host: room.host, client: Some(client_id) });
        self.clients.insert(client_id, ClientState::new(room_id));
        Ok(())
    }

    /// Takes `client_id` out of its room and removes its record.
    ///
    /// A guest that leaves frees the guest slot. A host that leaves hands the
    /// room to its guest, whose slot is freed; without a guest the room is
    /// deleted. This is refused, and nothing changes, with `NotFound` where the
    /// client has no record or its room does not exist, and with `Internal`
    /// where the client is neither host nor guest of its room.
    pub fn leave_room(&mut self, client_id: ClientId) -> (result: Result<(), ApiError>)
        ensures
            result == (match old(self)@.leave_error(client_id) {
                Some(error) => Err::<(), ApiError>(error),
                None => Ok::<(), ApiError>(()),
            }),
            final(self)@ == old(self)@.leave(client_id),
            result is Err ==> final(self)@ == old(self)@,
            result is Ok ==> {
                let room_id = old(self)@.clients[client_id].room;
                let room = old(self)@.rooms[room_id];
                &&& !final(self)@.clients.contains_key(client_id)
                &&& room.client == Some(client_id) ==> final(self)@.rooms.get(room_id) == Some(
                    RoomState { host: room.host, client: None },
                )
                &&& room.client is Some && room.client != Some(client_id) ==> final(self)@.rooms.get(room_id) == Some(
                    RoomState { host: room.client->Some_0, client: None },
                )
                &&& room.client is None ==> !final(self)@.rooms.contains_key(room_id)
            },
            old(self)@.wf() ==> final(self)@.wf(),
    {
        broadcast use vstd::std_specs::hash::group_hash_axioms;

        proof {
            if old(self)@.wf() {
                lemma_leave_keeps_wf(old(self)@, client_id);
            }
        }
        let cur_room = match self.clients.get(&client_id) {
            Some(client) => client.room,
            None => {
                return Err(ApiError::NotFound("client not in a room"));
            },
        };
        let room = match self.rooms.get(&cur_room) {
            Some(room) => *room,
            None => {
                return Err(ApiError::NotFound("client's room no longer exists"));
            },
        };
        let is_guest = match room.client {
            Some(guest) => guest == client_id,
            None => false,
        };
        if is_guest {
            self.rooms.insert(cur_room, RoomState { host: room.host, client: None });
        } else {
            if client_id != room.host {
                return Err(ApiError::Internal("client's cached room was incorrect"));
            }
            match room.client {
                Some(peer) => {
                    self.rooms.insert(cur_room, RoomState { host: peer, client: None });
                },
                None => {
                    self.rooms.remove(&cur_room);
                },
            }
        }
        self.clients.remove(&client_id);
        Ok(())
    }
}

} // verus!
