//! Session control: the three operations as a client asks for them, with its
//! identity written out in decimal.

use crate::codec::ClientId;
use crate::directory::{ApiError, AppStateInner, ClientState, RoomId, RoomState};
use vstd::prelude::*;

verus! {

/// The answer to a room that was created.
#[derive(Clone, Copy, Debug, PartialEq, Eq)]
pub struct CreateRoomResp {
    pub room_id: RoomId,
}

/// The answer to a room that was joined: nothing but success.
#[derive(Clone, Copy, Debug, PartialEq, Eq)]
pub struct JoinRoomResp {}

/// Whether `c` is one of the ten ASCII digits.
pub open spec fn is_decimal_digit(c: char) -> bool {
    '0' as u32 <= c as u32 <= '9' as u32
}

/// The number that the decimal digits `digits` spell.
pub open spec fn decimal_value(digits: Seq<char>) -> nat
    decreases digits.len(),
{
    if digits.len() == 0 {
        0
    } else {
        decimal_value(digits.drop_last()) * 10 + (digits.last() as u32 - '0' as u32) as nat
    }
}

/// The client identity that `text` spells: an optional `+`, then one or more
/// ASCII digits and nothing else, whose value fits in 128 bits. Any other text
/// spells none.
pub open spec fn spec_parse_client_string(text: Seq<char>) -> Option<ClientId> {
    let digits = if text.len() > 0 && text[0] == '+' {
        text.skip(1)
    } else {
        text
    };
    if digits.len() > 0 && (forall|i: int| 0 <= i < digits.len() ==> is_decimal_digit(digits[i]))
        && decimal_value(digits) <= u128::MAX {
        Some(decimal_value(digits) as u128)
    } else {
        None
    }
}

/// Reads a client identity with `str::parse::<u128>` of the standard library.
///
/// Trusted, not proved: that the call accepts exactly an optional `+` followed
/// by one or more ASCII digits whose decimal value fits in 128 bits, and
/// returns that value.
#[verifier::external_body]
fn parse_client_string(text: &str) -> (id: Option<ClientId>)
    ensures
        id == spec_parse_client_string(text@),
{
    match text.parse::<u128>() {
        Ok(id) => Some(id),
        Err(_) => None,
    }
}

/// The client identity that a request gives as `text`, or `BadRequest` where
/// `text` spells none.
pub fn client_id_of(text: &str) -> (id: Result<ClientId, ApiError>)
    ensures
        id == (match spec_parse_client_string(text@) {
            Some(client_id) => Ok::<ClientId, ApiError>(client_id),
            None => Err::<ClientId, ApiError>(ApiError::BadRequest("could not parse client id")),
        }),
{
    match parse_client_string(text) {
        Some(client_id) => Ok(client_id),
        None => Err(ApiError::BadRequest("could not parse client id")),
    }
}

/// Creates a room for the client whose identity `client_id` spells, and
/// answers with the room's identifier.
///
/// Refused, with nothing changed: `BadRequest` where `client_id` spells no
/// identity; `Internal` where every room identifier has been handed out.
pub fn create_room(state: &mut AppStateInner, client_id: &str) -> (response: Result<
    CreateRoomResp,
    ApiError,
>)
    ensures
        match spec_parse_client_string(client_id@) {
            None => response == Err::<CreateRoomResp, ApiError>(
                ApiError::BadRequest("could not parse client id"),
            ) && final(state)@ == old(state)@,
            Some(id) => if old(state)@.has_free_room_id() {
                &&& response == Ok::<CreateRoomResp, ApiError>(
                    CreateRoomResp { room_id: old(state)@.next_room_id },
                )
                &&& final(state)@ == old(state)@.create(id)
                &&& final(state)@.rooms.get(old(state)@.next_room_id) == Some(
                    RoomState { host: id, client: None },
                )
                &&& final(state)@.clients.get(id) == Some(
                    ClientState { room: old(state)@.next_room_id },
                )
            } else {
                response == Err::<CreateRoomResp, ApiError>(
                    ApiError::Internal("no room identifier is left"),
                ) && final(state)@ == old(state)@
            },
        },
        old(state)@.wf() ==> final(state)@.wf(),
{
    let id = match client_id_of(client_id) {
        Ok(id) => id,
        Err(error) => {
            return Err(error);
        },
    };
    if !state.has_free_room_id() {
        return Err(ApiError::Internal("no room identifier is left"));
    }
    let room_id = state.create_room(id);
    Ok(CreateRoomResp { room_id })
}

/// Makes the client whose identity `client_id` spells the guest of `room_id`.
///
/// Refused, with nothing changed: `BadRequest` where `client_id` spells no
/// identity; else as the directory refuses it, `Conflict` for a client that is
/// in another room, `NotFound` for a room that does not exist, `Conflict` for a
/// room that has a guest, `Conflict` for the room's own host.
pub fn join_room(state: &mut AppStateInner, room_id: RoomId, client_id: &str) -> (response: Result<
    JoinRoomResp,
    ApiError,
>)
    ensures
        match spec_parse_client_string(client_id@) {
            None => response == Err::<JoinRoomResp, ApiError>(
                ApiError::BadRequest("could not parse client id"),
            ) && final(state)@ == old(state)@,
            Some(id) => final(state)@ == old(state)@.join(id, room_id) && response == (
            match old(state)@.join_error(id, room_id) {
                Some(error) => Err::<JoinRoomResp, ApiError>(error),
                None => Ok::<JoinRoomResp, ApiError>(JoinRoomResp {  }),
            }),
        },
        response is Err ==> final(state)@ == old(state)@,
        old(state)@.wf() ==> final(state)@.wf(),
{
    let id = match client_id_of(client_id) {
        Ok(id) => id,
        Err(error) => {
            return Err(error);
        },
    };
    match state.join_room(id, room_id) {
        Ok(()) => Ok(JoinRoomResp {  }),
        Err(error) => Err(error),
    }
}

/// Takes the client whose identity `client_id` spells out of its room.
///
/// Refused, with nothing changed: `BadRequest` where `client_id` spells no
/// identity; else as the directory refuses it, `NotFound` for a client without
/// a record or whose room does not exist, `Internal` for a client that is
/// neither host nor guest of its room.
pub fn leave_room(state: &mut AppStateInner, client_id: &str) -> (response: Result<(), ApiError>)
    ensures
        match spec_parse_client_string(client_id@) {
            None => response == Err::<(), ApiError>(
                ApiError::BadRequest("could not parse client id"),
            ) && final(state)@ == old(state)@,
            Some(id) => final(state)@ == old(state)@.leave(id) && response == (
            match old(state)@.leave_error(id) {
                Some(error) => Err::<(), ApiError>(error),
                None => Ok::<(), ApiError>(()),
            }),
        },
        response is Err ==> final(state)@ == old(state)@,
        old(state)@.wf() ==> final(state)@.wf(),
{
    let id = match client_id_of(client_id) {
        Ok(id) => id,
        Err(error) => {
            return Err(error);
        },
    };
    state.leave_room(id)
}

} // verus!
