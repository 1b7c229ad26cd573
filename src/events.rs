use vstd::prelude::*;
use vstd::string::StringExecFns;

use crate::game::{GlobalState, join_outcome, join_sequence, lemma_join_sequence_push};

verus! {

/// A request to open a room.
pub struct CreateRoom {
    pub username: String,
}

/// The id of the room that was opened.
pub struct CreateRoomResponse {
    pub room: String,
}

/// A request to join the room `room` as `username`.
pub struct JoinRoom {
    pub room: String,
    pub username: String,
}

/// The answer to a join: the room became active, no such room, or the room
/// already has two players.
#[derive(Clone, Copy, Debug, PartialEq, Eq, Structural)]
pub enum JoinRoomResponse {
    Success,
    NotFound,
    Full,
}

/// The id of the room that the connection `socket_id` opens.
pub open spec fn room_of(socket_id: Seq<char>) -> Seq<char> {
    "room-"@ + socket_id
}

pub fn room_name(socket_id: &str) -> (r: String)
    ensures
        r@ == room_of(socket_id@),
{
    let prefix = String::from_str("room-");
    proof {
        reveal_strlit("room-");
    }
    prefix.concat(socket_id)
}

/// Opens a room for the requesting player, under an id that no room holds:
/// the id of connection `socket_id` when it is free, else a longer one made
/// from it.
pub fn on_create_room(state: &mut GlobalState, socket_id: &str, event: CreateRoom) -> (r:
    CreateRoomResponse)
    requires
        old(state).wf(),
    ensures
        final(state).wf(),
        final(state)@.valid(),
        !old(state)@.pending.contains_key(r.room@),
        !old(state)@.active.contains_key(r.room@),
        !old(state)@.pending.contains_key(room_of(socket_id@)) && !old(state)@.active.contains_key(
            room_of(socket_id@),
        ) ==> r.room@ == room_of(socket_id@),
        final(state)@.pending == old(state)@.pending.insert(r.room@, event.username@),
        final(state)@.active == old(state)@.active,
{
    let room = state.create_room(room_name(socket_id), event.username);
    CreateRoomResponse { room }
}

/// Handles a join request: one atomic step of the registry.
pub fn on_join_room(state: &mut GlobalState, event: JoinRoom) -> (r: JoinRoomResponse)
    requires
        old(state).wf(),
    ensures
        final(state).wf(),
        final(state)@.valid(),
        (final(state)@, r) == join_outcome(old(state)@, event.room@, event.username@),
{
    state.join_room(&event.room, event.username)
}

/// Handles join requests for one room in the order given, each as one atomic
/// step: the responses are those of `join_sequence`.
pub fn on_join_room_in_turn(state: &mut GlobalState, room: &String, joiners: Vec<String>) -> (r:
    Vec<JoinRoomResponse>)
    requires
        old(state).wf(),
    ensures
        final(state).wf(),
        final(state)@.valid(),
        (final(state)@, r@) == join_sequence(
            old(state)@,
            room@,
            joiners@.map_values(|j: String| j@),
        ),
{
    let ghost names = joiners@.map_values(|j: String| j@);
    let mut answers: Vec<JoinRoomResponse> = Vec::new();
    let mut i: usize = 0;
    proof {
        assert(names.take(0) =~= Seq::<Seq<char>>::empty());
    }
    while i < joiners.len()
        invariant
            state.wf(),
            i <= joiners.len(),
            names == joiners@.map_values(|j: String| j@),
            (state@, answers@) == join_sequence(old(state)@, room@, names.take(i as int)),
        decreases joiners.len() - i,
    {
        let answer = state.join_room(room, joiners[i].clone());
        proof {
            lemma_join_sequence_push(old(state)@, room@, names.take(i as int), names[i as int]);
            assert(names.take(i as int).push(names[i as int]) =~= names.take(i as int + 1));
        }
        answers.push(answer);
        i = i + 1;
    }
    proof {
        assert(names.take(i as int) =~= names);
        state.lemma_wf_valid();
    }
    answers
}

} // verus!
