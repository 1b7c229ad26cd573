use faith_server::events::{on_create_room, on_join_room, on_join_room_in_turn, room_name, CreateRoom, JoinRoom, JoinRoomResponse};
use faith_server::game::{Game, GlobalState, PendingGame};

fn create(state: &mut GlobalState, socket: &str, user: &str) -> String {
    on_create_room(state, socket, CreateRoom { username: user.to_string() }).room
}

fn join(state: &mut GlobalState, room: &str, user: &str) -> JoinRoomResponse {
    on_join_room(state, JoinRoom { room: room.to_string(), username: user.to_string() })
}

#[test]
fn create_then_join_then_full() {
    let mut state = GlobalState::new();
    let room = create(&mut state, "s1", "alice");
    assert_eq!(join(&mut state, &room, "bob"), JoinRoomResponse::Success);
    assert_eq!(join(&mut state, &room, "carol"), JoinRoomResponse::Full);
}

#[test]
fn join_unknown_room_is_not_found() {
    let mut state = GlobalState::new();
    assert_eq!(join(&mut state, "nonexistent-id", "bob"), JoinRoomResponse::NotFound);
    let room = create(&mut state, "s1", "alice");
    assert_eq!(join(&mut state, "nonexistent-id", "bob"), JoinRoomResponse::NotFound);
    assert_eq!(join(&mut state, &room, "bob"), JoinRoomResponse::Success);
}

#[test]
fn many_joiners_one_wins() {
    for n in 2..8 {
        let mut state = GlobalState::new();
        let room = create(&mut state, "host", "alice");
        let answers: Vec<JoinRoomResponse> =
            (0..n).map(|i| join(&mut state, &room, &format!("p{}", i))).collect();
        assert_eq!(answers.iter().filter(|a| **a == JoinRoomResponse::Success).count(), 1);
        assert_eq!(answers.iter().filter(|a| **a == JoinRoomResponse::Full).count(), n - 1);
        assert_eq!(answers[0], JoinRoomResponse::Success);
    }
}

#[test]
fn room_name_has_prefix() {
    assert_eq!(room_name("abc"), "room-abc");
    assert_eq!(room_name(""), "room-");
}

#[test]
fn create_response_names_the_room() {
    let mut state = GlobalState::new();
    assert_eq!(create(&mut state, "xyz", "alice"), "room-xyz");
}

#[test]
fn second_room_of_one_socket_gets_fresh_id() {
    let mut state = GlobalState::new();
    let first = create(&mut state, "s1", "alice");
    let second = create(&mut state, "s1", "alice");
    assert_eq!(first, "room-s1");
    assert_eq!(second, "room-s1+");
    assert_eq!(join(&mut state, &first, "bob"), JoinRoomResponse::Success);
    assert_eq!(join(&mut state, &second, "carol"), JoinRoomResponse::Success);
    assert_eq!(join(&mut state, &first, "dave"), JoinRoomResponse::Full);
}

#[test]
fn create_after_room_active_gets_fresh_id() {
    let mut state = GlobalState::new();
    let room = create(&mut state, "s1", "alice");
    assert_eq!(join(&mut state, &room, "bob"), JoinRoomResponse::Success);
    let again = create(&mut state, "s1", "alice");
    assert_ne!(again, room);
    assert_eq!(join(&mut state, &room, "carol"), JoinRoomResponse::Full);
    assert_eq!(join(&mut state, &again, "carol"), JoinRoomResponse::Success);
}

#[test]
fn registry_direct_calls() {
    let mut state = GlobalState::new();
    assert_eq!(state.create_room("r".to_string(), "a".to_string()), "r");
    assert_eq!(state.join_room(&"r".to_string(), "b".to_string()), JoinRoomResponse::Success);
    assert_eq!(state.create_room("r".to_string(), "c".to_string()), "r+");
    assert_eq!(state.create_room("r".to_string(), "d".to_string()), "r++");
    let pending = PendingGame::new("dave".to_string());
    assert_eq!(pending.username, "dave");
    let _game = Game::new();
}

#[test]
fn joins_in_turn_one_success_rest_full() {
    let mut state = GlobalState::new();
    let room = create(&mut state, "host", "alice");
    let joiners: Vec<String> = (0..5).map(|i| format!("p{}", i)).collect();
    let answers = on_join_room_in_turn(&mut state, &room, joiners);
    assert_eq!(
        answers,
        vec![
            JoinRoomResponse::Success,
            JoinRoomResponse::Full,
            JoinRoomResponse::Full,
            JoinRoomResponse::Full,
            JoinRoomResponse::Full
        ]
    );
    let none = on_join_room_in_turn(&mut state, &"missing".to_string(), vec!["x".to_string()]);
    assert_eq!(none, vec![JoinRoomResponse::NotFound]);
}
