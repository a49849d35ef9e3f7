use signaling_server::handler::{handle_client_message, handle_close, join_room, leave_room, Connection};
use signaling_server::message::{ClientMessage, ServerMessage, Signal};
use signaling_server::room::id::RoomId;
use signaling_server::room::member::{Member, MemberId};
use signaling_server::room::Outgoing;
use signaling_server::state::AppState;

fn room_id(value: &str) -> RoomId {
    RoomId::new(value.to_string())
}

fn join_message(room_id: RoomId, auth: &str) -> ClientMessage {
    ClientMessage::Join {
        room_id,
        username: "duck".to_string(),
        auth: auth.to_string(),
    }
}

fn connection() -> Connection {
    Connection::new(Member::new(MemberId::new(), String::new()))
}

fn error_text(out: &Outgoing) -> Option<String> {
    match &out.1 {
        ServerMessage::Error { message } => Some(message.clone()),
        _ => None,
    }
}

#[test]
fn joining_a_second_room_is_rejected() {
    let mut state = AppState::new();
    let mut connection = connection();
    let me = connection.member.id;
    let first_room_id = room_id("first");
    let second_room_id = room_id("second");

    let out = handle_client_message(
        &mut state,
        &mut connection,
        join_message(first_room_id.clone(), "first-auth"),
    );
    assert_eq!(out[0].0, me);
    assert!(matches!(out[0].1, ServerMessage::Joined { .. }));

    let out = handle_client_message(
        &mut state,
        &mut connection,
        join_message(second_room_id.clone(), "second-auth"),
    );
    assert_eq!(out.len(), 1);
    assert_eq!(out[0].0, me);
    assert_eq!(error_text(&out[0]).as_deref(), Some("Already joined a room"));
    assert!(connection.is_joined_room(&first_room_id));
    assert!(state.rooms().get("second").is_none());
    assert!(state.room(&second_room_id).is_none());
}

#[test]
fn leave_allows_joining_a_new_room() {
    let mut state = AppState::new();
    let mut connection = connection();
    let me = connection.member.id;
    let first_room_id = room_id("first");
    let second_room_id = room_id("second");

    let out = handle_client_message(
        &mut state,
        &mut connection,
        join_message(first_room_id.clone(), "first-auth"),
    );
    assert!(matches!(out[0].1, ServerMessage::Joined { .. }));

    handle_client_message(&mut state, &mut connection, ClientMessage::Leave);

    let out = handle_client_message(
        &mut state,
        &mut connection,
        join_message(second_room_id.clone(), "second-auth"),
    );
    assert_eq!(out[0].0, me);
    assert!(matches!(out[0].1, ServerMessage::Joined { .. }));
    assert!(connection.is_joined_room(&second_room_id));
    assert!(!connection.is_joined_room(&first_room_id));
}

#[test]
fn joining_with_a_wrong_key_is_refused() {
    let mut state = AppState::new();
    let room_id = room_id("room");
    let mut first_connection = connection();
    let mut second_connection = connection();
    let second = second_connection.member.id;

    let out = handle_client_message(
        &mut state,
        &mut first_connection,
        join_message(room_id.clone(), "valid-auth"),
    );
    assert!(matches!(out[0].1, ServerMessage::Joined { .. }));

    let out = handle_client_message(
        &mut state,
        &mut second_connection,
        join_message(room_id, "invalid-auth"),
    );
    assert_eq!(out.len(), 1);
    assert_eq!(out[0].0, second);
    assert_eq!(error_text(&out[0]).as_deref(), Some("Room auth failed"));
    assert!(!second_connection.has_joined());
}

#[test]
fn join_answers_joined_then_roster_to_everyone() {
    let mut state = AppState::new();
    let mut alice = Connection::new(Member::new(MemberId::new(), String::new()));
    let mut bob = Connection::new(Member::new(MemberId::new(), String::new()));
    let (a, b) = (alice.member.id, bob.member.id);
    let join = |name: &str| ClientMessage::Join {
        room_id: room_id("r"),
        auth: "k".to_string(),
        username: name.to_string(),
    };

    let out = handle_client_message(&mut state, &mut alice, join("alice"));
    assert_eq!(out.len(), 2);
    match &out[0].1 {
        ServerMessage::Joined { member_id, room_id } => {
            assert_eq!(*member_id, a);
            assert_eq!(room_id.as_str(), "r");
        }
        _ => panic!("expected Joined"),
    }
    assert_eq!(out[1].0, a);

    let out = handle_client_message(&mut state, &mut bob, join("bob"));
    assert_eq!(out.len(), 3);
    assert_eq!(out[0].0, b);
    assert!(matches!(out[0].1, ServerMessage::Joined { .. }));
    assert_eq!(out[1].0, a);
    assert_eq!(out[2].0, b);
    for (_, message) in &out[1..] {
        match message {
            ServerMessage::Roster { members } => {
                assert_eq!(members.len(), 2);
                assert_eq!(members[0].member_id, a);
                assert_eq!(members[0].username, "alice");
                assert_eq!(members[1].member_id, b);
                assert_eq!(members[1].username, "bob");
            }
            _ => panic!("expected Roster"),
        }
    }
    assert_eq!(bob.member.username, "bob");
}

#[test]
fn leave_tells_those_who_stay_and_removes_empty_rooms() {
    let mut state = AppState::new();
    let mut alice = connection();
    let mut bob = connection();
    let (a, b) = (alice.member.id, bob.member.id);
    handle_client_message(&mut state, &mut alice, join_message(room_id("r"), "k"));
    handle_client_message(&mut state, &mut bob, join_message(room_id("r"), "k"));

    let out = handle_client_message(&mut state, &mut bob, ClientMessage::Leave);
    assert_eq!(out.len(), 1);
    assert_eq!(out[0].0, a);
    match &out[0].1 {
        ServerMessage::MemberLeft { member_id } => assert_eq!(*member_id, b),
        _ => panic!("expected MemberLeft"),
    }
    assert!(!bob.has_joined());
    assert!(alice.is_joined_room(&room_id("r")));
    let room = state.room(&room_id("r")).unwrap();
    assert_eq!(room.members().len(), 1);
    assert_eq!(room.members()[0].id, a);

    let out = handle_client_message(&mut state, &mut alice, ClientMessage::Leave);
    assert!(out.is_empty());
    assert!(state.room(&room_id("r")).is_none());
    assert_eq!(state.rooms().len(), 0);
}

#[test]
fn join_then_leave_leaves_the_rooms_as_they_were() {
    let mut state = AppState::new();
    let mut alice = connection();
    let mut bob = connection();
    handle_client_message(&mut state, &mut alice, join_message(room_id("r"), "k"));
    handle_client_message(&mut state, &mut bob, join_message(room_id("r"), "k"));
    handle_client_message(&mut state, &mut bob, ClientMessage::Leave);
    let room = state.room(&room_id("r")).unwrap();
    assert_eq!(room.members().len(), 1);
    assert_eq!(room.members()[0].id, alice.member.id);
    // the key set by the first member still holds
    let out = handle_client_message(&mut state, &mut bob, join_message(room_id("r"), "other"));
    assert_eq!(error_text(&out[0]).as_deref(), Some("Room auth failed"));
}

#[test]
fn leave_outside_a_room_does_nothing() {
    let mut state = AppState::new();
    let mut connection = connection();
    let out = handle_client_message(&mut state, &mut connection, ClientMessage::Leave);
    assert!(out.is_empty());
    assert_eq!(state.rooms().len(), 0);
}

#[test]
fn signal_goes_to_its_target_only() {
    let mut state = AppState::new();
    let mut alice = connection();
    let mut bob = connection();
    let (a, b) = (alice.member.id, bob.member.id);
    handle_client_message(&mut state, &mut alice, join_message(room_id("r"), "k"));
    handle_client_message(&mut state, &mut bob, join_message(room_id("r"), "k"));

    let out = handle_client_message(
        &mut state,
        &mut alice,
        ClientMessage::Signal {
            to: b,
            signal: Signal::Offer { sdp: "v=0".to_string() },
        },
    );
    assert_eq!(out.len(), 1);
    assert_eq!(out[0].0, b);
    match &out[0].1 {
        ServerMessage::Signal { from, signal: Signal::Offer { sdp } } => {
            assert_eq!(*from, a);
            assert_eq!(sdp, "v=0");
        }
        _ => panic!("expected Signal"),
    }
}

#[test]
fn signal_requires_target_in_room() {
    let mut state = AppState::new();
    let mut alice = connection();
    let mut carol = connection();
    let a = alice.member.id;
    handle_client_message(&mut state, &mut alice, join_message(room_id("r"), "k"));
    handle_client_message(&mut state, &mut carol, join_message(room_id("elsewhere"), "k"));

    let out = handle_client_message(
        &mut state,
        &mut alice,
        ClientMessage::Signal {
            to: carol.member.id,
            signal: Signal::IceCandidate { candidate: "c".to_string() },
        },
    );
    assert_eq!(out.len(), 1);
    assert_eq!(out[0].0, a);
    assert_eq!(error_text(&out[0]).as_deref(), Some("Member not in room"));
}

#[test]
fn signal_outside_a_room_is_ignored() {
    let mut state = AppState::new();
    let mut alice = connection();
    let out = handle_client_message(
        &mut state,
        &mut alice,
        ClientMessage::Signal {
            to: MemberId::new(),
            signal: Signal::Answer { sdp: "x".to_string() },
        },
    );
    assert!(out.is_empty());
}

#[test]
fn close_cleans_up_like_leave() {
    let mut state = AppState::new();
    let mut alice = connection();
    let mut bob = connection();
    let a = alice.member.id;
    handle_client_message(&mut state, &mut alice, join_message(room_id("r"), "k"));
    handle_client_message(&mut state, &mut bob, join_message(room_id("r"), "k"));
    let b = bob.member.id;

    let out = handle_close(&mut state, bob);
    assert_eq!(out.len(), 1);
    assert_eq!(out[0].0, a);
    assert!(matches!(out[0].1, ServerMessage::MemberLeft { member_id } if member_id == b));
    assert_eq!(state.room(&room_id("r")).unwrap().members().len(), 1);

    let out = handle_close(&mut state, alice);
    assert!(out.is_empty());
    assert!(state.room(&room_id("r")).is_none());
}

#[test]
fn joining_a_new_room_and_leaving_it_leaves_nothing_behind() {
    let mut state = AppState::new();
    let mut other = connection();
    handle_client_message(&mut state, &mut other, join_message(room_id("kept"), "k"));
    let mut connection = connection();
    let me = connection.member.id;

    let out = handle_client_message(&mut state, &mut connection, join_message(room_id("r"), "k"));
    assert_eq!(out.len(), 2);
    assert!(out.iter().all(|o| o.0 == me));
    assert!(matches!(&out[1].1, ServerMessage::Roster { members } if members.len() == 1 && members[0].member_id == me));

    let out = handle_client_message(&mut state, &mut connection, ClientMessage::Leave);
    assert!(out.is_empty());
    assert!(!connection.has_joined());
    assert!(state.room(&room_id("r")).is_none());
    assert_eq!(state.rooms().len(), 1);
    assert_eq!(state.room(&room_id("kept")).unwrap().members().len(), 1);
}

#[test]
fn a_second_member_needs_the_first_key() {
    let mut state = AppState::new();
    let mut first = connection();
    let mut second = connection();
    let mut third = connection();
    handle_client_message(&mut state, &mut first, join_message(room_id("r"), "a"));

    let out = handle_client_message(&mut state, &mut second, join_message(room_id("r"), "b"));
    assert_eq!(out.len(), 1);
    assert_eq!(out[0].0, second.member.id);
    assert_eq!(error_text(&out[0]).as_deref(), Some("Room auth failed"));
    assert!(!second.has_joined());

    let out = handle_client_message(&mut state, &mut third, join_message(room_id("r"), "a"));
    assert!(matches!(out[0].1, ServerMessage::Joined { .. }));
    assert!(third.is_joined_room(&room_id("r")));
}

#[test]
fn join_room_and_leave_room_directly() {
    let mut state = AppState::new();
    let mut c1 = connection();
    let mut c2 = connection();
    let mut out = Vec::new();
    join_room(&mut state, &mut c1, room_id("r"), "a".to_string(), "u1".to_string(), &mut out);
    assert_eq!(out.len(), 2);
    let mut out = Vec::new();
    join_room(&mut state, &mut c2, room_id("r"), "b".to_string(), "u2".to_string(), &mut out);
    assert_eq!(out.len(), 1);
    assert_eq!(out[0].0, c2.member.id);
    assert_eq!(error_text(&out[0]).as_deref(), Some("Room auth failed"));
    assert!(!c2.has_joined());
    let mut out = Vec::new();
    leave_room(&mut state, &mut c1, &mut out);
    assert!(out.is_empty());
    assert!(!c1.has_joined());
    assert!(state.rooms().get("r").is_none());
}
