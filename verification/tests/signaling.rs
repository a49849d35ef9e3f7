use signaling_server::message::ServerMessage;
use signaling_server::room::id::RoomId;
use signaling_server::room::member::{Member, MemberId};
use signaling_server::signaling::{handle_join, handle_leave, route, Dest, JoinResult};
use signaling_server::state::AppState;

fn rid(s: &str) -> RoomId {
    RoomId::new(s.to_string())
}

#[test]
fn handle_join_addresses_joined_and_roster() {
    let mut state = AppState::new();
    let result = handle_join(&mut state, rid("r"), "k", Member::new(MemberId(1), "a".to_string()));
    match result {
        JoinResult::Joined { member_id, messages } => {
            assert_eq!(member_id, MemberId(1));
            assert_eq!(messages.len(), 2);
            assert!(matches!(messages[0].0, Dest::Peer(MemberId(1))));
            assert!(matches!(messages[0].1, ServerMessage::Joined { .. }));
            assert!(matches!(&messages[1].0, Dest::Room(r) if r.as_str() == "r"));
            assert!(matches!(&messages[1].1, ServerMessage::Roster { members } if members.len() == 1));
        }
        JoinResult::Rejected { .. } => panic!("expected Joined"),
    }
    let result = handle_join(&mut state, rid("r"), "bad", Member::new(MemberId(2), "b".to_string()));
    match result {
        JoinResult::Rejected { messages } => {
            assert_eq!(messages.len(), 1);
            assert!(matches!(messages[0].0, Dest::Myself));
            assert!(matches!(&messages[0].1, ServerMessage::Error { message } if message == "Room auth failed"));
        }
        JoinResult::Joined { .. } => panic!("expected Rejected"),
    }
}

#[test]
fn handle_leave_of_a_stranger_is_an_error() {
    let mut state = AppState::new();
    handle_join(&mut state, rid("r"), "k", Member::new(MemberId(1), "a".to_string()));
    let messages = handle_leave(&mut state, &rid("r"), MemberId(2));
    assert_eq!(messages.len(), 1);
    assert!(matches!(messages[0].0, Dest::Myself));
    assert!(matches!(&messages[0].1, ServerMessage::Error { message } if message == "Member not in room"));
    assert!(handle_leave(&mut state, &rid("missing"), MemberId(1)).is_empty());
    let messages = handle_leave(&mut state, &rid("r"), MemberId(1));
    assert!(matches!(&messages[0].0, Dest::Room(r) if r.as_str() == "r"));
    assert!(state.room(&rid("r")).is_none());
}

#[test]
fn route_resolves_each_destination() {
    let mut state = AppState::new();
    handle_join(&mut state, rid("r"), "k", Member::new(MemberId(1), "a".to_string()));
    handle_join(&mut state, rid("r"), "k", Member::new(MemberId(2), "b".to_string()));
    let messages = vec![
        (Dest::Myself, ServerMessage::Error { message: "e".to_string() }),
        (Dest::Peer(MemberId(7)), ServerMessage::MemberLeft { member_id: MemberId(3) }),
        (Dest::Room(rid("r")), ServerMessage::MemberLeft { member_id: MemberId(4) }),
        (Dest::Room(rid("none")), ServerMessage::MemberLeft { member_id: MemberId(5) }),
    ];
    let mut out = Vec::new();
    route(&state, MemberId(9), &messages, &mut out);
    let to: Vec<u128> = out.iter().map(|o| o.0 .0).collect();
    assert_eq!(to, vec![9, 7, 1, 2]);
}
