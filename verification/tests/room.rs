use signaling_server::message::ServerMessage;
use signaling_server::room::member::{Member, MemberId};
use signaling_server::room::result::RoomError;
use signaling_server::room::Room;

fn member(id: u128, name: &str) -> Member {
    Member::new(MemberId(id), name.to_string())
}

#[test]
fn first_join_sets_the_key() {
    let mut room = Room::new();
    assert!(room.is_empty());
    assert!(room.join("k", member(1, "a")).is_ok());
    assert!(matches!(room.join("other", member(2, "b")), Err(RoomError::AuthFailed)));
    assert!(room.join("k", member(2, "b")).is_ok());
    assert_eq!(room.members().len(), 2);
}

#[test]
fn a_member_joins_once() {
    let mut room = Room::new();
    assert!(room.join("k", member(1, "a")).is_ok());
    assert!(matches!(room.join("k", member(1, "a")), Err(RoomError::JoinedTwice)));
    assert_eq!(room.members().len(), 1);
}

#[test]
fn leaving_undoes_joining() {
    let mut room = Room::new();
    room.join("k", member(1, "a")).unwrap();
    room.join("k", member(2, "b")).unwrap();
    room.join("k", member(3, "c")).unwrap();
    room.leave(&MemberId(2)).unwrap();
    let ids: Vec<u128> = room.members().iter().map(|m| m.id.0).collect();
    assert_eq!(ids, vec![1, 3]);
    assert!(matches!(room.leave(&MemberId(2)), Err(RoomError::MemberNotExists)));
    room.leave(&MemberId(1)).unwrap();
    room.leave(&MemberId(3)).unwrap();
    assert!(room.is_empty());
}

#[test]
fn broadcast_and_send_to() {
    let mut room = Room::new();
    room.join("k", member(1, "a")).unwrap();
    room.join("k", member(2, "b")).unwrap();
    let mut out = Vec::new();
    room.broadcast(ServerMessage::MemberLeft { member_id: MemberId(9) }, &mut out);
    assert_eq!(out.len(), 2);
    assert_eq!(out[0].0, MemberId(1));
    assert_eq!(out[1].0, MemberId(2));
    assert!(room.send_to(&MemberId(2), ServerMessage::Error { message: "x".to_string() }, &mut out));
    assert!(!room.send_to(&MemberId(7), ServerMessage::Error { message: "y".to_string() }, &mut out));
    assert_eq!(out.len(), 3);
    assert_eq!(out[2].0, MemberId(2));
}

#[test]
fn summary_lists_members_in_order() {
    let mut room = Room::new();
    room.join("k", member(5, "e")).unwrap();
    room.join("k", member(4, "d")).unwrap();
    let summary = room.summary();
    assert_eq!(summary.len(), 2);
    assert_eq!(summary[0].member_id, MemberId(5));
    assert_eq!(summary[0].username, "e");
    assert_eq!(summary[1].member_id, MemberId(4));
    assert_eq!(summary[1].username, "d");
}

#[test]
fn error_texts() {
    assert_eq!(RoomError::AuthFailed.message(), "Room auth failed");
    assert_eq!(RoomError::JoinedTwice.message(), "Already joined a room");
    assert_eq!(RoomError::MemberNotExists.message(), "Member not in room");
}

#[test]
fn member_ids_are_version_7_uuids() {
    let a = MemberId::new();
    let b = MemberId::new();
    for id in [a, b] {
        assert_eq!((id.0 >> 76) & 0xf, 7);
        assert_eq!((id.0 >> 62) & 0x3, 2);
    }
    assert_ne!(a, b);
    let d = MemberId::default();
    assert_eq!((d.0 >> 76) & 0xf, 7);
}

#[test]
fn a_room_is_empty_when_accepted_joins_equal_accepted_leaves() {
    let mut room = Room::new();
    let (mut joins, mut leaves) = (0, 0);
    let steps: Vec<(bool, u128, &str)> = vec![
        (true, 1, "k"),
        (true, 2, "k"),
        (true, 2, "k"),
        (true, 3, "bad"),
        (false, 1, ""),
        (false, 9, ""),
        (true, 4, "k"),
        (false, 2, ""),
        (false, 4, ""),
    ];
    for (is_join, id, key) in steps {
        let ok = if is_join {
            room.join(key, member(id, "m")).is_ok()
        } else {
            room.leave(&MemberId(id)).is_ok()
        };
        if ok && is_join {
            joins += 1;
        }
        if ok && !is_join {
            leaves += 1;
        }
        assert_eq!(room.is_empty(), joins == leaves);
    }
    assert_eq!((joins, leaves), (3, 3));
    assert!(room.is_empty());
}
