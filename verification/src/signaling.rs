use vstd::prelude::*;

use crate::message::{ServerMessage, ServerMessageView};
use crate::room::id::RoomId;
use crate::room::member::{Member, MemberId};
use crate::room::{fan_out, outgoing_view, summary_of, Outgoing, Room, RoomView};
use crate::state::AppState;

verus! {

/// Where a server message goes: back to the connection that made the
/// request, to one member, or to every member of a room.
#[derive(Debug, Clone)]
pub enum Dest {
    Myself,
    Peer(MemberId),
    Room(RoomId),
}

/// What a sequence of addressed messages says.
pub open spec fn addressed_view(messages: Seq<(Dest, ServerMessage)>) -> Seq<
    (Dest, ServerMessageView),
> {
    messages.map_values(|p: (Dest, ServerMessage)| (p.0, p.1@))
}

/// The outcome of a join: the member's id and what to send, or only what to
/// send.
pub enum JoinResult {
    Joined { member_id: MemberId, messages: Vec<(Dest, ServerMessage)> },
    Rejected { messages: Vec<(Dest, ServerMessage)> },
}

/// What a join outcome says.
pub enum JoinResultView {
    Joined { member_id: MemberId, messages: Seq<(Dest, ServerMessageView)> },
    Rejected { messages: Seq<(Dest, ServerMessageView)> },
}

impl View for JoinResult {
    type V = JoinResultView;

    open spec fn view(&self) -> JoinResultView {
        match self {
            JoinResult::Joined { member_id, messages } => JoinResultView::Joined {
                member_id: *member_id,
                messages: addressed_view(messages@),
            },
            JoinResult::Rejected { messages } => JoinResultView::Rejected {
                messages: addressed_view(messages@),
            },
        }
    }
}

/// The room stored under `k`, or a new empty room where there is none.
pub open spec fn room_or_empty(rooms: Map<Seq<char>, RoomView>, k: Seq<char>) -> RoomView {
    if rooms.contains_key(k) {
        rooms[k]
    } else {
        RoomView::empty()
    }
}

/// The rooms after `member` asks to join `room_id` with `auth`: the room is
/// made if it is missing, and stored back whatever the room answered.
pub open spec fn join_rooms(
    rooms: Map<Seq<char>, RoomView>,
    room_id: RoomId,
    auth: Seq<char>,
    member: Member,
) -> Map<Seq<char>, RoomView> {
    rooms.insert(room_id@, room_or_empty(rooms, room_id@).after_join(auth, member))
}

/// The answer to a join: on success `Joined` to the member and the roster of
/// the room, the newcomer included, to the whole room; else the room's
/// error, back to the requester.
pub open spec fn join_outcome(
    rooms: Map<Seq<char>, RoomView>,
    room_id: RoomId,
    auth: Seq<char>,
    member: Member,
) -> JoinResultView {
    let before = room_or_empty(rooms, room_id@);
    match before.join_result(auth, member.id) {
        Ok(_) => JoinResultView::Joined {
            member_id: member.id,
            messages: seq![
                (Dest::Peer(member.id), ServerMessageView::Joined { member_id: member.id, room_id }),
                (
                    Dest::Room(room_id),
                    ServerMessageView::Roster {
                        members: summary_of(before.after_join(auth, member).members),
                    },
                ),
            ],
        },
        Err(e) => JoinResultView::Rejected {
            messages: seq![(Dest::Myself, ServerMessageView::Error { message: e.text() })],
        },
    }
}

/// The rooms after `member_id` asks to leave `room_id`: the member is
/// removed, and the room too if it is left empty.
pub open spec fn leave_rooms(
    rooms: Map<Seq<char>, RoomView>,
    room_id: Seq<char>,
    member_id: MemberId,
) -> Map<Seq<char>, RoomView> {
    if rooms.contains_key(room_id) && rooms[room_id].leave_result(member_id) is Ok {
        let after = rooms[room_id].after_leave(member_id);
        if after.members.len() == 0 {
            rooms.remove(room_id)
        } else {
            rooms.insert(room_id, after)
        }
    } else {
        rooms
    }
}

/// The answer to a leave: `MemberLeft` to the room, or the room's error back
/// to the requester; nothing where the room does not exist.
pub open spec fn leave_outcome(
    rooms: Map<Seq<char>, RoomView>,
    room_id: RoomId,
    member_id: MemberId,
) -> Seq<(Dest, ServerMessageView)> {
    if rooms.contains_key(room_id@) {
        match rooms[room_id@].leave_result(member_id) {
            Ok(_) => seq![(Dest::Room(room_id), ServerMessageView::MemberLeft { member_id })],
            Err(e) => seq![(Dest::Myself, ServerMessageView::Error { message: e.text() })],
        }
    } else {
        seq![]
    }
}

/// The members one addressed message reaches, given the rooms; `me` is the
/// requester.
pub open spec fn route_one(
    rooms: Map<Seq<char>, RoomView>,
    me: MemberId,
    dest: Dest,
    message: ServerMessageView,
) -> Seq<(MemberId, ServerMessageView)> {
    match dest {
        Dest::Myself => seq![(me, message)],
        Dest::Peer(id) => seq![(id, message)],
        Dest::Room(room_id) => if rooms.contains_key(room_id@) {
            fan_out(rooms[room_id@].members, message)
        } else {
            seq![]
        },
    }
}

/// The members a sequence of addressed messages reaches, in order.
pub open spec fn route_all(
    rooms: Map<Seq<char>, RoomView>,
    me: MemberId,
    messages: Seq<(Dest, ServerMessageView)>,
) -> Seq<(MemberId, ServerMessageView)>
    decreases messages.len(),
{
    if messages.len() == 0 {
        seq![]
    } else {
        route_all(rooms, me, messages.drop_last()) + route_one(
            rooms,
            me,
            messages.last().0,
            messages.last().1,
        )
    }
}

/// `member` asks to join `room_id` with `auth`.
pub fn handle_join(state: &mut AppState, room_id: RoomId, auth: &str, member: Member) -> (result:
    JoinResult)
    requires
        old(state).wf(),
    ensures
        final(state).wf(),
        final(state).rooms_view() == join_rooms(old(state).rooms_view(), room_id, auth@, member),
        result@ == join_outcome(old(state).rooms_view(), room_id, auth@, member),
{
    let ghost rooms = state.rooms_view();
    let mut room = match state.room(&room_id) {
        Some(room) => room,
        None => Room::new(),
    };
    let ghost before = room@;
    let joined = room.join(auth, member.duplicate());
    let roster = room.summary();
    let member_id = member.id;
    let ghost after = room@;
    proof {
        if !rooms.contains_key(room_id@) {
            assert(!crate::room::has_member(before.members, member.id));
        }
    }
    state.put_room(room_id.duplicate(), room);
    match joined {
        Ok(()) => {
            let mut messages: Vec<(Dest, ServerMessage)> = Vec::new();
            messages.push(
                (
                    Dest::Peer(member_id),
                    ServerMessage::Joined { member_id, room_id: room_id.duplicate() },
                ),
            );
            messages.push((Dest::Room(room_id), ServerMessage::Roster { members: roster }));
            assert(addressed_view(messages@) =~= seq![
                (Dest::Peer(member_id), ServerMessageView::Joined { member_id, room_id }),
                (Dest::Room(room_id), ServerMessageView::Roster { members: summary_of(after.members) }),
            ]);
            JoinResult::Joined { member_id, messages }
        },
        Err(e) => {
            let mut messages: Vec<(Dest, ServerMessage)> = Vec::new();
            messages.push((Dest::Myself, ServerMessage::Error { message: e.message() }));
            assert(addressed_view(messages@) =~= seq![
                (Dest::Myself, ServerMessageView::Error { message: e.text() }),
            ]);
            JoinResult::Rejected { messages }
        },
    }
}

/// The member `member_id` asks to leave `room_id`.
pub fn handle_leave(state: &mut AppState, room_id: &RoomId, member_id: MemberId) -> (messages: Vec<
    (Dest, ServerMessage),
>)
    requires
        old(state).wf(),
    ensures
        final(state).wf(),
        final(state).rooms_view() == leave_rooms(old(state).rooms_view(), room_id@, member_id),
        addressed_view(messages@) == leave_outcome(old(state).rooms_view(), *room_id, member_id),
{
    let ghost rooms = state.rooms_view();
    let mut messages: Vec<(Dest, ServerMessage)> = Vec::new();
    match state.room(room_id) {
        None => {
            assert(addressed_view(messages@) =~= Seq::<(Dest, ServerMessageView)>::empty());
        },
        Some(mut room) => {
            match room.leave(&member_id) {
                Ok(()) => {
                    if room.is_empty() {
                        state.remove_room(room_id);
                    } else {
                        state.put_room(room_id.duplicate(), room);
                    }
                    messages.push(
                        (Dest::Room(room_id.duplicate()), ServerMessage::MemberLeft { member_id }),
                    );
                    assert(addressed_view(messages@) =~= seq![
                        (Dest::Room(*room_id), ServerMessageView::MemberLeft { member_id }),
                    ]);
                },
                Err(e) => {
                    messages.push((Dest::Myself, ServerMessage::Error { message: e.message() }));
                    assert(addressed_view(messages@) =~= seq![
                        (Dest::Myself, ServerMessageView::Error { message: e.text() }),
                    ]);
                },
            }
        },
    }
    messages
}

/// Delivers addressed messages: each becomes one outgoing message per member
/// it reaches, in order. `me` is the requester.
pub fn route(state: &AppState, me: MemberId, messages: &Vec<(Dest, ServerMessage)>, out: &mut Vec<Outgoing>)
    ensures
        outgoing_view(final(out)@) == outgoing_view(old(out)@) + route_all(
            state.rooms_view(),
            me,
            addressed_view(messages@),
        ),
{
    let ghost start = old(out)@;
    let ghost rooms = state.rooms_view();
    let mut i: usize = 0;
    while i < messages.len()
        invariant
            i <= messages.len(),
            rooms == state.rooms_view(),
            outgoing_view(out@) == outgoing_view(start) + route_all(
                rooms,
                me,
                addressed_view(messages@.take(i as int)),
            ),
        decreases messages.len() - i,
    {
        let ghost prev = out@;
        let dest = &messages[i].0;
        let message = messages[i].1.duplicate();
        match dest {
            Dest::Myself => {
                out.push((me, message));
                assert(outgoing_view(out@) =~= outgoing_view(prev) + route_one(rooms, me, *dest, message@));
            },
            Dest::Peer(id) => {
                out.push((*id, message));
                assert(outgoing_view(out@) =~= outgoing_view(prev) + route_one(rooms, me, *dest, message@));
            },
            Dest::Room(room_id) => {
                match state.room(room_id) {
                    Some(room) => {
                        room.broadcast(message, out);
                    },
                    None => {
                        assert(outgoing_view(out@) =~= outgoing_view(prev) + route_one(rooms, me, *dest, message@));
                    },
                }
            },
        }
        proof {
            let taken = addressed_view(messages@.take(i + 1));
            assert(addressed_view(messages@.take(i as int)) =~= taken.drop_last());
            assert(taken.last() == (*dest, message@));
            assert(outgoing_view(out@) =~= outgoing_view(start) + route_all(rooms, me, taken));
        }
        i = i + 1;
    }
    proof {
        assert(messages@.take(messages.len() as int) =~= messages@);
    }
}

} // verus!
