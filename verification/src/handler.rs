use vstd::prelude::*;

use crate::message::{ClientMessage, ServerMessage, ServerMessageView, Signal};
use crate::room::id::RoomId;
use crate::room::member::{Member, MemberId};
use crate::room::result::RoomError;
use crate::room::{has_member, outgoing_view, Outgoing, RoomView};
use crate::signaling::{
    handle_join, handle_leave, join_outcome, join_rooms, leave_outcome, leave_rooms, route,
    route_all, JoinResult, JoinResultView,
};
use crate::state::AppState;

verus! {

/// One client connection: the member it speaks for, and the room it is in.
#[derive(Debug)]
pub struct Connection {
    pub member: Member,
    pub room_id: Option<RoomId>,
}

impl Connection {
    /// A connection that is in no room yet.
    pub fn new(member: Member) -> (c: Connection)
        ensures
            c.member == member,
            c.room_id is None,
    {
        Connection { member, room_id: None }
    }

    /// Whether the connection is in a room.
    pub fn has_joined(&self) -> (b: bool)
        ensures
            b == self.room_id is Some,
    {
        self.room_id.is_some()
    }

    /// Whether the connection is in the room `room_id`.
    pub fn is_joined_room(&self, room_id: &RoomId) -> (b: bool)
        ensures
            b == (self.room_id is Some && self.room_id.unwrap()@ == room_id@),
    {
        match &self.room_id {
            Some(current) => current.same_as(room_id),
            None => false,
        }
    }
}

/// The server after one request of one connection: its rooms, the
/// connection, and the messages sent, each with the member it goes to.
pub struct Step {
    pub rooms: Map<Seq<char>, RoomView>,
    pub connection: Connection,
    pub out: Seq<(MemberId, ServerMessageView)>,
}

/// What a join outcome sends.
pub open spec fn outcome_messages(outcome: JoinResultView) -> Seq<(crate::signaling::Dest, ServerMessageView)> {
    match outcome {
        JoinResultView::Joined { messages, .. } => messages,
        JoinResultView::Rejected { messages } => messages,
    }
}

/// `Join`: refused with "Already joined a room" if the connection is in a
/// room; otherwise the connection takes `username`, asks the room, and is in
/// the room exactly when the room admitted it.
pub open spec fn join_step(
    rooms: Map<Seq<char>, RoomView>,
    connection: Connection,
    room_id: RoomId,
    auth: Seq<char>,
    username: String,
) -> Step {
    let me = connection.member.id;
    if connection.room_id is Some {
        Step {
            rooms,
            connection,
            out: seq![(me, ServerMessageView::Error { message: RoomError::JoinedTwice.text() })],
        }
    } else {
        let member = Member { id: me, username };
        let after = join_rooms(rooms, room_id, auth, member);
        let outcome = join_outcome(rooms, room_id, auth, member);
        Step {
            rooms: after,
            connection: Connection {
                member,
                room_id: if outcome is Joined {
                    Some(room_id)
                } else {
                    None
                },
            },
            out: route_all(after, me, outcome_messages(outcome)),
        }
    }
}

/// `Leave` (and a closed connection): the connection leaves its room, if it
/// is in one, and is in no room afterwards.
pub open spec fn leave_step(rooms: Map<Seq<char>, RoomView>, connection: Connection) -> Step {
    let me = connection.member.id;
    match connection.room_id {
        None => Step { rooms, connection, out: seq![] },
        Some(room_id) => {
            let after = leave_rooms(rooms, room_id@, me);
            Step {
                rooms: after,
                connection: Connection { member: connection.member, room_id: None },
                out: route_all(after, me, leave_outcome(rooms, room_id, me)),
            }
        },
    }
}

/// `Signal`: relayed to `to` if `to` is in the sender's room, else refused
/// with "Member not in room"; ignored where the sender is in no room.
pub open spec fn signal_step(
    rooms: Map<Seq<char>, RoomView>,
    connection: Connection,
    to: MemberId,
    signal: Signal,
) -> Step {
    let me = connection.member.id;
    match connection.room_id {
        Some(room_id) if rooms.contains_key(room_id@) => Step {
            rooms,
            connection,
            out: if has_member(rooms[room_id@].members, to) {
                seq![(to, ServerMessageView::Signal { from: me, signal })]
            } else {
                seq![(me, ServerMessageView::Error { message: RoomError::MemberNotExists.text() })]
            },
        },
        _ => Step { rooms, connection, out: seq![] },
    }
}

/// The server's answer to one client message.
pub open spec fn client_step(
    rooms: Map<Seq<char>, RoomView>,
    connection: Connection,
    message: ClientMessage,
) -> Step {
    match message {
        ClientMessage::Join { room_id, auth, username } => join_step(
            rooms,
            connection,
            room_id,
            auth@,
            username,
        ),
        ClientMessage::Leave => leave_step(rooms, connection),
        ClientMessage::Signal { to, signal } => signal_step(rooms, connection, to, signal),
    }
}

/// A `Join` request of `connection`, as `join_step` says.
pub fn join_room(
    state: &mut AppState,
    connection: &mut Connection,
    room_id: RoomId,
    auth: String,
    username: String,
    out: &mut Vec<Outgoing>,
)
    requires
        old(state).wf(),
    ensures
        final(state).wf(),
        ({
            let s = join_step(old(state).rooms_view(), *old(connection), room_id, auth@, username);
            &&& final(state).rooms_view() == s.rooms
            &&& *final(connection) == s.connection
            &&& outgoing_view(final(out)@) == outgoing_view(old(out)@) + s.out
        }),
{
    let me = connection.member.id;
    if connection.has_joined() {
        let ghost prev = out@;
        out.push((me, ServerMessage::Error { message: RoomError::JoinedTwice.message() }));
        assert(outgoing_view(out@) =~= outgoing_view(prev) + seq![
            (me, ServerMessageView::Error { message: RoomError::JoinedTwice.text() }),
        ]);
        return;
    }
    connection.member.username = username;
    let result = handle_join(state, room_id.duplicate(), auth.as_str(), connection.member.duplicate());
    match result {
        JoinResult::Joined { messages, .. } => {
            connection.room_id = Some(room_id);
            route(state, me, &messages, out);
        },
        JoinResult::Rejected { messages } => {
            route(state, me, &messages, out);
        },
    }
}

/// A `Leave` request of `connection`, as `leave_step` says.
pub fn leave_room(state: &mut AppState, connection: &mut Connection, out: &mut Vec<Outgoing>)
    requires
        old(state).wf(),
    ensures
        final(state).wf(),
        ({
            let s = leave_step(old(state).rooms_view(), *old(connection));
            &&& final(state).rooms_view() == s.rooms
            &&& *final(connection) == s.connection
            &&& outgoing_view(final(out)@) == outgoing_view(old(out)@) + s.out
        }),
{
    let me = connection.member.id;
    let taken = connection.room_id.take();
    match taken {
        None => {
            assert(outgoing_view(out@) =~= outgoing_view(out@) + Seq::<(MemberId, ServerMessageView)>::empty());
        },
        Some(room_id) => {
            let messages = handle_leave(state, &room_id, me);
            route(state, me, &messages, out);
        },
    }
}

/// A `Signal` request of `connection`, as `signal_step` says.
pub fn forward_signal(
    state: &AppState,
    connection: &Connection,
    to: MemberId,
    signal: Signal,
    out: &mut Vec<Outgoing>,
)
    ensures
        ({
            let s = signal_step(state.rooms_view(), *connection, to, signal);
            outgoing_view(final(out)@) == outgoing_view(old(out)@) + s.out
        }),
{
    let me = connection.member.id;
    let ghost prev = out@;
    let room = match &connection.room_id {
        Some(room_id) => state.room(room_id),
        None => None,
    };
    match room {
        Some(room) => {
            if !room.send_to(&to, ServerMessage::Signal { from: me, signal }, out) {
                let ghost mid = out@;
                out.push((me, ServerMessage::Error { message: RoomError::MemberNotExists.message() }));
                assert(outgoing_view(out@) =~= outgoing_view(mid) + seq![
                    (me, ServerMessageView::Error { message: RoomError::MemberNotExists.text() }),
                ]);
            }
        },
        None => {
            assert(outgoing_view(out@) =~= outgoing_view(prev) + Seq::<(MemberId, ServerMessageView)>::empty());
        },
    }
}

/// The server's answer to `message` from `connection`: the state and the
/// connection change as `client_step` says, and the messages it returns are
/// those `client_step` sends, each with the member it goes to.
pub fn handle_client_message(
    state: &mut AppState,
    connection: &mut Connection,
    message: ClientMessage,
) -> (out: Vec<Outgoing>)
    requires
        old(state).wf(),
    ensures
        final(state).wf(),
        ({
            let s = client_step(old(state).rooms_view(), *old(connection), message);
            &&& final(state).rooms_view() == s.rooms
            &&& *final(connection) == s.connection
            &&& outgoing_view(out@) == s.out
        }),
{
    let mut out: Vec<Outgoing> = Vec::new();
    let ghost empty = out@;
    match message {
        ClientMessage::Join { room_id, auth, username } => {
            join_room(state, connection, room_id, auth, username, &mut out);
        },
        ClientMessage::Leave => {
            leave_room(state, connection, &mut out);
        },
        ClientMessage::Signal { to, signal } => {
            forward_signal(state, connection, to, signal, &mut out);
        },
    }
    assert(outgoing_view(empty) =~= Seq::<(MemberId, ServerMessageView)>::empty());
    out
}

/// The connection closed: it leaves its room as an explicit `Leave` would.
pub fn handle_close(state: &mut AppState, connection: Connection) -> (out: Vec<Outgoing>)
    requires
        old(state).wf(),
    ensures
        final(state).wf(),
        ({
            let s = leave_step(old(state).rooms_view(), connection);
            &&& final(state).rooms_view() == s.rooms
            &&& outgoing_view(out@) == s.out
        }),
{
    let mut connection = connection;
    let mut out: Vec<Outgoing> = Vec::new();
    let ghost empty = out@;
    leave_room(state, &mut connection, &mut out);
    assert(outgoing_view(empty) =~= Seq::<(MemberId, ServerMessageView)>::empty());
    out
}

} // verus!
