use vstd::prelude::*;

use crate::handler::{client_step, join_step, leave_step, signal_step, Connection};
use crate::message::{ClientMessage, MemberSummary, ServerMessageView, Signal};
use crate::room::id::RoomId;
use crate::room::member::{Member, MemberId};
use crate::room::result::RoomError;
use crate::room::{distinct_ids, fan_out, first_index, has_member, summary_of, RoomView};
use crate::signaling::{join_outcome, room_or_empty, route_one, Dest};
use crate::state::rooms_wf;

verus! {

/// A member is in `members.push(m)` exactly when it was in `members` or is `m`.
pub proof fn lemma_has_member_push(members: Seq<Member>, m: Member, id: MemberId)
    ensures
        has_member(members.push(m), id) == (has_member(members, id) || m.id == id),
{
    let pushed = members.push(m);
    if has_member(members, id) {
        let i = choose|i: int| 0 <= i < members.len() && #[trigger] members[i].id == id;
        assert(pushed[i].id == id);
    }
    if m.id == id {
        assert(pushed[members.len() as int].id == id);
    }
    if has_member(pushed, id) {
        let i = choose|i: int| 0 <= i < pushed.len() && #[trigger] pushed[i].id == id;
        if i < members.len() {
            assert(members[i].id == id);
        }
    }
}

/// With distinct ids, removing the entry at `idx` removes exactly its id.
pub proof fn lemma_has_member_remove(members: Seq<Member>, idx: int, id: MemberId)
    requires
        distinct_ids(members),
        0 <= idx < members.len(),
    ensures
        has_member(members.remove(idx), id) == (has_member(members, id) && members[idx].id != id),
{
    let removed = members.remove(idx);
    if has_member(removed, id) {
        let j = choose|j: int| 0 <= j < removed.len() && #[trigger] removed[j].id == id;
        let orig = if j < idx { j } else { j + 1 };
        assert(members[orig].id == id);
        assert(orig != idx);
        assert(members[idx].id != members[orig].id);
    }
    if has_member(members, id) && members[idx].id != id {
        let i = choose|i: int| 0 <= i < members.len() && #[trigger] members[i].id == id;
        let j = if i < idx { i } else { i - 1 };
        assert(removed[j].id == id);
    }
}

/// Whether the room stored under `k` has the member `id`.
pub open spec fn in_room(rooms: Map<Seq<char>, RoomView>, k: Seq<char>, id: MemberId) -> bool {
    rooms.contains_key(k) && has_member(rooms[k].members, id)
}

/// The connection's record of its room agrees with the rooms: its member is
/// in the room the connection names and in no other, or in no room at all.
pub open spec fn consistent(rooms: Map<Seq<char>, RoomView>, connection: Connection) -> bool {
    match connection.room_id {
        Some(room_id) => forall|k: Seq<char>|
            #[trigger] in_room(rooms, k, connection.member.id) <==> k == room_id@,
        None => forall|k: Seq<char>| !#[trigger] in_room(rooms, k, connection.member.id),
    }
}

/// Joining then leaving a room gives the room back its members: a member
/// that the room admitted, and that then leaves, leaves the member list as it
/// was before the join.
pub proof fn lemma_room_join_then_leave(room: RoomView, auth: Seq<char>, member: Member)
    requires
        room.wf(),
        room.join_result(auth, member.id) is Ok,
    ensures
        room.after_join(auth, member).after_leave(member.id).members == room.members,
        room.after_join(auth, member).leave_result(member.id) is Ok,
{
    let joined = room.after_join(auth, member);
    let n = room.members.len() as int;
    assert(joined.members[n].id == member.id);
    assert forall|j: int| 0 <= j < n implies #[trigger] joined.members[j].id != member.id by {
        assert(joined.members[j] == room.members[j]);
    }
    assert(crate::room::has_member(joined.members, member.id));
    crate::room::lemma_first_index_at(joined.members, member.id, n);
    assert(joined.members.remove(n) =~= room.members);
}

/// The first member to join a room sets its key: the join succeeds, and
/// afterwards a join with any other key is refused with `AuthFailed`.
pub proof fn lemma_first_join_sets_auth(
    auth: Seq<char>,
    member: Member,
    other_auth: Seq<char>,
    other: MemberId,
)
    requires
        other_auth != auth,
    ensures
        RoomView::empty().join_result(auth, member.id) is Ok,
        RoomView::empty().after_join(auth, member).auth == Some(auth),
        RoomView::empty().after_join(auth, member).join_result(other_auth, other) == Err::<
            (),
            RoomError,
        >(RoomError::AuthFailed),
{
}

/// A member already in a room cannot join it a second time.
pub proof fn lemma_no_second_join(room: RoomView, auth: Seq<char>, member: Member)
    requires
        room.join_result(auth, member.id) is Ok,
    ensures
        room.after_join(auth, member).join_result(auth, member.id) == Err::<(), RoomError>(
            RoomError::JoinedTwice,
        ),
{
    lemma_has_member_push(room.members, member, member.id);
}

/// With distinct ids, the position of a member is its first position.
pub proof fn lemma_first_index_distinct(members: Seq<Member>, id: MemberId)
    requires
        distinct_ids(members),
        has_member(members, id),
    ensures
        0 <= first_index(members, id) < members.len(),
        members[first_index(members, id)].id == id,
{
    let i = choose|i: int| 0 <= i < members.len() && #[trigger] members[i].id == id;
    assert forall|j: int| 0 <= j < i implies #[trigger] members[j].id != id by {
        assert(members[j].id != members[i].id);
    }
    crate::room::lemma_first_index_at(members, id, i);
}

/// A member that leaves a room with distinct ids is no longer in it, and
/// every other member stays exactly when it was there.
pub proof fn lemma_after_leave_members(room: RoomView, leaver: MemberId, id: MemberId)
    requires
        room.wf(),
        has_member(room.members, leaver),
    ensures
        has_member(room.after_leave(leaver).members, id) == (has_member(room.members, id) && id
            != leaver),
{
    lemma_first_index_distinct(room.members, leaver);
    lemma_has_member_remove(room.members, first_index(room.members, leaver), id);
}

/// Every request keeps the connection's record of its room in agreement
/// with the rooms.
pub proof fn lemma_step_keeps_consistency(
    rooms: Map<Seq<char>, RoomView>,
    connection: Connection,
    message: ClientMessage,
)
    requires
        rooms_wf(rooms),
        consistent(rooms, connection),
    ensures
        consistent(
            client_step(rooms, connection, message).rooms,
            client_step(rooms, connection, message).connection,
        ),
{
    let me = connection.member.id;
    let s = client_step(rooms, connection, message);
    match message {
        ClientMessage::Join { room_id, auth, username } => {
            if connection.room_id is None {
                let member = Member { id: me, username };
                let before = room_or_empty(rooms, room_id@);
                assert(!in_room(rooms, room_id@, me));
                lemma_has_member_push(before.members, member, me);
                assert forall|k: Seq<char>| #[trigger] in_room(s.rooms, k, me) == (
                    s.connection.room_id is Some && k == room_id@) by {
                    if k != room_id@ {
                        assert(!in_room(rooms, k, me));
                    }
                }
            }
        },
        ClientMessage::Leave => {
            if let Some(room_id) = connection.room_id {
                assert(in_room(rooms, room_id@, me));
                let room = rooms[room_id@];
                lemma_after_leave_members(room, me, me);
                assert forall|k: Seq<char>| !#[trigger] in_room(s.rooms, k, me) by {
                    if k != room_id@ {
                        assert(!in_room(rooms, k, me));
                    }
                }
            }
        },
        ClientMessage::Signal { .. } => {},
    }
}

/// A request of one connection changes the rooms of no other member: every
/// other member is in the same rooms before and after.
pub proof fn lemma_step_leaves_others_in_place(
    rooms: Map<Seq<char>, RoomView>,
    connection: Connection,
    message: ClientMessage,
    other: MemberId,
    k: Seq<char>,
)
    requires
        rooms_wf(rooms),
        consistent(rooms, connection),
        other != connection.member.id,
    ensures
        in_room(client_step(rooms, connection, message).rooms, k, other) == in_room(rooms, k, other),
{
    let me = connection.member.id;
    match message {
        ClientMessage::Join { room_id, auth, username } => {
            if connection.room_id is None {
                let member = Member { id: me, username };
                let before = room_or_empty(rooms, room_id@);
                lemma_has_member_push(before.members, member, other);
            }
        },
        ClientMessage::Leave => {
            if let Some(room_id) = connection.room_id {
                assert(in_room(rooms, room_id@, me));
                lemma_after_leave_members(rooms[room_id@], me, other);
            }
        },
        ClientMessage::Signal { .. } => {},
    }
}

/// A connection in no room that joins a room and then leaves it leaves the
/// rooms exactly as they were: a room made by the join is removed again, and
/// a room that was there (well formed, with members) gets its members back.
pub proof fn lemma_join_then_leave_restores_rooms(
    rooms: Map<Seq<char>, RoomView>,
    connection: Connection,
    room_id: RoomId,
    auth: Seq<char>,
    username: String,
)
    requires
        rooms.contains_key(room_id@) ==> rooms[room_id@].wf() && rooms[room_id@].members.len()
            > 0,
        connection.room_id is None,
        join_step(rooms, connection, room_id, auth, username).connection.room_id is Some,
    ensures
        ({
            let joined = join_step(rooms, connection, room_id, auth, username);
            let left = leave_step(joined.rooms, joined.connection);
            &&& left.rooms == rooms
            &&& left.connection.room_id is None
        }),
{
    let me = connection.member.id;
    let member = Member { id: me, username };
    let before = room_or_empty(rooms, room_id@);
    assert(before.wf());
    lemma_room_join_then_leave(before, auth, member);
    let joined = join_step(rooms, connection, room_id, auth, username);
    let after = before.after_join(auth, member);
    assert(joined.rooms == rooms.insert(room_id@, after));
    if rooms.contains_key(room_id@) {
        assert(before.members.len() > 0);
        assert(after.after_leave(me) =~= before);
        assert(rooms.insert(room_id@, after).insert(room_id@, before) =~= rooms);
    } else {
        assert(rooms.insert(room_id@, after).remove(room_id@) =~= rooms);
    }
}

/// A successful join answers `Joined` to the newcomer, then sends the roster
/// of the room, the newcomer included, to every member of the room.
pub proof fn lemma_join_announces(
    rooms: Map<Seq<char>, RoomView>,
    connection: Connection,
    room_id: RoomId,
    auth: Seq<char>,
    username: String,
)
    requires
        connection.room_id is None,
        join_step(rooms, connection, room_id, auth, username).connection.room_id is Some,
    ensures
        ({
            let s = join_step(rooms, connection, room_id, auth, username);
            let me = connection.member.id;
            let members = s.rooms[room_id@].members;
            &&& s.rooms.contains_key(room_id@)
            &&& members.last() == Member { id: me, username }
            &&& s.out == seq![
                (me, ServerMessageView::Joined { member_id: me, room_id }),
            ] + fan_out(members, ServerMessageView::Roster { members: summary_of(members) })
        }),
{
    let s = join_step(rooms, connection, room_id, auth, username);
    let me = connection.member.id;
    let outcome = join_outcome(rooms, room_id, auth, Member { id: me, username });
    let msgs = crate::handler::outcome_messages(outcome);
    let m1 = msgs.drop_last();
    assert(m1.drop_last() =~= Seq::<(crate::signaling::Dest, ServerMessageView)>::empty());
    assert(crate::signaling::route_all(s.rooms, me, m1.drop_last()) == Seq::<(MemberId, ServerMessageView)>::empty());
    assert(m1.last() == (crate::signaling::Dest::Peer(me), ServerMessageView::Joined { member_id: me, room_id }));
    assert(crate::signaling::route_all(s.rooms, me, msgs.drop_last()) =~= seq![
        (me, ServerMessageView::Joined { member_id: me, room_id }),
    ]);
}

/// A member that leaves gets no `MemberLeft` itself: those who stay get it,
/// each once.
pub proof fn lemma_leave_announces(rooms: Map<Seq<char>, RoomView>, connection: Connection)
    requires
        rooms_wf(rooms),
        consistent(rooms, connection),
        connection.room_id is Some,
    ensures
        ({
            let s = leave_step(rooms, connection);
            let me = connection.member.id;
            let room_id = connection.room_id.unwrap();
            let stay = if s.rooms.contains_key(room_id@) {
                s.rooms[room_id@].members
            } else {
                Seq::empty()
            };
            &&& s.out == fan_out(stay, ServerMessageView::MemberLeft { member_id: me })
            &&& !has_member(stay, me)
        }),
{
    let me = connection.member.id;
    let room_id = connection.room_id.unwrap();
    assert(in_room(rooms, room_id@, me));
    lemma_after_leave_members(rooms[room_id@], me, me);
    let s = leave_step(rooms, connection);
    let msgs = crate::signaling::leave_outcome(rooms, room_id, me);
    assert(msgs.drop_last() =~= Seq::<(crate::signaling::Dest, ServerMessageView)>::empty());
    if !s.rooms.contains_key(room_id@) {
        assert(fan_out(Seq::<Member>::empty(), ServerMessageView::MemberLeft { member_id: me }) =~= Seq::empty());
        assert(!has_member(Seq::<Member>::empty(), me));
    }
    assert(s.out =~= crate::signaling::route_all(s.rooms, me, msgs.drop_last()) + crate::signaling::route_one(s.rooms, me, msgs.last().0, msgs.last().1));
}

/// A connection in no room that joins a room nobody is in is admitted: it
/// gets `Joined` and a roster that lists only itself. When it then leaves,
/// nobody is told (the room is empty), the room is gone again, every other
/// room is as before, and the connection is in no room.
pub proof fn lemma_new_room_join_then_leave(
    rooms: Map<Seq<char>, RoomView>,
    connection: Connection,
    room_id: RoomId,
    auth: Seq<char>,
    username: String,
)
    requires
        !rooms.contains_key(room_id@),
        connection.room_id is None,
    ensures
        ({
            let me = connection.member.id;
            let joined = join_step(rooms, connection, room_id, auth, username);
            let left = leave_step(joined.rooms, joined.connection);
            &&& joined.connection.room_id == Some(room_id)
            &&& joined.out == seq![
                (me, ServerMessageView::Joined { member_id: me, room_id }),
                (
                    me,
                    ServerMessageView::Roster {
                        members: seq![MemberSummary { member_id: me, username }],
                    },
                ),
            ]
            &&& left.rooms == rooms
            &&& left.connection.room_id is None
            &&& left.out == Seq::<(MemberId, ServerMessageView)>::empty()
        }),
{
    let me = connection.member.id;
    let member = Member { id: me, username };
    assert(!has_member(Seq::<Member>::empty(), me));
    let joined = join_step(rooms, connection, room_id, auth, username);
    lemma_join_then_leave_restores_rooms(rooms, connection, room_id, auth, username);
    lemma_join_announces(rooms, connection, room_id, auth, username);
    let members = joined.rooms[room_id@].members;
    assert(members =~= seq![member]);
    assert(summary_of(members) =~= seq![MemberSummary { member_id: me, username }]);
    assert(fan_out(members, ServerMessageView::Roster { members: summary_of(members) }) =~= seq![
        (me, ServerMessageView::Roster { members: seq![MemberSummary { member_id: me, username }] }),
    ]);
    let left = leave_step(joined.rooms, joined.connection);
    let msgs = crate::signaling::leave_outcome(joined.rooms, room_id, me);
    assert(has_member(members, me)) by {
        assert(members[0].id == me);
    }
    assert(members.remove(0) =~= Seq::<Member>::empty());
    crate::room::lemma_first_index_at(members, me, 0);
    assert(msgs =~= seq![
        (crate::signaling::Dest::Room(room_id), ServerMessageView::MemberLeft { member_id: me }),
    ]);
    assert(msgs.drop_last() =~= Seq::<(crate::signaling::Dest, ServerMessageView)>::empty());
    assert(crate::signaling::route_all(left.rooms, me, msgs.drop_last()) == Seq::<(MemberId, ServerMessageView)>::empty());
    assert(!left.rooms.contains_key(room_id@));
    assert(left.out =~= Seq::<(MemberId, ServerMessageView)>::empty());
    assert(joined.connection.room_id == Some(room_id));
}

/// The first member to join a room sets its key for everyone after: a second
/// connection that joins the same room is admitted exactly when it brings the
/// same key; with another key it alone is answered "Room auth failed", and
/// the rooms stay as they were.
pub proof fn lemma_second_join_needs_first_key(
    rooms: Map<Seq<char>, RoomView>,
    first: Connection,
    second: Connection,
    room_id: RoomId,
    auth: Seq<char>,
    username: String,
    other_auth: Seq<char>,
    other_username: String,
)
    requires
        !rooms.contains_key(room_id@),
        first.room_id is None,
        second.room_id is None,
        second.member.id != first.member.id,
    ensures
        ({
            let s1 = join_step(rooms, first, room_id, auth, username);
            let s2 = join_step(s1.rooms, second, room_id, other_auth, other_username);
            &&& s1.connection.room_id == Some(room_id)
            &&& (s2.connection.room_id is Some <==> other_auth == auth)
            &&& other_auth != auth ==> {
                &&& s2.out == seq![
                    (
                        second.member.id,
                        ServerMessageView::Error { message: "Room auth failed"@ },
                    ),
                ]
                &&& s2.rooms == s1.rooms
            }
        }),
{
    let m1 = Member { id: first.member.id, username };
    let m2 = Member { id: second.member.id, username: other_username };
    assert(!has_member(Seq::<Member>::empty(), m1.id));
    let s1 = join_step(rooms, first, room_id, auth, username);
    let room = s1.rooms[room_id@];
    assert(room.members =~= seq![m1]);
    assert(room.auth == Some(auth));
    if has_member(room.members, m2.id) {
        let i = choose|i: int| 0 <= i < room.members.len() && #[trigger] room.members[i].id == m2.id;
        assert(room.members[i] == m1);
    }
    if other_auth != auth {
        let s2 = join_step(s1.rooms, second, room_id, other_auth, other_username);
        assert(room.after_join(other_auth, m2) =~= room);
        assert(s1.rooms.insert(room_id@, room) =~= s1.rooms);
        let msgs = crate::handler::outcome_messages(
            join_outcome(s1.rooms, room_id, other_auth, m2),
        );
        assert(room.join_result(other_auth, m2.id) == Err::<(), RoomError>(RoomError::AuthFailed));
        assert(msgs =~= seq![
            (crate::signaling::Dest::Myself, ServerMessageView::Error { message: RoomError::AuthFailed.text() }),
        ]);
        assert(msgs.drop_last() =~= Seq::<(crate::signaling::Dest, ServerMessageView)>::empty());
        assert(crate::signaling::route_all(s2.rooms, second.member.id, msgs.drop_last()) == Seq::<(MemberId, ServerMessageView)>::empty());
        assert(s2.out =~= seq![
            (second.member.id, ServerMessageView::Error { message: "Room auth failed"@ }),
        ]);
    }
}

/// A request made to a room: a join with a key, or a leave.
pub enum RoomRequest {
    Join { auth: Seq<char>, member: Member },
    Leave { member_id: MemberId },
}

/// Whether the room accepts `request`.
pub open spec fn accepts(room: RoomView, request: RoomRequest) -> bool {
    match request {
        RoomRequest::Join { auth, member } => room.join_result(auth, member.id) is Ok,
        RoomRequest::Leave { member_id } => room.leave_result(member_id) is Ok,
    }
}

/// The room after `request`.
pub open spec fn apply_request(room: RoomView, request: RoomRequest) -> RoomView {
    match request {
        RoomRequest::Join { auth, member } => room.after_join(auth, member),
        RoomRequest::Leave { member_id } => room.after_leave(member_id),
    }
}

/// The room after each of `requests`, in order.
pub open spec fn run_requests(room: RoomView, requests: Seq<RoomRequest>) -> RoomView
    decreases requests.len(),
{
    if requests.len() == 0 {
        room
    } else {
        apply_request(run_requests(room, requests.drop_last()), requests.last())
    }
}

/// How many of `requests` are accepted joins.
pub open spec fn accepted_joins(room: RoomView, requests: Seq<RoomRequest>) -> nat
    decreases requests.len(),
{
    if requests.len() == 0 {
        0
    } else {
        let prev = run_requests(room, requests.drop_last());
        accepted_joins(room, requests.drop_last()) + if requests.last() is Join && accepts(
            prev,
            requests.last(),
        ) {
            1nat
        } else {
            0nat
        }
    }
}

/// How many of `requests` are accepted leaves.
pub open spec fn accepted_leaves(room: RoomView, requests: Seq<RoomRequest>) -> nat
    decreases requests.len(),
{
    if requests.len() == 0 {
        0
    } else {
        let prev = run_requests(room, requests.drop_last());
        accepted_leaves(room, requests.drop_last()) + if requests.last() is Leave && accepts(
            prev,
            requests.last(),
        ) {
            1nat
        } else {
            0nat
        }
    }
}

/// Every request keeps a room well formed; an accepted join adds one member,
/// an accepted leave removes one, and a refused request changes no member.
pub proof fn lemma_request_counts(room: RoomView, request: RoomRequest)
    requires
        room.wf(),
    ensures
        apply_request(room, request).wf(),
        apply_request(room, request).members.len() == room.members.len() + if request is Join
            && accepts(room, request) {
            1int
        } else if request is Leave && accepts(room, request) {
            -1int
        } else {
            0int
        },
{
    match request {
        RoomRequest::Join { auth, member } => {
            let after = room.after_join(auth, member);
            if accepts(room, request) {
                let n = room.members.len() as int;
                assert forall|i: int, j: int|
                    0 <= i < after.members.len() && 0 <= j < after.members.len() && i != j
                    implies #[trigger] after.members[i].id != #[trigger] after.members[j].id by {
                    if i == n {
                        assert(after.members[j] == room.members[j]);
                    } else if j == n {
                        assert(after.members[i] == room.members[i]);
                    } else {
                        assert(after.members[i] == room.members[i]);
                        assert(after.members[j] == room.members[j]);
                    }
                }
            }
        },
        RoomRequest::Leave { member_id } => {
            if accepts(room, request) {
                lemma_first_index_distinct(room.members, member_id);
                let idx = first_index(room.members, member_id);
                let after = room.members.remove(idx);
                assert forall|i: int, j: int|
                    0 <= i < after.len() && 0 <= j < after.len() && i != j implies
                    #[trigger] after[i].id != #[trigger] after[j].id by {
                    let bi = if i < idx { i } else { i + 1 };
                    let bj = if j < idx { j } else { j + 1 };
                    assert(room.members[bi].id != room.members[bj].id);
                }
            }
        },
    }
}

/// From any well-formed room, after any requests, the members number those
/// it had plus the accepted joins minus the accepted leaves.
pub proof fn lemma_run_counts(room: RoomView, requests: Seq<RoomRequest>)
    requires
        room.wf(),
    ensures
        run_requests(room, requests).wf(),
        run_requests(room, requests).members.len() + accepted_leaves(room, requests)
            == room.members.len() + accepted_joins(room, requests),
    decreases requests.len(),
{
    if requests.len() > 0 {
        lemma_run_counts(room, requests.drop_last());
        lemma_request_counts(run_requests(room, requests.drop_last()), requests.last());
    }
}

/// A new room, after any joins and leaves, is empty exactly when it accepted
/// as many joins as leaves.
pub proof fn lemma_empty_iff_joins_equal_leaves(requests: Seq<RoomRequest>)
    ensures
        (run_requests(RoomView::empty(), requests).members.len() == 0) <==> accepted_joins(
            RoomView::empty(),
            requests,
        ) == accepted_leaves(RoomView::empty(), requests),
{
    lemma_run_counts(RoomView::empty(), requests);
}

/// The texts a client is sent for each refusal.
pub proof fn lemma_error_texts()
    ensures
        RoomError::AuthFailed.text() == "Room auth failed"@,
        RoomError::JoinedTwice.text() == "Already joined a room"@,
        RoomError::MemberNotExists.text() == "Member not in room"@,
{
}

/// A broadcast reaches every member exactly once, in the room's order, and
/// nobody else: one message per member, the i-th to the i-th member's id,
/// whatever the display names.
pub proof fn lemma_broadcast_reaches_each_member_once(
    members: Seq<Member>,
    message: ServerMessageView,
)
    ensures
        fan_out(members, message).len() == members.len(),
        forall|i: int|
            0 <= i < members.len() ==> #[trigger] fan_out(members, message)[i] == (
                members[i].id,
                message,
            ),
{
}

/// A roster has exactly one entry per member, in the room's order: entry i
/// is the id and display name of member i, whatever the display names.
pub proof fn lemma_roster_lists_each_member(members: Seq<Member>)
    ensures
        summary_of(members).len() == members.len(),
        forall|i: int|
            0 <= i < members.len() ==> #[trigger] summary_of(members)[i] == (MemberSummary {
                member_id: members[i].id,
                username: members[i].username,
            }),
{
}

/// A join is accepted exactly when the key matches (or the room has none
/// yet) and the member is not in the room; an accepted member is added after
/// all others, who keep their order; a refused join changes no member; and
/// the room's key is the one it had, or the joiner's if it had none.
pub proof fn lemma_join_appends(room: RoomView, auth: Seq<char>, member: Member)
    ensures
        (room.join_result(auth, member.id) is Ok) <==> ((room.auth is None || room.auth == Some(
            auth,
        )) && forall|i: int| 0 <= i < room.members.len() ==> #[trigger] room.members[i].id
            != member.id),
        room.join_result(auth, member.id) is Ok ==> room.after_join(auth, member).members
            == room.members + seq![member],
        !(room.join_result(auth, member.id) is Ok) ==> room.after_join(auth, member).members
            == room.members,
        room.after_join(auth, member).auth == (if room.auth is None {
            Some(auth)
        } else {
            room.auth
        }),
{
    if has_member(room.members, member.id) {
        let i = choose|i: int| 0 <= i < room.members.len() && #[trigger] room.members[i].id == member.id;
        assert(room.members[i].id == member.id);
    }
    assert(room.members.push(member) =~= room.members + seq![member]);
}

/// A member that leaves is taken out of the room at its place, and all the
/// others stay in the same order; the key stays. A leave of someone not in
/// the room is refused with `MemberNotExists` and changes nothing.
pub proof fn lemma_leave_keeps_order(room: RoomView, id: MemberId, idx: int)
    requires
        room.wf(),
        0 <= idx < room.members.len(),
        room.members[idx].id == id,
    ensures
        room.leave_result(id) is Ok,
        room.after_leave(id).members == room.members.subrange(0, idx) + room.members.subrange(
            idx + 1,
            room.members.len() as int,
        ),
        room.after_leave(id).members.len() == room.members.len() - 1,
        room.after_leave(id).auth == room.auth,
{
    assert(has_member(room.members, id));
    lemma_first_index_distinct(room.members, id);
    let k = first_index(room.members, id);
    if k != idx {
        assert(room.members[k].id != room.members[idx].id);
    }
    assert(room.members.remove(idx) =~= room.members.subrange(0, idx) + room.members.subrange(
        idx + 1,
        room.members.len() as int,
    ));
}

/// A leave of an id that no member has is refused and changes nothing.
pub proof fn lemma_leave_of_stranger(room: RoomView, id: MemberId)
    requires
        forall|i: int| 0 <= i < room.members.len() ==> #[trigger] room.members[i].id != id,
    ensures
        room.leave_result(id) == Err::<(), RoomError>(RoomError::MemberNotExists),
        room.after_leave(id) == room,
{
    if has_member(room.members, id) {
        let i = choose|i: int| 0 <= i < room.members.len() && #[trigger] room.members[i].id == id;
        assert(room.members[i].id != id);
    }
}

/// A join from a connection that is already in a room, whichever room it
/// names (its own included), is answered with exactly one message, "Already
/// joined a room", to the requester, and changes neither the rooms nor the
/// connection.
pub proof fn lemma_join_while_in_a_room(
    rooms: Map<Seq<char>, RoomView>,
    connection: Connection,
    room_id: RoomId,
    auth: Seq<char>,
    username: String,
)
    requires
        connection.room_id is Some,
    ensures
        ({
            let s = join_step(rooms, connection, room_id, auth, username);
            &&& s.out == seq![
                (
                    connection.member.id,
                    ServerMessageView::Error { message: "Already joined a room"@ },
                ),
            ]
            &&& s.rooms == rooms
            &&& s.connection == connection
        }),
{
}

/// A join from a connection in no room leaves every other room as it was,
/// and the room it names holds afterwards the members it held (none if it
/// did not exist) with the newcomer added last when the join is accepted.
pub proof fn lemma_join_step_rooms(
    rooms: Map<Seq<char>, RoomView>,
    connection: Connection,
    room_id: RoomId,
    auth: Seq<char>,
    username: String,
    k: Seq<char>,
)
    requires
        connection.room_id is None,
    ensures
        ({
            let s = join_step(rooms, connection, room_id, auth, username);
            let before = if rooms.contains_key(room_id@) {
                rooms[room_id@].members
            } else {
                Seq::empty()
            };
            let newcomer = Member { id: connection.member.id, username };
            &&& s.rooms.contains_key(room_id@)
            &&& k != room_id@ ==> (s.rooms.contains_key(k) == rooms.contains_key(k) && (
            rooms.contains_key(k) ==> s.rooms[k] == rooms[k]))
            &&& s.connection.room_id is Some ==> s.rooms[room_id@].members == before + seq![
                newcomer,
            ]
            &&& s.connection.room_id is None ==> s.rooms[room_id@].members == before
        }),
{
    let member = Member { id: connection.member.id, username };
    lemma_join_appends(room_or_empty(rooms, room_id@), auth, member);
}

/// A leave from a connection in a room whose record agrees with the rooms
/// takes its member out of that room at its place, the others keeping their
/// order; the room is removed exactly when nobody is left; every other room
/// stays as it was; the connection is in no room afterwards.
pub proof fn lemma_leave_step_rooms(
    rooms: Map<Seq<char>, RoomView>,
    connection: Connection,
    idx: int,
    k: Seq<char>,
)
    requires
        rooms_wf(rooms),
        connection.room_id is Some,
        rooms.contains_key(connection.room_id.unwrap()@),
        0 <= idx < rooms[connection.room_id.unwrap()@].members.len(),
        rooms[connection.room_id.unwrap()@].members[idx].id == connection.member.id,
    ensures
        ({
            let s = leave_step(rooms, connection);
            let r = connection.room_id.unwrap()@;
            let members = rooms[r].members;
            let rest = members.subrange(0, idx) + members.subrange(idx + 1, members.len() as int);
            &&& s.connection.room_id is None
            &&& s.rooms.contains_key(r) <==> rest.len() > 0
            &&& s.rooms.contains_key(r) ==> s.rooms[r].members == rest
            &&& k != r ==> (s.rooms.contains_key(k) == rooms.contains_key(k) && (
            rooms.contains_key(k) ==> s.rooms[k] == rooms[k]))
        }),
{
    let r = connection.room_id.unwrap()@;
    lemma_leave_keeps_order(rooms[r], connection.member.id, idx);
}

/// A leave from a connection in no room does nothing and sends nothing.
pub proof fn lemma_leave_outside_a_room(rooms: Map<Seq<char>, RoomView>, connection: Connection)
    requires
        connection.room_id is None,
    ensures
        leave_step(rooms, connection).rooms == rooms,
        leave_step(rooms, connection).connection == connection,
        leave_step(rooms, connection).out.len() == 0,
{
}

/// A signal to a member of the sender's room goes to that member alone: one
/// message, `Signal { from: sender, signal }`, addressed to `to`; nobody
/// else in the room gets anything, and nothing changes.
pub proof fn lemma_signal_is_unicast(
    rooms: Map<Seq<char>, RoomView>,
    connection: Connection,
    to: MemberId,
    signal: Signal,
    i: int,
)
    requires
        connection.room_id is Some,
        rooms.contains_key(connection.room_id.unwrap()@),
        0 <= i < rooms[connection.room_id.unwrap()@].members.len(),
        rooms[connection.room_id.unwrap()@].members[i].id == to,
    ensures
        ({
            let s = signal_step(rooms, connection, to, signal);
            &&& s.out == seq![
                (to, ServerMessageView::Signal { from: connection.member.id, signal }),
            ]
            &&& s.out.len() == 1
            &&& s.rooms == rooms
            &&& s.connection == connection
        }),
{
    assert(has_member(rooms[connection.room_id.unwrap()@].members, to));
}

/// A signal to an id that no member of the sender's room has is refused:
/// one message, "Member not in room", back to the sender, and nothing
/// changes.
pub proof fn lemma_signal_to_stranger(
    rooms: Map<Seq<char>, RoomView>,
    connection: Connection,
    to: MemberId,
    signal: Signal,
)
    requires
        connection.room_id is Some,
        rooms.contains_key(connection.room_id.unwrap()@),
        forall|i: int|
            0 <= i < rooms[connection.room_id.unwrap()@].members.len()
                ==> #[trigger] rooms[connection.room_id.unwrap()@].members[i].id != to,
    ensures
        ({
            let s = signal_step(rooms, connection, to, signal);
            &&& s.out == seq![
                (
                    connection.member.id,
                    ServerMessageView::Error { message: "Member not in room"@ },
                ),
            ]
            &&& s.rooms == rooms
            &&& s.connection == connection
        }),
{
    let members = rooms[connection.room_id.unwrap()@].members;
    if has_member(members, to) {
        let i = choose|i: int| 0 <= i < members.len() && #[trigger] members[i].id == to;
        assert(members[i].id != to);
    }
}

/// A signal from a connection in no room is dropped: nothing is sent and
/// nothing changes.
pub proof fn lemma_signal_outside_a_room(
    rooms: Map<Seq<char>, RoomView>,
    connection: Connection,
    to: MemberId,
    signal: Signal,
)
    requires
        connection.room_id is None,
    ensures
        signal_step(rooms, connection, to, signal).out.len() == 0,
        signal_step(rooms, connection, to, signal).rooms == rooms,
        signal_step(rooms, connection, to, signal).connection == connection,
{
}

/// Routing one addressed message: to the requester, to the named member, or
/// once to each member of the named room in order (nobody where the room
/// does not exist).
pub proof fn lemma_route_one(
    rooms: Map<Seq<char>, RoomView>,
    me: MemberId,
    dest: Dest,
    message: ServerMessageView,
)
    ensures
        dest is Myself ==> route_one(rooms, me, dest, message) == seq![(me, message)],
        dest matches Dest::Peer(id) ==> route_one(rooms, me, dest, message) == seq![(id, message)],
        dest matches Dest::Room(r) ==> {
            let out = route_one(rooms, me, dest, message);
            if rooms.contains_key(r@) {
                &&& out.len() == rooms[r@].members.len()
                &&& forall|i: int|
                    0 <= i < out.len() ==> #[trigger] out[i] == (rooms[r@].members[i].id, message)
            } else {
                out.len() == 0
            }
        },
{
}

} // verus!
