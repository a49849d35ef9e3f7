pub mod id;
pub mod member;
pub mod result;

use vstd::prelude::*;

use crate::message::{MemberSummary, ServerMessage, ServerMessageView};
use crate::room::member::{Member, MemberId};
use crate::room::result::RoomError;

verus! {

/// A message bound for one member.
pub type Outgoing = (MemberId, ServerMessage);

/// What a sequence of outgoing messages says.
pub open spec fn outgoing_view(out: Seq<Outgoing>) -> Seq<(MemberId, ServerMessageView)> {
    out.map_values(|o: Outgoing| (o.0, o.1@))
}

/// `message` addressed to each of `members`, in their order.
pub open spec fn fan_out(members: Seq<Member>, message: ServerMessageView) -> Seq<
    (MemberId, ServerMessageView),
> {
    members.map_values(|m: Member| (m.id, message))
}

/// Whether some entry of `members` has the id `id`.
pub open spec fn has_member(members: Seq<Member>, id: MemberId) -> bool {
    exists|i: int| 0 <= i < members.len() && #[trigger] members[i].id == id
}

/// No two entries of `members` share an id.
pub open spec fn distinct_ids(members: Seq<Member>) -> bool {
    forall|i: int, j: int|
        0 <= i < members.len() && 0 <= j < members.len() && i != j ==> #[trigger] members[i].id
            != #[trigger] members[j].id
}

/// The first position of `id` in `members` (meaningful where `has_member`).
pub open spec fn first_index(members: Seq<Member>, id: MemberId) -> int {
    choose|i: int|
        0 <= i < members.len() && members[i].id == id && forall|j: int|
            0 <= j < i ==> #[trigger] members[j].id != id
}

/// The roster entries of `members`, in their order.
pub open spec fn summary_of(members: Seq<Member>) -> Seq<MemberSummary> {
    members.map_values(|m: Member| MemberSummary { member_id: m.id, username: m.username })
}

/// What a room holds: its members in the order they joined, and its key,
/// unset until the first member joins.
pub struct RoomView {
    pub members: Seq<Member>,
    pub auth: Option<Seq<char>>,
}

impl RoomView {
    /// A room nobody has joined yet.
    pub open spec fn empty() -> RoomView {
        RoomView { members: Seq::empty(), auth: None }
    }

    /// Members are distinct, and a room without a key has no members.
    pub open spec fn wf(self) -> bool {
        &&& distinct_ids(self.members)
        &&& self.auth is None ==> self.members.len() == 0
    }

    /// The answer of the room to a join of `id` with `auth`.
    pub open spec fn join_result(self, auth: Seq<char>, id: MemberId) -> Result<(), RoomError> {
        if self.auth is Some && self.auth.unwrap() != auth {
            Err(RoomError::AuthFailed)
        } else if has_member(self.members, id) {
            Err(RoomError::JoinedTwice)
        } else {
            Ok(())
        }
    }

    /// The room after a join of `member` with `auth`: the first join sets the
    /// key, and an accepted member is added last.
    pub open spec fn after_join(self, auth: Seq<char>, member: Member) -> RoomView {
        RoomView {
            members: if self.join_result(auth, member.id) is Ok {
                self.members.push(member)
            } else {
                self.members
            },
            auth: if self.auth is None {
                Some(auth)
            } else {
                self.auth
            },
        }
    }

    /// The answer of the room to a leave of `id`.
    pub open spec fn leave_result(self, id: MemberId) -> Result<(), RoomError> {
        if has_member(self.members, id) {
            Ok(())
        } else {
            Err(RoomError::MemberNotExists)
        }
    }

    /// The room after a leave of `id`.
    pub open spec fn after_leave(self, id: MemberId) -> RoomView {
        if has_member(self.members, id) {
            RoomView {
                members: self.members.remove(first_index(self.members, id)),
                auth: self.auth,
            }
        } else {
            self
        }
    }
}

/// The first position of `id` is the one a left-to-right search finds.
pub proof fn lemma_first_index_at(members: Seq<Member>, id: MemberId, i: int)
    requires
        0 <= i < members.len(),
        members[i].id == id,
        forall|j: int| 0 <= j < i ==> #[trigger] members[j].id != id,
    ensures
        first_index(members, id) == i,
{
    let k = first_index(members, id);
    assert(0 <= k < members.len() && members[k].id == id && forall|j: int|
        0 <= j < k ==> #[trigger] members[j].id != id);
}

/// A room: its members and its key.
#[derive(Clone)]
pub struct Room {
    members: Vec<Member>,
    auth: Option<String>,
}

impl View for Room {
    type V = RoomView;

    closed spec fn view(&self) -> RoomView {
        RoomView {
            members: self.members@,
            auth: match self.auth {
                Some(a) => Some(a@),
                None => None,
            },
        }
    }
}

impl Room {
    pub open spec fn wf(&self) -> bool {
        self@.wf()
    }

    /// A room without members and without a key.
    pub fn new() -> (room: Room)
        ensures
            room@ == RoomView::empty(),
            room.wf(),
    {
        let room = Room { members: Vec::new(), auth: None };
        assert(room@.members =~= Seq::<Member>::empty());
        room
    }

    pub fn is_empty(&self) -> (b: bool)
        ensures
            b == (self@.members.len() == 0),
    {
        self.members.len() == 0
    }

    /// The members of the room, in the order they joined.
    pub fn members(&self) -> (m: &Vec<Member>)
        ensures
            m@ == self@.members,
    {
        &self.members
    }

    /// The position of the first member with id `id`.
    fn position(&self, id: &MemberId) -> (p: Option<usize>)
        ensures
            match p {
                Some(i) => i < self@.members.len() && self@.members[i as int].id == *id
                    && first_index(self@.members, *id) == i,
                None => !has_member(self@.members, *id),
            },
    {
        let mut i: usize = 0;
        while i < self.members.len()
            invariant
                i <= self.members.len(),
                self@.members == self.members@,
                forall|j: int| 0 <= j < i ==> #[trigger] self.members@[j].id != *id,
            decreases self.members.len() - i,
        {
            if self.members[i].id == *id {
                proof {
                    lemma_first_index_at(self@.members, *id, i as int);
                }
                return Some(i);
            }
            i = i + 1;
        }
        None
    }

    /// Admits `member` if `auth` matches the room's key and the member is not
    /// in the room yet. The first join sets the key.
    pub fn join(&mut self, auth: &str, member: Member) -> (r: Result<(), RoomError>)
        requires
            old(self).wf(),
        ensures
            final(self).wf(),
            r == old(self)@.join_result(auth@, member.id),
            final(self)@ == old(self)@.after_join(auth@, member),
    {
        let given = String::from_str(auth);
        match &self.auth {
            Some(a) => {
                if !(*a == given) {
                    return Err(RoomError::AuthFailed);
                }
            },
            None => {
                self.auth = Some(given);
            },
        }
        if self.position(&member.id).is_some() {
            return Err(RoomError::JoinedTwice);
        }
        let ghost before = self.members@;
        self.members.push(member);
        proof {
            assert forall|i: int, j: int|
                0 <= i < self.members@.len() && 0 <= j < self.members@.len() && i != j implies
                #[trigger] self.members@[i].id != #[trigger] self.members@[j].id by {
                if i == before.len() {
                    assert(before[j].id == self.members@[j].id);
                } else if j == before.len() {
                    assert(before[i].id == self.members@[i].id);
                }
            }
        }
        Ok(())
    }

    /// Removes the member with id `member`.
    pub fn leave(&mut self, member: &MemberId) -> (r: Result<(), RoomError>)
        requires
            old(self).wf(),
        ensures
            final(self).wf(),
            r == old(self)@.leave_result(*member),
            final(self)@ == old(self)@.after_leave(*member),
    {
        match self.position(member) {
            Some(pos) => {
                let ghost before = self.members@;
                self.members.remove(pos);
                proof {
                    assert forall|i: int, j: int|
                        0 <= i < self.members@.len() && 0 <= j < self.members@.len() && i != j
                        implies #[trigger] self.members@[i].id
                        != #[trigger] self.members@[j].id by {
                        let bi = if i < pos { i } else { i + 1 };
                        let bj = if j < pos { j } else { j + 1 };
                        assert(before[bi].id == self.members@[i].id);
                        assert(before[bj].id == self.members@[j].id);
                    }
                }
                Ok(())
            },
            None => Err(RoomError::MemberNotExists),
        }
    }

    /// `message` addressed to every member, in the order they joined.
    pub fn broadcast(&self, message: ServerMessage, out: &mut Vec<Outgoing>)
        ensures
            outgoing_view(final(out)@) == outgoing_view(old(out)@) + fan_out(
                self@.members,
                message@,
            ),
    {
        let ghost start = old(out)@;
        let mut i: usize = 0;
        while i < self.members.len()
            invariant
                i <= self.members.len(),
                self@.members == self.members@,
                outgoing_view(out@) == outgoing_view(start) + fan_out(
                    self.members@.take(i as int),
                    message@,
                ),
            decreases self.members.len() - i,
        {
            let ghost prev = out@;
            out.push((self.members[i].id, message.duplicate()));
            proof {
                assert(self.members@.take(i + 1) == self.members@.take(i as int).push(
                    self.members@[i as int],
                ));
                assert(outgoing_view(out@) =~= outgoing_view(prev).push(
                    (self.members@[i as int].id, message@),
                ));
                assert(fan_out(self.members@.take(i + 1), message@) =~= fan_out(
                    self.members@.take(i as int),
                    message@,
                ).push((self.members@[i as int].id, message@)));
                assert(outgoing_view(out@) == outgoing_view(start) + fan_out(
                    self.members@.take(i + 1),
                    message@,
                ));
            }
            i = i + 1;
        }
        proof {
            assert(self.members@.take(self.members.len() as int) == self.members@);
        }
    }

    /// `message` addressed to the member `member_id`, if it is in the room;
    /// whether it is.
    pub fn send_to(&self, member_id: &MemberId, message: ServerMessage, out: &mut Vec<Outgoing>) -> (sent: bool)
        ensures
            sent == has_member(self@.members, *member_id),
            outgoing_view(final(out)@) == outgoing_view(old(out)@) + if sent {
                seq![(*member_id, message@)]
            } else {
                seq![]
            },
    {
        match self.position(member_id) {
            Some(_) => {
                let ghost before = out@;
                out.push((*member_id, message));
                proof {
                    assert(outgoing_view(out@) == outgoing_view(before) + seq![(*member_id, message@)]);
                }
                true
            },
            None => {
                proof {
                    assert(outgoing_view(out@) == outgoing_view(out@) + Seq::<(MemberId, ServerMessageView)>::empty());
                }
                false
            },
        }
    }

    /// The roster of the room: id and display name of each member, in the
    /// order they joined.
    pub fn summary(&self) -> (s: Vec<MemberSummary>)
        ensures
            s@ == summary_of(self@.members),
    {
        let mut s: Vec<MemberSummary> = Vec::new();
        let mut i: usize = 0;
        while i < self.members.len()
            invariant
                i <= self.members.len(),
                self@.members == self.members@,
                s@ == summary_of(self.members@.take(i as int)),
            decreases self.members.len() - i,
        {
            let m = &self.members[i];
            s.push(MemberSummary { member_id: m.id, username: m.username.clone() });
            proof {
                assert(self.members@.take(i + 1) == self.members@.take(i as int).push(
                    self.members@[i as int],
                ));
                assert(s@ == summary_of(self.members@.take(i + 1)));
            }
            i = i + 1;
        }
        proof {
            assert(self.members@.take(self.members.len() as int) == self.members@);
        }
        s
    }
}

} // verus!
