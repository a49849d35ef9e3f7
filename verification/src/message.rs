use vstd::prelude::*;

use crate::room::id::RoomId;
use crate::room::member::MemberId;

verus! {

/// An entry of a roster: who is in the room, and under which display name.
#[derive(Debug, Clone)]
pub struct MemberSummary {
    pub member_id: MemberId,
    pub username: String,
}

impl MemberSummary {
    /// A copy of this entry.
    pub fn duplicate(&self) -> (s: MemberSummary)
        ensures
            s == *self,
    {
        MemberSummary { member_id: self.member_id, username: self.username.clone() }
    }
}

/// The WebRTC payload that one member relays to another.
#[derive(Debug, Clone)]
pub enum Signal {
    Offer { sdp: String },
    Answer { sdp: String },
    IceCandidate { candidate: String },
}

impl Signal {
    /// A copy of this signal.
    pub fn duplicate(&self) -> (s: Signal)
        ensures
            s == *self,
    {
        match self {
            Signal::Offer { sdp } => Signal::Offer { sdp: sdp.clone() },
            Signal::Answer { sdp } => Signal::Answer { sdp: sdp.clone() },
            Signal::IceCandidate { candidate } => Signal::IceCandidate {
                candidate: candidate.clone(),
            },
        }
    }
}

/// A request from a client to the server.
#[derive(Debug)]
pub enum ClientMessage {
    /// Enter a room; the first member to enter sets the room's `auth`.
    Join { room_id: RoomId, auth: String, username: String },
    /// Leave the room this connection is in.
    Leave,
    /// Relay `signal` to the member `to` of the same room.
    Signal { to: MemberId, signal: Signal },
}

/// A response or an event from the server to a client.
#[derive(Debug, Clone)]
pub enum ServerMessage {
    /// The answer to a successful join, sent to the member who joined.
    Joined { member_id: MemberId, room_id: RoomId },
    /// Everyone in the room, sent to everyone in the room.
    Roster { members: Vec<MemberSummary> },
    /// A member left, sent to those who stay.
    MemberLeft { member_id: MemberId },
    /// A refusal, sent to the connection whose request failed.
    Error { message: String },
    /// A relayed signal, sent to its target.
    Signal { from: MemberId, signal: Signal },
}

/// What a server message says, with its roster as a sequence and its error
/// text as characters.
pub enum ServerMessageView {
    Joined { member_id: MemberId, room_id: RoomId },
    Roster { members: Seq<MemberSummary> },
    MemberLeft { member_id: MemberId },
    Error { message: Seq<char> },
    Signal { from: MemberId, signal: Signal },
}

impl View for ServerMessage {
    type V = ServerMessageView;

    open spec fn view(&self) -> ServerMessageView {
        match self {
            ServerMessage::Joined { member_id, room_id } => ServerMessageView::Joined {
                member_id: *member_id,
                room_id: *room_id,
            },
            ServerMessage::Roster { members } => ServerMessageView::Roster { members: members@ },
            ServerMessage::MemberLeft { member_id } => ServerMessageView::MemberLeft {
                member_id: *member_id,
            },
            ServerMessage::Error { message } => ServerMessageView::Error { message: message@ },
            ServerMessage::Signal { from, signal } => ServerMessageView::Signal {
                from: *from,
                signal: *signal,
            },
        }
    }
}

/// A copy of a roster.
fn duplicate_summaries(members: &Vec<MemberSummary>) -> (copy: Vec<MemberSummary>)
    ensures
        copy@ == members@,
{
    let mut copy: Vec<MemberSummary> = Vec::new();
    let mut i: usize = 0;
    while i < members.len()
        invariant
            i <= members.len(),
            copy@ == members@.take(i as int),
        decreases members.len() - i,
    {
        copy.push(members[i].duplicate());
        proof {
            assert(members@.take(i + 1) == members@.take(i as int).push(members@[i as int]));
        }
        i = i + 1;
    }
    proof {
        assert(members@.take(members.len() as int) == members@);
    }
    copy
}

impl ServerMessage {
    /// A copy of this message.
    pub fn duplicate(&self) -> (m: ServerMessage)
        ensures
            m@ == self@,
    {
        match self {
            ServerMessage::Joined { member_id, room_id } => ServerMessage::Joined {
                member_id: *member_id,
                room_id: room_id.duplicate(),
            },
            ServerMessage::Roster { members } => ServerMessage::Roster {
                members: duplicate_summaries(members),
            },
            ServerMessage::MemberLeft { member_id } => ServerMessage::MemberLeft {
                member_id: *member_id,
            },
            ServerMessage::Error { message } => ServerMessage::Error { message: message.clone() },
            ServerMessage::Signal { from, signal } => ServerMessage::Signal {
                from: *from,
                signal: signal.duplicate(),
            },
        }
    }
}

} // verus!
