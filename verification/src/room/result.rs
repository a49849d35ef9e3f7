use vstd::prelude::*;

verus! {

/// Why a room refused a request.
#[derive(Debug, Clone, Copy, PartialEq, Eq, Structural)]
pub enum RoomError {
    /// The `auth` of a join differs from the room's key.
    AuthFailed,
    /// The member is already in the room (or, at a connection, in a room).
    JoinedTwice,
    /// The member named by a leave or a signal is not in the room.
    MemberNotExists,
}

impl RoomError {
    /// The text sent to a client for this error.
    pub open spec fn text(self) -> Seq<char> {
        match self {
            RoomError::AuthFailed => "Room auth failed"@,
            RoomError::JoinedTwice => "Already joined a room"@,
            RoomError::MemberNotExists => "Member not in room"@,
        }
    }

    /// The text sent to a client for this error, as a `String`.
    pub fn message(&self) -> (s: String)
        ensures
            s@ == self.text(),
    {
        match self {
            RoomError::AuthFailed => String::from_str("Room auth failed"),
            RoomError::JoinedTwice => String::from_str("Already joined a room"),
            RoomError::MemberNotExists => String::from_str("Member not in room"),
        }
    }
}

} // verus!
