use vstd::prelude::*;

verus! {

/// The name of a room, a plain string on the wire.
#[derive(Debug, Clone)]
pub struct RoomId(pub String);

impl View for RoomId {
    type V = Seq<char>;

    open spec fn view(&self) -> Seq<char> {
        self.0@
    }
}

impl RoomId {
    pub fn new(name: String) -> (id: RoomId)
        ensures
            id.0 == name,
    {
        RoomId(name)
    }

    pub fn as_str(&self) -> (s: &str)
        ensures
            s@ == self@,
    {
        self.0.as_str()
    }

    /// A copy of this id.
    pub fn duplicate(&self) -> (id: RoomId)
        ensures
            id == *self,
    {
        RoomId(self.0.clone())
    }

    /// Whether both ids name the same room.
    pub fn same_as(&self, other: &RoomId) -> (b: bool)
        ensures
            b == (self@ == other@),
    {
        self.0 == other.0
    }
}

} // verus!
