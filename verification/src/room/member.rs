use vstd::prelude::*;

verus! {

/// Whether `value` carries the version and variant bits of a version 7 UUID
/// (RFC 9562): the version nibble is 7 and the variant bits are `10`.
pub open spec fn is_uuid_v7(value: u128) -> bool {
    &&& (value >> 76u128) & 0xfu128 == 7
    &&& (value >> 62u128) & 0x3u128 == 2
}

/// The identity of a member, a UUID held as its 128-bit big-endian value.
/// Routing depends on this id alone, never on the display name.
#[derive(Debug, Clone, Copy, PartialEq, Eq, Hash, Structural)]
pub struct MemberId(pub u128);

/// A fresh version 7 UUID from `uuid::Uuid::now_v7`, as its 128-bit value.
///
/// The UUID depends on the clock and on random bits, so nothing is claimed of
/// it but that it carries the version 7 layout, which `uuid`'s encoder
/// (`encode_unix_timestamp_millis`) always writes.
#[verifier::external_body]
fn fresh_v7_value() -> (value: u128)
    ensures
        is_uuid_v7(value),
{
    uuid::Uuid::now_v7().as_u128()
}

impl MemberId {
    /// A new, time-ordered member id.
    pub fn new() -> (id: MemberId)
        ensures
            is_uuid_v7(id.0),
    {
        MemberId(fresh_v7_value())
    }
}

impl Default for MemberId {
    fn default() -> (id: MemberId)
        ensures
            is_uuid_v7(id.0),
    {
        MemberId::new()
    }
}

} // verus!

verus! {

/// A member of a room: its id and the display name it joined with.
#[derive(Debug, Clone)]
pub struct Member {
    pub id: MemberId,
    pub username: String,
}

impl Member {
    pub fn new(id: MemberId, username: String) -> (m: Member)
        ensures
            m.id == id,
            m.username == username,
    {
        Member { id, username }
    }

    /// A copy of this member.
    pub fn duplicate(&self) -> (m: Member)
        ensures
            m == *self,
    {
        Member { id: self.id, username: self.username.clone() }
    }
}

} // verus!
