use vstd::prelude::*;

use dashmap::DashMap;

use crate::room::id::RoomId;
use crate::room::{Room, RoomView};

verus! {

#[verifier::external_type_specification]
#[verifier::external_body]
#[verifier::reject_recursive_types(K)]
#[verifier::reject_recursive_types(V)]
#[verifier::reject_recursive_types(S)]
pub struct ExDashMap<K, V, S>(DashMap<K, V, S>);

/// The concurrent map that holds the rooms, keyed by room name.
pub type RoomTable = DashMap<String, Room>;

/// The rooms a `DashMap` holds: for each key, by its characters, the room
/// stored under it.
pub uninterp spec fn room_table(map: RoomTable) -> Map<Seq<char>, RoomView>;

/// `dashmap::DashMap::new`: a map that holds nothing.
#[verifier::external_body]
fn table_new() -> (table: RoomTable)
    ensures
        room_table(table).dom() == Set::<Seq<char>>::empty(),
{
    DashMap::new()
}

/// `dashmap::DashMap::get`, with the room under `key` copied out by its
/// derived `Clone` (which copies every member and the key of the room).
///
/// Claimed: `Some` exactly when the map holds `key`, with a copy of the room
/// stored under it. `String`'s `Eq` and `Hash` agree, so the lookup finds the
/// entry whose key has the same characters.
#[verifier::external_body]
fn table_get(map: &RoomTable, key: &String) -> (room: Option<Room>)
    ensures
        match room {
            Some(r) => room_table(*map).contains_key(key@) && r@ == room_table(*map)[key@],
            None => !room_table(*map).contains_key(key@),
        },
{
    match map.get(key) {
        Some(entry) => Some(entry.value().clone()),
        None => None,
    }
}

/// `dashmap::DashMap::insert`: afterwards `key` holds `room`, and every other
/// key holds what it held.
#[verifier::external_body]
fn table_insert(map: &mut RoomTable, key: String, room: Room)
    ensures
        room_table(*final(map)) == room_table(*old(map)).insert(key@, room@),
{
    map.insert(key, room);
}

/// `dashmap::DashMap::remove`: afterwards the map holds nothing under `key`,
/// and every other key holds what it held.
#[verifier::external_body]
fn table_remove(map: &mut RoomTable, key: &String)
    ensures
        room_table(*final(map)) == room_table(*old(map)).remove(key@),
{
    map.remove(key);
}

/// Every room is well formed and has at least one member: a room is removed
/// when its last member leaves.
pub open spec fn rooms_wf(rooms: Map<Seq<char>, RoomView>) -> bool {
    forall|k: Seq<char>|
        #[trigger] rooms.contains_key(k) ==> rooms[k].wf() && rooms[k].members.len() > 0
}

/// The rooms of the server, by name.
pub struct AppState {
    rooms: RoomTable,
}

impl AppState {
    /// The rooms, by the characters of their names.
    pub closed spec fn rooms_view(&self) -> Map<Seq<char>, RoomView> {
        room_table(self.rooms)
    }

    pub open spec fn wf(&self) -> bool {
        rooms_wf(self.rooms_view())
    }

    /// A server without rooms.
    pub fn new() -> (state: AppState)
        ensures
            state.rooms_view() == Map::<Seq<char>, RoomView>::empty(),
            state.wf(),
    {
        let state = AppState { rooms: table_new() };
        assert(state.rooms_view() =~= Map::<Seq<char>, RoomView>::empty());
        state
    }

    /// The table of rooms, shared. Verified code changes it only through
    /// `put_room` and `remove_room`, which keep the state well formed; the
    /// map itself can also be changed through this shared reference, and a
    /// caller that does so is answerable for keeping `wf` true.
    pub fn rooms(&self) -> (rooms: &RoomTable)
        ensures
            room_table(*rooms) == self.rooms_view(),
    {
        &self.rooms
    }

    /// A copy of the room named `room_id`, if there is one.
    pub fn room(&self, room_id: &RoomId) -> (room: Option<Room>)
        ensures
            match room {
                Some(r) => self.rooms_view().contains_key(room_id@) && r@ == self.rooms_view()[room_id@],
                None => !self.rooms_view().contains_key(room_id@),
            },
    {
        table_get(&self.rooms, &room_id.0)
    }

    /// Stores `room`, which has members, under `room_id`.
    pub fn put_room(&mut self, room_id: RoomId, room: Room)
        requires
            old(self).wf(),
            room.wf(),
            room@.members.len() > 0,
        ensures
            final(self).wf(),
            final(self).rooms_view() == old(self).rooms_view().insert(room_id@, room@),
    {
        let ghost k = room_id@;
        let ghost v = room@;
        table_insert(&mut self.rooms, room_id.0, room);
        proof {
            assert forall|j: Seq<char>| #[trigger] self.rooms_view().contains_key(j) implies
                self.rooms_view()[j].wf() && self.rooms_view()[j].members.len() > 0 by {
                if j != k {
                    assert(old(self).rooms_view().contains_key(j));
                }
            }
        }
    }

    /// Removes the room named `room_id`.
    pub fn remove_room(&mut self, room_id: &RoomId)
        requires
            old(self).wf(),
        ensures
            final(self).wf(),
            final(self).rooms_view() == old(self).rooms_view().remove(room_id@),
    {
        table_remove(&mut self.rooms, &room_id.0);
        proof {
            assert forall|j: Seq<char>| #[trigger] self.rooms_view().contains_key(j) implies
                self.rooms_view()[j].wf() && self.rooms_view()[j].members.len() > 0 by {
                assert(old(self).rooms_view().contains_key(j));
            }
        }
    }
}

impl Default for AppState {
    fn default() -> (state: AppState)
        ensures
            state.rooms_view() == Map::<Seq<char>, RoomView>::empty(),
            state.wf(),
    {
        AppState::new()
    }
}

} // verus!
