//! Plain values exchanged between the server and its clients.
use vstd::prelude::*;

verus! {

/// A change to one of the map's objects: whether the object at this index
/// of the map's object list still stands.
#[derive(Clone, Copy, PartialEq, Eq, Structural, Debug)]
pub struct ObjectUpdate {
    pub map_index: usize,
    pub alive: bool,
}

/// Hands out the player id held in `counter` and advances the counter, so
/// that every id handed out is new.
pub fn take_player_id(counter: &mut u32) -> (id: u32)
    requires
        *old(counter) < u32::MAX,
    ensures
        id == *old(counter),
        *final(counter) == *old(counter) + 1,
{
    let id = *counter;
    *counter = id + 1;
    id
}

} // verus!
