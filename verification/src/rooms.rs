//! One room, and the insertion-ordered map that holds all of them.
//!
//! The map is `indexmap::IndexMap`. Verus does not look inside it: what it
//! holds is named by [`entries`], and each method the registry calls is
//! reached through one function below whose contract is taken on trust from
//! the map's documentation.

use crate::world::{World, WorldView};
use indexmap::IndexMap;
use std::collections::hash_map::RandomState;
use std::collections::HashSet;
use vstd::prelude::*;

verus! {

/// Mathematical value of a [`Room`].
pub struct RoomView {
    pub world: WorldView,
    pub players: Set<u128>,
}

/// An isolated group of peers that share one state: the state, and the
/// identifiers of the peers in the room.
pub struct Room {
    pub world: World,
    pub players: HashSet<u128>,
}

impl View for Room {
    type V = RoomView;

    open spec fn view(&self) -> RoomView {
        RoomView { world: self.world@, players: self.players@ }
    }
}

impl Room {
    /// A room in its starting state with nobody in it.
    pub fn new() -> (room: Room)
        ensures
            room@ == (RoomView { world: crate::world::initial_world(), players: Set::empty() }),
    {
        Room { world: World::new(), players: HashSet::new() }
    }
}

/// `indexmap::IndexMap`, taken as a type Verus cannot see into.
#[verifier::external_type_specification]
#[verifier::external_body]
#[verifier::reject_recursive_types(K)]
#[verifier::reject_recursive_types(V)]
#[verifier::reject_recursive_types(S)]
pub struct ExIndexMap<K, V, S>(IndexMap<K, V, S>);

/// The key-value pairs of `map` in the map's own order, which is the order
/// in which the keys were first inserted; each room stands by its value.
pub uninterp spec fn entries(map: IndexMap<u128, Room, RandomState>) -> Seq<(u128, RoomView)>;

/// `IndexMap::new`: a map that holds nothing.
#[verifier::external_body]
pub(crate) fn map_new() -> (map: IndexMap<u128, Room>)
    ensures
        entries(map) == Seq::<(u128, RoomView)>::empty(),
{
    IndexMap::new()
}

/// `IndexMap::len`: the number of key-value pairs.
#[verifier::external_body]
pub(crate) fn map_len(map: &IndexMap<u128, Room>) -> (len: usize)
    ensures
        len == entries(*map).len(),
{
    map.len()
}

/// `IndexMap::insert`, with the value it returns let go.
///
/// Where the key is already in the map, the pair keeps its place and only
/// its value is replaced. Where it is not, the pair is added last.
#[verifier::external_body]
pub(crate) fn map_insert(map: &mut IndexMap<u128, Room>, id: u128, room: Room)
    ensures
        forall|i: int|
            0 <= i < entries(*old(map)).len() && (#[trigger] entries(*old(map))[i]).0 == id
                ==> entries(*final(map)) == entries(*old(map)).update(i, (id, room@)),
        (forall|i: int|
            0 <= i < entries(*old(map)).len() ==> (#[trigger] entries(*old(map))[i]).0 != id)
            ==> entries(*final(map)) == entries(*old(map)).push((id, room@)),
{
    map.insert(id, room);
}

/// `IndexMap::get_index`: the pair at position `index`, the key copied out;
/// `None` exactly when `index` is not below the length.
#[verifier::external_body]
pub(crate) fn map_get_index(map: &IndexMap<u128, Room>, index: usize) -> (entry: Option<
    (u128, &Room),
>)
    ensures
        match entry {
            Some((id, room)) => index < entries(*map).len() && (id, room@) == entries(
                *map,
            )[index as int],
            None => index >= entries(*map).len(),
        },
{
    map.get_index(index).map(|(id, room)| (*id, room))
}

/// `IndexMap::get_index_of`: the position of the pair whose key is `id`;
/// `None` exactly when no pair has that key.
#[verifier::external_body]
pub(crate) fn map_get_index_of(map: &IndexMap<u128, Room>, id: u128) -> (index: Option<usize>)
    ensures
        match index {
            Some(i) => i < entries(*map).len() && entries(*map)[i as int].0 == id,
            None => forall|j: int|
                0 <= j < entries(*map).len() ==> (#[trigger] entries(*map)[j]).0 != id,
        },
{
    map.get_index_of(&id)
}

/// `IndexMut<usize>` of `IndexMap`: the value at position `index`, to be
/// changed in place. The key and every other pair stay as they are, and the
/// pair at `index` ends up with whatever value the borrow leaves behind.
///
/// The outside method panics on an index that is not below the length.
#[verifier::external_body]
pub(crate) fn map_index_mut(map: &mut IndexMap<u128, Room>, index: usize) -> (room: &mut Room)
    requires
        index < entries(*old(map)).len(),
    ensures
        room@ == entries(*old(map))[index as int].1,
        entries(*final(map)) == entries(*old(map)).update(
            index as int,
            (entries(*old(map))[index as int].0, final(room)@),
        ),
{
    &mut map[index]
}

} // verus!
