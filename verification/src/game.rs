//! The room registry: which rooms exist, what state each is in and who is in
//! which.

use crate::player::{is_version_4, random_uuid, Player};
use crate::registry::{
    admitted, admitted_to, applied_at, evicted, exclusive, first_open, fresh_room, has_space,
    index_of, is_member, joined, joined_at, left, lemma_admitted_exclusive, lemma_admitted_room,
    lemma_applied_isolated, lemma_evicted_exclusive, lemma_first_open, lemma_first_open_is,
    lemma_index_of, lemma_index_of_is, lemma_room_of, lemma_room_of_is, room_of, well_formed,
    with_room, Rooms, MAX_PLAYERS_PER_WORLD,
};
use crate::rooms::{
    entries, map_get_index, map_get_index_of, map_index_mut, map_insert, map_len, map_new, Room,
};
use crate::world::{Event, World};
use indexmap::IndexMap;
use std::collections::HashSet;
use vstd::prelude::*;
use vstd::std_specs::hash::spec_hash_keys_iter;
use vstd::std_specs::iter::IteratorSpec;

verus! {

/// Owner of every room and of the record of who is in which.
///
/// A registry is meant to sit behind one lock, taken for the length of one
/// call and never held across a send or a receive.
pub struct Game {
    rooms: IndexMap<u128, Room>,
}

impl View for Game {
    type V = Rooms;

    closed spec fn view(&self) -> Rooms {
        entries(self.rooms)
    }
}

impl Game {
    /// What every call below keeps true of the registry.
    pub open spec fn inv(&self) -> bool {
        well_formed(self@)
    }

    /// Whether no peer is in two rooms at once.
    pub open spec fn exclusive(&self) -> bool {
        exclusive(self@)
    }

    /// Whether the room known as `room` exists and holds `player`.
    pub open spec fn holds(&self, room: u128, player: u128) -> bool {
        &&& index_of(self@, room) matches Some(i)
        &&& self@[i].1.players.contains(player)
    }

    /// A registry without rooms.
    pub fn new() -> (game: Game)
        ensures
            game@ == Rooms::empty(),
            game.inv(),
            game.exclusive(),
    {
        Game { rooms: map_new() }
    }

    /// The oldest room with space left: its position and its identifier.
    fn first_open_room(&self) -> (found: Option<(usize, u128)>)
        ensures
            match found {
                Some((index, id)) => first_open(self@) == Some(index as int) && id
                    == self@[index as int].0,
                None => first_open(self@) is None,
            },
    {
        let len = map_len(&self.rooms);
        let mut index: usize = 0;
        while index < len
            invariant
                index <= len,
                len == self@.len(),
                forall|j: int| 0 <= j < index ==> !has_space((#[trigger] self@[j]).1),
            decreases len - index,
        {
            if let Some((id, room)) = map_get_index(&self.rooms, index) {
                if room.players.len() < MAX_PLAYERS_PER_WORLD {
                    proof {
                        lemma_first_open_is(self@, index as int);
                    }
                    return Some((index, id));
                }
            }
            index += 1;
        }
        proof {
            lemma_first_open(self@);
        }
        None
    }

    /// Stores a room in its starting state under `id`.
    fn add_world_with(&mut self, id: u128)
        requires
            old(self).inv(),
        ensures
            final(self).inv(),
            final(self)@ == with_room(old(self)@, id, fresh_room()),
    {
        proof {
            lemma_index_of(self@, id);
        }
        map_insert(&mut self.rooms, id, Room::new());
    }

    /// Creates a room under a freshly drawn identifier and returns the
    /// identifier.
    fn add_world(&mut self) -> (id: u128)
        requires
            old(self).inv(),
        ensures
            final(self).inv(),
            final(self)@ == with_room(old(self)@, id, fresh_room()),
            is_version_4(id),
    {
        let id = random_uuid();
        self.add_world_with(id);
        id
    }

    /// Puts `player` into the room at position `index`.
    fn join_at(&mut self, index: usize, player: Player)
        requires
            old(self).inv(),
            index < old(self)@.len(),
            has_space(old(self)@[index as int].1),
        ensures
            final(self).inv(),
            final(self)@ == joined_at(old(self)@, index as int, player@),
    {
        let room = map_index_mut(&mut self.rooms, index);
        room.players.insert(player.uuid());
    }

    /// Puts `player` into the room known as `id`.
    fn join(&mut self, id: u128, player: Player)
        requires
            old(self).inv(),
            index_of(old(self)@, id) is Some,
            has_space(old(self)@[index_of(old(self)@, id).unwrap()].1),
        ensures
            final(self).inv(),
            final(self)@ == joined_at(old(self)@, index_of(old(self)@, id).unwrap(), player@),
    {
        proof {
            lemma_index_of(self@, id);
        }
        if let Some(index) = map_get_index_of(&self.rooms, id) {
            self.join_at(index, player);
        }
    }

    /// Admits `player`, drawing the identifier of a new room where one is
    /// needed. See [`Game::add_player_with`] for what admission does; this
    /// function does the same with an identifier of its own choosing.
    pub fn add_player(&mut self, player: Player) -> (room: u128)
        requires
            old(self).inv(),
        ensures
            final(self).inv(),
            exists|fresh: u128|
                {
                    &&& final(self)@ == #[trigger] admitted(old(self)@, player@, fresh)
                    &&& room == admitted_to(old(self)@, fresh)
                    &&& first_open(old(self)@) is None ==> is_version_4(fresh)
                },
            final(self).holds(room, player@),
            old(self).exclusive() && !is_member(old(self)@, player@) ==> final(self).exclusive(),
    {
        proof {
            lemma_first_open(self@);
        }
        match self.first_open_room() {
            Some((index, room)) => {
                self.join_at(index, player);
                proof {
                    assert(self@ == admitted(old(self)@, player@, 0));
                    lemma_admitted_room(old(self)@, player@, 0);
                    if old(self).exclusive() && !is_member(old(self)@, player@) {
                        lemma_admitted_exclusive(old(self)@, player@, 0);
                    }
                }
                room
            },
            None => {
                let fresh = self.add_world();
                proof {
                    lemma_created(old(self)@, player@, fresh);
                }
                self.join(fresh, player);
                proof {
                    assert(self@ == admitted(old(self)@, player@, fresh));
                    lemma_admitted_room(old(self)@, player@, fresh);
                    if old(self).exclusive() && !is_member(old(self)@, player@) {
                        lemma_admitted_exclusive(old(self)@, player@, fresh);
                    }
                }
                fresh
            },
        }
    }

    /// Admits `player`: into the oldest room that holds fewer than
    /// [`MAX_PLAYERS_PER_WORLD`] peers, or, where every room is full, into a
    /// room created in its starting state under the identifier `fresh`.
    /// Returns the identifier of the room the peer is now in.
    ///
    /// `fresh` is not looked at where a room has space. Where it is already
    /// the identifier of a room, that room is reset: it keeps its place, goes
    /// back to the starting state and holds `player` alone.
    pub fn add_player_with(&mut self, player: Player, fresh: u128) -> (room: u128)
        requires
            old(self).inv(),
        ensures
            final(self).inv(),
            final(self)@ == admitted(old(self)@, player@, fresh),
            room == admitted_to(old(self)@, fresh),
            final(self).holds(room, player@),
            old(self).exclusive() && !is_member(old(self)@, player@) ==> final(self).exclusive(),
    {
        proof {
            lemma_first_open(self@);
            lemma_admitted_room(self@, player@, fresh);
            if self.exclusive() && !is_member(self@, player@) {
                lemma_admitted_exclusive(self@, player@, fresh);
            }
        }
        match self.first_open_room() {
            Some((index, room)) => {
                self.join_at(index, player);
                room
            },
            None => {
                self.add_world_with(fresh);
                proof {
                    lemma_created(old(self)@, player@, fresh);
                }
                self.join(fresh, player);
                fresh
            },
        }
    }

    /// Takes `player` out of every room that holds it. Where no room does,
    /// nothing changes.
    pub fn remove_player(&mut self, player: Player)
        requires
            old(self).inv(),
        ensures
            final(self).inv(),
            final(self)@ == evicted(old(self)@, player@),
            !is_member(final(self)@, player@),
            old(self).exclusive() ==> final(self).exclusive(),
    {
        let ghost before = self@;
        let uuid = player.uuid();
        let len = map_len(&self.rooms);
        let mut index: usize = 0;
        while index < len
            invariant
                index <= len,
                len == before.len(),
                self@.len() == before.len(),
                well_formed(before),
                uuid == player@,
                forall|k: int|
                    0 <= k < index ==> #[trigger] self@[k] == (before[k].0, left(before[k].1, uuid)),
                forall|k: int| index <= k < len ==> #[trigger] self@[k] == before[k],
            decreases len - index,
        {
            let room = map_index_mut(&mut self.rooms, index);
            room.players.remove(&uuid);
            index += 1;
        }
        assert(self@ =~= evicted(before, uuid));
        proof {
            lemma_evicted_exclusive(before, uuid);
        }
    }

    /// The identifier of the room that `player` is in: of the oldest such
    /// room, should there be several. `None` exactly when `player` is in no
    /// room.
    pub fn player_world(&self, player: &Player) -> (room: Option<u128>)
        ensures
            match room_of(self@, player@) {
                Some(i) => room == Some(self@[i].0),
                None => room is None,
            },
    {
        let uuid = player.uuid();
        let len = map_len(&self.rooms);
        let mut index: usize = 0;
        while index < len
            invariant
                index <= len,
                len == self@.len(),
                uuid == player@,
                forall|j: int| 0 <= j < index ==> !(#[trigger] self@[j]).1.players.contains(uuid),
            decreases len - index,
        {
            if let Some((id, room)) = map_get_index(&self.rooms, index) {
                if room.players.contains(&uuid) {
                    proof {
                        lemma_room_of_is(self@, uuid, index as int);
                    }
                    return Some(id);
                }
            }
            index += 1;
        }
        proof {
            lemma_room_of(self@, uuid);
        }
        None
    }

    /// Applies `event` to the state of the room known as `room` and returns
    /// the peers that are in that room at that moment, each once. No other
    /// room is touched. `None`, with nothing changed, exactly when there is
    /// no such room.
    pub fn apply_and_get(&mut self, room: u128, event: Event) -> (snapshot: Option<Vec<Player>>)
        requires
            old(self).inv(),
        ensures
            final(self).inv(),
            match index_of(old(self)@, room) {
                Some(i) => {
                    &&& final(self)@ == applied_at(old(self)@, i, event@)
                    &&& snapshot matches Some(list)
                    &&& is_snapshot(list@, old(self)@[i].1.players)
                },
                None => final(self)@ == old(self)@ && snapshot is None,
            },
            old(self).exclusive() ==> final(self).exclusive(),
    {
        proof {
            lemma_index_of(self@, room);
            match index_of(self@, room) {
                Some(i) => lemma_applied_isolated(self@, i, event@),
                None => {},
            }
        }
        match map_get_index_of(&self.rooms, room) {
            Some(index) => {
                let target = map_index_mut(&mut self.rooms, index);
                target.world.apply(event);
                Some(occupants(&target.players))
            },
            None => None,
        }
    }

    /// Applies an event that `player` sent: finds the room `player` is in,
    /// applies `event` to it and returns the room's identifier with the peers
    /// to relay the event to, the sender among them. `None`, with nothing
    /// changed, exactly when `player` is in no room.
    pub fn handle_message_from_player(&mut self, player: &Player, event: Event) -> (relay: Option<
        (u128, Vec<Player>),
    >)
        requires
            old(self).inv(),
        ensures
            final(self).inv(),
            match room_of(old(self)@, player@) {
                Some(i) => {
                    &&& final(self)@ == applied_at(old(self)@, i, event@)
                    &&& relay matches Some((room, list))
                    &&& room == old(self)@[i].0
                    &&& is_snapshot(list@, old(self)@[i].1.players)
                },
                None => final(self)@ == old(self)@ && relay is None,
            },
            old(self).exclusive() ==> final(self).exclusive(),
    {
        proof {
            lemma_room_of(self@, player@);
        }
        match self.player_world(player) {
            Some(room) => {
                proof {
                    lemma_index_of(self@, room);
                }
                match self.apply_and_get(room, event) {
                    Some(list) => Some((room, list)),
                    None => None,
                }
            },
            None => None,
        }
    }

    /// The peers in the room known as `room`, each once; `None` exactly when
    /// there is no such room.
    pub fn world_players(&self, room: u128) -> (snapshot: Option<Vec<Player>>)
        requires
            self.inv(),
        ensures
            match index_of(self@, room) {
                Some(i) => snapshot matches Some(list) && is_snapshot(list@, self@[i].1.players),
                None => snapshot is None,
            },
    {
        proof {
            lemma_index_of(self@, room);
        }
        match map_get_index_of(&self.rooms, room) {
            Some(index) => match map_get_index(&self.rooms, index) {
                Some((_, found)) => Some(occupants(&found.players)),
                None => None,
            },
            None => None,
        }
    }

    /// A copy of the state of the room known as `room`; `None` exactly when
    /// there is no such room.
    pub fn state_of(&self, room: u128) -> (state: Option<World>)
        requires
            self.inv(),
        ensures
            match index_of(self@, room) {
                Some(i) => state matches Some(world) && world@ == self@[i].1.world,
                None => state is None,
            },
    {
        proof {
            lemma_index_of(self@, room);
        }
        match map_get_index_of(&self.rooms, room) {
            Some(index) => match map_get_index(&self.rooms, index) {
                Some((_, found)) => Some(found.world.clone()),
                None => None,
            },
            None => None,
        }
    }
}

/// Whether `snapshot` lists exactly the peers in `players`, each once.
pub open spec fn is_snapshot(snapshot: Seq<Player>, players: Set<u128>) -> bool {
    &&& snapshot.no_duplicates()
    &&& forall|player: Player| snapshot.contains(player) <==> players.contains(player@)
}

/// The handles of the peers in `players`, each once, in no particular order.
fn occupants(players: &HashSet<u128>) -> (snapshot: Vec<Player>)
    ensures
        is_snapshot(snapshot@, players@),
{
    let mut snapshot: Vec<Player> = Vec::new();
    for uuid in it: players.iter()
        invariant
            it.seq() == spec_hash_keys_iter(players).remaining(),
            snapshot@.len() == it.index(),
            forall|k: int| 0 <= k < snapshot@.len() ==> (#[trigger] snapshot@[k])@ == *it.seq()[k],
    {
        snapshot.push(Player::from_uuid(*uuid));
    }
    proof {
        let all = spec_hash_keys_iter(players).remaining();
        assert(all.unref().to_set() == players@);
        assert forall|i: int, j: int|
            0 <= i < snapshot@.len() && 0 <= j < snapshot@.len() && i != j implies snapshot@[i]
            != snapshot@[j] by {
            assert(all[i] != all[j]);
        }
        assert forall|player: Player| snapshot@.contains(player) <==> players@.contains(
            player@,
        ) by {
            if snapshot@.contains(player) {
                let k = choose|k: int| 0 <= k < snapshot@.len() && snapshot@[k] == player;
                assert(all.unref()[k] == player@);
                assert(all.unref().to_set().contains(player@));
            }
            if players@.contains(player@) {
                assert(all.unref().to_set().contains(player@));
                let k = choose|k: int| 0 <= k < all.unref().len() && all.unref()[k] == player@;
                Player::lemma_identity(snapshot@[k], player);
                assert(snapshot@[k] == player);
            }
        }
    }
    snapshot
}

/// Creating a room under `fresh` and then letting `player` join it is
/// storing, under `fresh`, a room that holds `player` alone.
proof fn lemma_created(rooms: Rooms, player: u128, fresh: u128)
    requires
        well_formed(rooms),
    ensures
        index_of(with_room(rooms, fresh, fresh_room()), fresh) is Some,
        has_space(fresh_room()),
        with_room(rooms, fresh, fresh_room())[index_of(
            with_room(rooms, fresh, fresh_room()),
            fresh,
        ).unwrap()].1 == fresh_room(),
        joined_at(
            with_room(rooms, fresh, fresh_room()),
            index_of(with_room(rooms, fresh, fresh_room()), fresh).unwrap(),
            player,
        ) == with_room(rooms, fresh, joined(fresh_room(), player)),
{
    let created = with_room(rooms, fresh, fresh_room());
    lemma_index_of(rooms, fresh);
    match index_of(rooms, fresh) {
        Some(i) => {
            assert forall|j: int| 0 <= j < i implies (#[trigger] created[j]).0 != fresh by {
                assert(rooms[j].0 != fresh);
            }
            lemma_index_of_is(created, fresh, i);
        },
        None => {
            let i = rooms.len() as int;
            assert forall|j: int| 0 <= j < i implies (#[trigger] created[j]).0 != fresh by {
                assert(rooms[j].0 != fresh);
            }
            lemma_index_of_is(created, fresh, i);
        },
    }
}

} // verus!
