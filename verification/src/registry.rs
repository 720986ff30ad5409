//! The room registry as mathematics.
//!
//! A registry is the sequence of its rooms in creation order, each with its
//! identifier. The functions here say what admission, eviction and event
//! application do to that sequence; [`crate::game::Game`] is proved to do
//! exactly that, and the laws at the end hold of every registry.

use crate::rooms::RoomView;
use crate::world::{applied, applied_all, initial_world, EventView};
use vstd::prelude::*;

verus! {

/// The rooms of a registry, oldest first, each with its identifier.
pub type Rooms = Seq<(u128, RoomView)>;

/// The most peers one room holds.
pub const MAX_PLAYERS_PER_WORLD: usize = 3;

/// Whether one more peer fits into `room`.
pub open spec fn has_space(room: RoomView) -> bool {
    room.players.len() < MAX_PLAYERS_PER_WORLD
}

/// The least position at which `wanted` holds of the identifier and the
/// room, if there is one.
pub open spec fn first_where(rooms: Rooms, wanted: spec_fn(u128, RoomView) -> bool) -> Option<int>
    decreases rooms.len(),
{
    if rooms.len() == 0 {
        None
    } else {
        match first_where(rooms.drop_last(), wanted) {
            Some(i) => Some(i),
            None => if wanted(rooms.last().0, rooms.last().1) {
                Some(rooms.len() - 1)
            } else {
                None
            },
        }
    }
}

/// The condition "has space left".
pub open spec fn with_space() -> spec_fn(u128, RoomView) -> bool {
    |id: u128, room: RoomView| has_space(room)
}

/// The condition "is known as `id`".
pub open spec fn known_as(id: u128) -> spec_fn(u128, RoomView) -> bool {
    |key: u128, room: RoomView| key == id
}

/// The condition "holds `player`".
pub open spec fn holding(player: u128) -> spec_fn(u128, RoomView) -> bool {
    |id: u128, room: RoomView| room.players.contains(player)
}

/// The position of the oldest room with space left.
pub open spec fn first_open(rooms: Rooms) -> Option<int> {
    first_where(rooms, with_space())
}

/// The position of the room known as `id`.
pub open spec fn index_of(rooms: Rooms, id: u128) -> Option<int> {
    first_where(rooms, known_as(id))
}

/// The position of the oldest room that `player` is in.
pub open spec fn room_of(rooms: Rooms, player: u128) -> Option<int> {
    first_where(rooms, holding(player))
}

/// Whether `player` is in some room.
pub open spec fn is_member(rooms: Rooms, player: u128) -> bool {
    exists|i: int| 0 <= i < rooms.len() && (#[trigger] rooms[i]).1.players.contains(player)
}

/// A room as created: the starting state and nobody in it.
pub open spec fn fresh_room() -> RoomView {
    RoomView { world: initial_world(), players: Set::empty() }
}

/// `room` with `player` in it.
pub open spec fn joined(room: RoomView, player: u128) -> RoomView {
    RoomView { world: room.world, players: room.players.insert(player) }
}

/// `room` without `player`.
pub open spec fn left(room: RoomView, player: u128) -> RoomView {
    RoomView { world: room.world, players: room.players.remove(player) }
}

/// `rooms` with `room` stored under `id`: in the place of the room already
/// known as `id` if there is one, else as the newest room.
pub open spec fn with_room(rooms: Rooms, id: u128, room: RoomView) -> Rooms {
    match index_of(rooms, id) {
        Some(i) => rooms.update(i, (id, room)),
        None => rooms.push((id, room)),
    }
}

/// `rooms` after `player` has joined the room at position `i`.
pub open spec fn joined_at(rooms: Rooms, i: int, player: u128) -> Rooms {
    rooms.update(i, (rooms[i].0, joined(rooms[i].1, player)))
}

/// The registry after `player` has been admitted: into the oldest room with
/// space, or, where every room is full, into a room created under `fresh`.
pub open spec fn admitted(rooms: Rooms, player: u128, fresh: u128) -> Rooms {
    match first_open(rooms) {
        Some(i) => joined_at(rooms, i, player),
        None => with_room(rooms, fresh, joined(fresh_room(), player)),
    }
}

/// The identifier of the room that admission puts the peer into.
pub open spec fn admitted_to(rooms: Rooms, fresh: u128) -> u128 {
    match first_open(rooms) {
        Some(i) => rooms[i].0,
        None => fresh,
    }
}

/// The registry after `player` has been taken out of every room.
pub open spec fn evicted(rooms: Rooms, player: u128) -> Rooms {
    Seq::new(rooms.len(), |i: int| (rooms[i].0, left(rooms[i].1, player)))
}

/// The registry after `event` has been applied to the room at position `i`.
pub open spec fn applied_at(rooms: Rooms, i: int, event: EventView) -> Rooms {
    rooms.update(
        i,
        (rooms[i].0, RoomView { world: applied(rooms[i].1.world, event), players: rooms[i].1.players }),
    )
}

/// The registry after the events of `events` have been applied, first to
/// last, to the room at position `i`.
pub open spec fn applied_all_at(rooms: Rooms, i: int, events: Seq<EventView>) -> Rooms
    decreases events.len(),
{
    if events.len() == 0 {
        rooms
    } else {
        applied_at(applied_all_at(rooms, i, events.drop_last()), i, events.last())
    }
}

/// What holds of every registry: no identifier names two rooms, and no room
/// holds more peers than [`MAX_PLAYERS_PER_WORLD`].
pub open spec fn well_formed(rooms: Rooms) -> bool {
    &&& forall|i: int, j: int|
        0 <= i < j < rooms.len() ==> (#[trigger] rooms[i]).0 != (#[trigger] rooms[j]).0
    &&& forall|i: int|
        0 <= i < rooms.len() ==> {
            &&& (#[trigger] rooms[i]).1.players.finite()
            &&& rooms[i].1.players.len() <= MAX_PLAYERS_PER_WORLD
        }
}

/// Whether no peer is in two rooms at once.
pub open spec fn exclusive(rooms: Rooms) -> bool {
    forall|i: int, j: int, player: u128|
        #![trigger rooms[i].1.players.contains(player), rooms[j]]
        0 <= i < rooms.len() && 0 <= j < rooms.len() && i != j && rooms[i].1.players.contains(
            player,
        ) ==> !rooms[j].1.players.contains(player)
}

/// [`first_where`] finds the least position at which the condition holds,
/// and finds none only where it holds nowhere.
pub proof fn lemma_first_where(rooms: Rooms, wanted: spec_fn(u128, RoomView) -> bool)
    ensures
        match first_where(rooms, wanted) {
            Some(i) => {
                &&& 0 <= i < rooms.len()
                &&& wanted(rooms[i].0, rooms[i].1)
                &&& forall|j: int| 0 <= j < i ==> !wanted((#[trigger] rooms[j]).0, rooms[j].1)
            },
            None => forall|j: int|
                0 <= j < rooms.len() ==> !wanted((#[trigger] rooms[j]).0, rooms[j].1),
        },
    decreases rooms.len(),
{
    if rooms.len() > 0 {
        let front = rooms.drop_last();
        lemma_first_where(front, wanted);
        assert forall|j: int| 0 <= j < front.len() implies front[j] == rooms[j] by {}
        match first_where(front, wanted) {
            Some(i) => {
                assert(front[i] == rooms[i]);
                assert forall|j: int| 0 <= j < i implies !wanted(
                    (#[trigger] rooms[j]).0,
                    rooms[j].1,
                ) by {
                    assert(front[j] == rooms[j]);
                }
            },
            None => {
                assert forall|j: int| 0 <= j < rooms.len() - 1 implies !wanted(
                    (#[trigger] rooms[j]).0,
                    rooms[j].1,
                ) by {
                    assert(front[j] == rooms[j]);
                }
            },
        }
    }
}

/// A position at which the condition holds, with none before it, is the one
/// that [`first_where`] finds.
pub proof fn lemma_first_where_is(rooms: Rooms, wanted: spec_fn(u128, RoomView) -> bool, i: int)
    requires
        0 <= i < rooms.len(),
        wanted(rooms[i].0, rooms[i].1),
        forall|j: int| 0 <= j < i ==> !wanted((#[trigger] rooms[j]).0, rooms[j].1),
    ensures
        first_where(rooms, wanted) == Some(i),
{
    lemma_first_where(rooms, wanted);
    match first_where(rooms, wanted) {
        Some(k) => {
            if k < i {
                assert(!wanted(rooms[k].0, rooms[k].1));
            }
            if i < k {
                assert(!wanted(rooms[i].0, rooms[i].1));
            }
        },
        None => {
            assert(!wanted(rooms[i].0, rooms[i].1));
        },
    }
}

/// [`first_open`] finds the oldest room with space, and none only where
/// every room is full.
pub proof fn lemma_first_open(rooms: Rooms)
    ensures
        match first_open(rooms) {
            Some(i) => {
                &&& 0 <= i < rooms.len()
                &&& has_space(rooms[i].1)
                &&& forall|j: int| 0 <= j < i ==> !has_space((#[trigger] rooms[j]).1)
            },
            None => forall|j: int| 0 <= j < rooms.len() ==> !has_space((#[trigger] rooms[j]).1),
        },
{
    lemma_first_where(rooms, with_space());
}

/// The oldest room with space is the one that [`first_open`] finds.
pub proof fn lemma_first_open_is(rooms: Rooms, i: int)
    requires
        0 <= i < rooms.len(),
        has_space(rooms[i].1),
        forall|j: int| 0 <= j < i ==> !has_space((#[trigger] rooms[j]).1),
    ensures
        first_open(rooms) == Some(i),
{
    lemma_first_where_is(rooms, with_space(), i);
}

/// [`index_of`] finds the first room known as `id`, and none only where no
/// room is.
pub proof fn lemma_index_of(rooms: Rooms, id: u128)
    ensures
        match index_of(rooms, id) {
            Some(i) => {
                &&& 0 <= i < rooms.len()
                &&& rooms[i].0 == id
                &&& forall|j: int| 0 <= j < i ==> (#[trigger] rooms[j]).0 != id
            },
            None => forall|j: int| 0 <= j < rooms.len() ==> (#[trigger] rooms[j]).0 != id,
        },
{
    lemma_first_where(rooms, known_as(id));
}

/// The first room known as `id` is the one that [`index_of`] finds.
pub proof fn lemma_index_of_is(rooms: Rooms, id: u128, i: int)
    requires
        0 <= i < rooms.len(),
        rooms[i].0 == id,
        forall|j: int| 0 <= j < i ==> (#[trigger] rooms[j]).0 != id,
    ensures
        index_of(rooms, id) == Some(i),
{
    lemma_first_where_is(rooms, known_as(id), i);
}

/// [`room_of`] finds the oldest room that `player` is in, and none only
/// where `player` is in no room.
pub proof fn lemma_room_of(rooms: Rooms, player: u128)
    ensures
        match room_of(rooms, player) {
            Some(i) => {
                &&& 0 <= i < rooms.len()
                &&& rooms[i].1.players.contains(player)
                &&& forall|j: int| 0 <= j < i ==> !(#[trigger] rooms[j]).1.players.contains(player)
            },
            None => forall|j: int|
                0 <= j < rooms.len() ==> !(#[trigger] rooms[j]).1.players.contains(player),
        },
        room_of(rooms, player) is Some <==> is_member(rooms, player),
{
    lemma_first_where(rooms, holding(player));
}

/// The oldest room that `player` is in is the one that [`room_of`] finds.
pub proof fn lemma_room_of_is(rooms: Rooms, player: u128, i: int)
    requires
        0 <= i < rooms.len(),
        rooms[i].1.players.contains(player),
        forall|j: int| 0 <= j < i ==> !(#[trigger] rooms[j]).1.players.contains(player),
    ensures
        room_of(rooms, player) == Some(i),
{
    lemma_first_where_is(rooms, holding(player), i);
}

/// The registry after the peers of `players` have been admitted one after
/// another, the k-th with `fresh[k]` at hand for a new room.
pub open spec fn admitted_all(rooms: Rooms, players: Seq<u128>, fresh: Seq<u128>) -> Rooms
    recommends
        players.len() == fresh.len(),
    decreases players.len(),
{
    if players.len() == 0 {
        rooms
    } else {
        admitted(
            admitted_all(rooms, players.drop_last(), fresh.drop_last()),
            players.last(),
            fresh.last(),
        )
    }
}

/// Admission keeps the registry well formed: afterwards, as before, no room
/// holds more than [`MAX_PLAYERS_PER_WORLD`] peers.
pub proof fn lemma_admitted_well_formed(rooms: Rooms, player: u128, fresh: u128)
    requires
        well_formed(rooms),
    ensures
        well_formed(admitted(rooms, player, fresh)),
{
    lemma_first_open(rooms);
    lemma_index_of(rooms, fresh);
    let after = admitted(rooms, player, fresh);
    assert forall|i: int| 0 <= i < after.len() implies {
        &&& (#[trigger] after[i]).1.players.finite()
        &&& after[i].1.players.len() <= MAX_PLAYERS_PER_WORLD
    } by {
        if i < rooms.len() {
            assert(rooms[i].1.players.finite());
        }
    }
    assert forall|i: int, j: int| 0 <= i < j < after.len() implies (#[trigger] after[i]).0 != (
    #[trigger] after[j]).0 by {
        if j < rooms.len() {
            assert(rooms[i].0 != rooms[j].0);
        } else {
            assert(rooms[i].0 != fresh);
        }
    }
}

/// After admission the room that admission names exists, holds the admitted
/// peer and is within its capacity.
pub proof fn lemma_admitted_room(rooms: Rooms, player: u128, fresh: u128)
    requires
        well_formed(rooms),
    ensures
        index_of(admitted(rooms, player, fresh), admitted_to(rooms, fresh)) is Some,
        ({
            let after = admitted(rooms, player, fresh);
            let at = index_of(after, admitted_to(rooms, fresh)).unwrap();
            &&& 0 <= at < after.len()
            &&& after[at].0 == admitted_to(rooms, fresh)
            &&& after[at].1.players.contains(player)
            &&& after[at].1.players.len() <= MAX_PLAYERS_PER_WORLD
        }),
{
    lemma_first_open(rooms);
    lemma_index_of(rooms, fresh);
    lemma_admitted_well_formed(rooms, player, fresh);
    let after = admitted(rooms, player, fresh);
    lemma_index_of(after, admitted_to(rooms, fresh));
    let at = match first_open(rooms) {
        Some(i) => i,
        None => match index_of(rooms, fresh) {
            Some(j) => j,
            None => rooms.len() as int,
        },
    };
    assert(after[at].0 == admitted_to(rooms, fresh));
    assert(after[at].1.players.contains(player));
}

/// Whatever peers are admitted, in whatever order and number, no room ever
/// holds more than [`MAX_PLAYERS_PER_WORLD`] of them.
pub proof fn lemma_capacity_after_admissions(rooms: Rooms, players: Seq<u128>, fresh: Seq<u128>)
    requires
        well_formed(rooms),
        players.len() == fresh.len(),
    ensures
        well_formed(admitted_all(rooms, players, fresh)),
        forall|i: int|
            0 <= i < admitted_all(rooms, players, fresh).len() ==> (#[trigger] admitted_all(
                rooms,
                players,
                fresh,
            )[i]).1.players.len() <= MAX_PLAYERS_PER_WORLD,
    decreases players.len(),
{
    if players.len() > 0 {
        lemma_capacity_after_admissions(rooms, players.drop_last(), fresh.drop_last());
        lemma_admitted_well_formed(
            admitted_all(rooms, players.drop_last(), fresh.drop_last()),
            players.last(),
            fresh.last(),
        );
    }
}

/// Eviction keeps the registry well formed.
pub proof fn lemma_evicted_well_formed(rooms: Rooms, player: u128)
    requires
        well_formed(rooms),
    ensures
        well_formed(evicted(rooms, player)),
{
    let after = evicted(rooms, player);
    assert forall|i: int| 0 <= i < after.len() implies {
        &&& (#[trigger] after[i]).1.players.finite()
        &&& after[i].1.players.len() <= MAX_PLAYERS_PER_WORLD
    } by {
        assert(rooms[i].1.players.finite());
    }
    assert forall|i: int, j: int| 0 <= i < j < after.len() implies (#[trigger] after[i]).0 != (
    #[trigger] after[j]).0 by {
        assert(rooms[i].0 != rooms[j].0);
    }
}

/// Applying an event keeps the registry well formed.
pub proof fn lemma_applied_well_formed(rooms: Rooms, i: int, event: EventView)
    requires
        well_formed(rooms),
        0 <= i < rooms.len(),
    ensures
        well_formed(applied_at(rooms, i, event)),
{
    let after = applied_at(rooms, i, event);
    assert forall|k: int| 0 <= k < after.len() implies {
        &&& (#[trigger] after[k]).1.players.finite()
        &&& after[k].1.players.len() <= MAX_PLAYERS_PER_WORLD
    } by {
        assert(rooms[k].1.players.finite());
    }
    assert forall|k: int, j: int| 0 <= k < j < after.len() implies (#[trigger] after[k]).0 != (
    #[trigger] after[j]).0 by {
        assert(rooms[k].0 != rooms[j].0);
    }
}

/// A peer that is in no room is, once admitted, in exactly one: the room
/// whose identifier admission returns. Peers that were in at most one room
/// each still are.
pub proof fn lemma_admitted_exclusive(rooms: Rooms, player: u128, fresh: u128)
    requires
        well_formed(rooms),
        exclusive(rooms),
        !is_member(rooms, player),
    ensures
        exclusive(admitted(rooms, player, fresh)),
        room_of(admitted(rooms, player, fresh), player) is Some,
        admitted(rooms, player, fresh)[room_of(admitted(rooms, player, fresh), player).unwrap()].0
            == admitted_to(rooms, fresh),
        forall|j: int|
            0 <= j < admitted(rooms, player, fresh).len() && j != room_of(
                admitted(rooms, player, fresh),
                player,
            ).unwrap() ==> !(#[trigger] admitted(rooms, player, fresh)[j]).1.players.contains(player),
{
    lemma_first_open(rooms);
    lemma_index_of(rooms, fresh);
    let after = admitted(rooms, player, fresh);
    let at = match first_open(rooms) {
        Some(i) => i,
        None => match index_of(rooms, fresh) {
            Some(j) => j,
            None => rooms.len() as int,
        },
    };
    assert(after[at].1.players.contains(player));
    assert forall|j: int| 0 <= j < after.len() && j != at implies !(#[trigger] after[j]).1.players.contains(
        player,
    ) by {
        assert(after[j] == rooms[j]);
    }
    lemma_room_of_is(after, player, at);
    assert forall|i: int, j: int, other: u128|
        #![trigger after[i].1.players.contains(other), after[j]]
        0 <= i < after.len() && 0 <= j < after.len() && i != j && after[i].1.players.contains(
            other,
        ) implies !after[j].1.players.contains(other) by {
        if other != player {
            if i != at {
                assert(after[i] == rooms[i]);
            }
            if j != at {
                assert(after[j] == rooms[j]);
            }
            if i < rooms.len() && j < rooms.len() {
                if rooms[i].1.players.contains(other) {
                    assert(!rooms[j].1.players.contains(other));
                }
            }
        }
    }
}

/// Admission brings nobody into a room but the admitted peer.
pub proof fn lemma_admitted_members(rooms: Rooms, player: u128, fresh: u128, other: u128)
    requires
        other != player,
        is_member(admitted(rooms, player, fresh), other),
    ensures
        is_member(rooms, other),
{
    lemma_first_open(rooms);
    lemma_index_of(rooms, fresh);
    let after = admitted(rooms, player, fresh);
    let i = choose|i: int| 0 <= i < after.len() && (#[trigger] after[i]).1.players.contains(other);
    if i < rooms.len() && rooms[i].1.players.contains(other) {
    } else {
        assert(after[i].1.players.contains(other));
        assert(false);
    }
}

/// Peers that are admitted one after another, each of them new to the
/// registry and no two of them the same, are in exactly one room each: no
/// peer is ever in two rooms, and nobody is in a room who was not in one
/// before or has been admitted since.
pub proof fn lemma_exclusive_after_admissions(rooms: Rooms, players: Seq<u128>, fresh: Seq<u128>)
    requires
        well_formed(rooms),
        exclusive(rooms),
        players.len() == fresh.len(),
        players.no_duplicates(),
        forall|k: int| 0 <= k < players.len() ==> !is_member(rooms, #[trigger] players[k]),
    ensures
        exclusive(admitted_all(rooms, players, fresh)),
        forall|other: u128| #[trigger]
            is_member(admitted_all(rooms, players, fresh), other) ==> is_member(rooms, other)
                || players.contains(other),
    decreases players.len(),
{
    if players.len() > 0 {
        let before = admitted_all(rooms, players.drop_last(), fresh.drop_last());
        let last = players.last();
        lemma_exclusive_after_admissions(rooms, players.drop_last(), fresh.drop_last());
        lemma_capacity_after_admissions(rooms, players.drop_last(), fresh.drop_last());
        if is_member(before, last) {
            assert(!is_member(rooms, players[players.len() - 1]));
            assert(players.drop_last().contains(last));
            let k = choose|k: int|
                0 <= k < players.drop_last().len() && players.drop_last()[k] == last;
            assert(players[k] == players[players.len() - 1]);
            assert(false);
        }
        lemma_admitted_exclusive(before, last, fresh.last());
        let after = admitted(before, last, fresh.last());
        assert forall|other: u128| #[trigger] is_member(after, other) implies is_member(rooms, other)
            || players.contains(other) by {
            if other == last {
                assert(players[players.len() - 1] == other);
            } else {
                lemma_admitted_members(before, last, fresh.last(), other);
                if !is_member(rooms, other) {
                    assert(players.drop_last().contains(other));
                    let k = choose|k: int|
                        0 <= k < players.drop_last().len() && players.drop_last()[k] == other;
                    assert(players[k] == other);
                }
            }
        }
    }
}

/// Once a peer has been evicted it is in no room. Every other peer is in
/// the rooms it was in before, and in no others.
pub proof fn lemma_evicted_exclusive(rooms: Rooms, player: u128)
    ensures
        !is_member(evicted(rooms, player), player),
        room_of(evicted(rooms, player), player) is None,
        exclusive(rooms) ==> exclusive(evicted(rooms, player)),
        forall|i: int, other: u128|
            0 <= i < rooms.len() && other != player ==> (#[trigger] evicted(
                rooms,
                player,
            )[i].1.players.contains(other) <==> rooms[i].1.players.contains(other)),
{
    let after = evicted(rooms, player);
    lemma_room_of(after, player);
    if exclusive(rooms) {
        assert forall|i: int, j: int, other: u128|
            #![trigger after[i].1.players.contains(other), after[j]]
            0 <= i < after.len() && 0 <= j < after.len() && i != j && after[i].1.players.contains(
                other,
            ) implies !after[j].1.players.contains(other) by {
            assert(rooms[i].1.players.contains(other));
            assert(!rooms[j].1.players.contains(other));
        }
    }
}

/// Evicting a peer that is in no room changes nothing.
pub proof fn lemma_evicting_a_stranger(rooms: Rooms, player: u128)
    requires
        !is_member(rooms, player),
    ensures
        evicted(rooms, player) == rooms,
{
    let after = evicted(rooms, player);
    assert forall|i: int| 0 <= i < rooms.len() implies after[i] == rooms[i] by {
        assert(!rooms[i].1.players.contains(player));
        assert(rooms[i].1.players.remove(player) =~= rooms[i].1.players);
    }
    assert(after =~= rooms);
}

/// An event applied in one room changes that room's state and nothing else:
/// every other room keeps its state and its peers, and the room itself keeps
/// its identifier and its peers.
pub proof fn lemma_applied_isolated(rooms: Rooms, i: int, event: EventView)
    requires
        0 <= i < rooms.len(),
    ensures
        applied_at(rooms, i, event).len() == rooms.len(),
        forall|j: int|
            0 <= j < rooms.len() && j != i ==> #[trigger] applied_at(rooms, i, event)[j] == rooms[j],
        applied_at(rooms, i, event)[i].0 == rooms[i].0,
        applied_at(rooms, i, event)[i].1.players == rooms[i].1.players,
        applied_at(rooms, i, event)[i].1.world == applied(rooms[i].1.world, event),
        exclusive(rooms) ==> exclusive(applied_at(rooms, i, event)),
{
    let after = applied_at(rooms, i, event);
    if exclusive(rooms) {
        assert forall|a: int, b: int, other: u128|
            #![trigger after[a].1.players.contains(other), after[b]]
            0 <= a < after.len() && 0 <= b < after.len() && a != b && after[a].1.players.contains(
                other,
            ) implies !after[b].1.players.contains(other) by {
            assert(rooms[a].1.players.contains(other));
            assert(!rooms[b].1.players.contains(other));
        }
    }
}

/// Where no peer is in two rooms, the peers of one room are in no other:
/// what is relayed to the peers of the room at `i` reaches no peer of the
/// room at `j`.
pub proof fn lemma_relay_stays_in_room(rooms: Rooms, i: int, j: int, player: u128)
    requires
        exclusive(rooms),
        0 <= i < rooms.len(),
        0 <= j < rooms.len(),
        i != j,
        rooms[i].1.players.contains(player),
    ensures
        !rooms[j].1.players.contains(player),
{
}

/// The state of a room is what its events, applied in the order they
/// arrived, make of the state it had; events for one room leave every other
/// room, and the peers of all rooms, as they were.
pub proof fn lemma_room_state_is_cumulative(rooms: Rooms, i: int, events: Seq<EventView>)
    requires
        0 <= i < rooms.len(),
    ensures
        applied_all_at(rooms, i, events).len() == rooms.len(),
        applied_all_at(rooms, i, events)[i].0 == rooms[i].0,
        applied_all_at(rooms, i, events)[i].1.players == rooms[i].1.players,
        applied_all_at(rooms, i, events)[i].1.world == applied_all(rooms[i].1.world, events),
        forall|j: int|
            0 <= j < rooms.len() && j != i ==> #[trigger] applied_all_at(rooms, i, events)[j]
                == rooms[j],
    decreases events.len(),
{
    if events.len() > 0 {
        lemma_room_state_is_cumulative(rooms, i, events.drop_last());
    }
}

} // verus!
