//! The state every room owns and the events that change it.

use vstd::prelude::*;

verus! {

/// Mathematical value of a [`World`].
pub struct WorldView {
    pub count: int,
    pub text: Seq<char>,
}

/// Mathematical value of an [`Event`].
pub enum EventView {
    World(WorldView),
    Increment,
    Decrement,
    Text { s: Seq<char> },
    GameOver,
}

/// The authoritative state of one room: a counter and a short text.
#[derive(Debug, PartialEq, Eq)]
pub struct World {
    pub count: i32,
    pub text: String,
}

/// A request to change a [`World`].
///
/// An event names no room and no sender; both come from the connection that
/// delivered it.
#[derive(Debug, PartialEq, Eq)]
pub enum Event {
    /// Replace the whole state.
    World(World),
    /// Add one to the counter.
    Increment,
    /// Take one from the counter.
    Decrement,
    /// Replace the text and keep the counter.
    Text { s: String },
    /// End-of-session marker; it leaves the state as it is.
    GameOver,
}

impl View for World {
    type V = WorldView;

    open spec fn view(&self) -> WorldView {
        WorldView { count: self.count as int, text: self.text@ }
    }
}

impl View for Event {
    type V = EventView;

    open spec fn view(&self) -> EventView {
        match *self {
            Event::World(w) => EventView::World(w@),
            Event::Increment => EventView::Increment,
            Event::Decrement => EventView::Decrement,
            Event::Text { s } => EventView::Text { s: s@ },
            Event::GameOver => EventView::GameOver,
        }
    }
}

/// The counter a fresh room starts with.
pub const INITIAL_COUNT: i32 = 3;

/// The text a fresh room starts with.
pub open spec fn initial_text() -> Seq<char> {
    seq!['h', 'e', 'l', 'l', 'o']
}

/// The state a fresh room starts with.
pub open spec fn initial_world() -> WorldView {
    WorldView { count: INITIAL_COUNT as int, text: initial_text() }
}

/// The counter after one increment. The counter is a 32-bit two's complement
/// number: one past the largest value is the smallest.
pub open spec fn count_up(count: int) -> int {
    if count == i32::MAX {
        i32::MIN as int
    } else {
        count + 1
    }
}

/// The counter after one decrement: one below the smallest value is the
/// largest.
pub open spec fn count_down(count: int) -> int {
    if count == i32::MIN {
        i32::MAX as int
    } else {
        count - 1
    }
}

/// The state that follows `world` once `event` has been applied.
pub open spec fn applied(world: WorldView, event: EventView) -> WorldView {
    match event {
        EventView::World(next) => next,
        EventView::Increment => WorldView { count: count_up(world.count), text: world.text },
        EventView::Decrement => WorldView { count: count_down(world.count), text: world.text },
        EventView::Text { s } => WorldView { count: world.count, text: s },
        EventView::GameOver => world,
    }
}

/// The state that follows `world` once every event of `events` has been
/// applied, first to last.
pub open spec fn applied_all(world: WorldView, events: Seq<EventView>) -> WorldView
    decreases events.len(),
{
    if events.len() == 0 {
        world
    } else {
        applied(applied_all(world, events.drop_last()), events.last())
    }
}

impl Clone for World {
    fn clone(&self) -> (copy: World)
        ensures
            copy == *self,
    {
        World { count: self.count, text: self.text.clone() }
    }
}

impl Clone for Event {
    fn clone(&self) -> (copy: Event)
        ensures
            copy == *self,
    {
        match self {
            Event::World(w) => Event::World(w.clone()),
            Event::Increment => Event::Increment,
            Event::Decrement => Event::Decrement,
            Event::Text { s } => Event::Text { s: s.clone() },
            Event::GameOver => Event::GameOver,
        }
    }
}

impl World {
    /// The state of a room that no event has reached yet.
    pub fn new() -> (world: World)
        ensures
            world@ == initial_world(),
    {
        let text = "hello".to_owned();
        proof {
            reveal_strlit("hello");
            assert(text@ =~= initial_text());
        }
        World { count: INITIAL_COUNT, text }
    }

    /// Applies `event` in place. Every event is accepted and none fails.
    pub fn apply(&mut self, event: Event)
        ensures
            final(self)@ == applied(old(self)@, event@),
    {
        match event {
            Event::World(w) => {
                *self = w;
            },
            Event::Increment => {
                self.count = self.count.wrapping_add(1);
            },
            Event::Decrement => {
                self.count = self.count.wrapping_sub(1);
            },
            Event::Text { s } => {
                self.text = s;
            },
            Event::GameOver => {},
        }
    }
}

impl Default for World {
    fn default() -> (world: World)
        ensures
            world@ == initial_world(),
    {
        World::new()
    }
}

/// The state that follows `world` once `event` has been applied, as a value.
///
/// A replica that mirrors a room calls this with the events the room relays
/// and stays equal to the room's own state.
pub fn apply_event(world: World, event: Event) -> (next: World)
    ensures
        next@ == applied(world@, event@),
{
    let mut next = world;
    next.apply(event);
    next
}

/// An increment followed by a decrement restores the state.
pub proof fn lemma_increment_then_decrement(s: World)
    ensures
        applied(applied(s@, EventView::Increment), EventView::Decrement) == s@,
{
}

/// A decrement followed by an increment restores the state.
pub proof fn lemma_decrement_then_increment(s: World)
    ensures
        applied(applied(s@, EventView::Decrement), EventView::Increment) == s@,
{
}

/// A full-state replacement yields the supplied state, whatever came before.
pub proof fn lemma_replace_discards(s: WorldView, t: WorldView)
    ensures
        applied(s, EventView::World(t)) == t,
{
}

/// An increment and a decrement cancel in either order, so two peers that
/// send one each leave the counter where it was.
pub proof fn lemma_increment_and_decrement_commute(s: World)
    ensures
        applied(applied(s@, EventView::Increment), EventView::Decrement) == applied(
            applied(s@, EventView::Decrement),
            EventView::Increment,
        ),
{
}

/// Every event but a full replacement keeps what it does not name: an
/// increment, a decrement and the end marker keep the text, a new text and
/// the end marker keep the counter.
pub proof fn lemma_applied_keeps_the_rest(s: WorldView, event: EventView)
    ensures
        event is Increment || event is Decrement || event is GameOver ==> applied(s, event).text
            == s.text,
        event is Text || event is GameOver ==> applied(s, event).count == s.count,
{
}

} // verus!
