//! The life of one connection, as a state machine.
//!
//! Whoever owns the socket drives the machine: it calls [`Session::join`]
//! once the connection stands, then hands every inbound frame to
//! [`Session::on_frame`] and carries out the [`Reaction`] that comes back.
//! The machine itself never waits and never sends.

use crate::game::{is_snapshot, Game};
use crate::player::{is_version_4, Player};
use crate::registry::{
    admitted, admitted_to, applied_at, evicted, exclusive, first_open, index_of, is_member,
    lemma_room_of, room_of, Rooms,
};
use crate::world::{Event, EventView};
use vstd::prelude::*;

verus! {

/// Where a connection stands.
#[derive(Clone, Copy, Debug, PartialEq, Eq, Structural)]
pub enum Phase {
    /// Accepted, not yet in a room.
    Connecting,
    /// In a room; the room's state is on its way to the peer.
    Joined,
    /// Receiving and relaying events.
    Active,
    /// Over: the peer closed the connection or the inbound stream failed.
    Closed,
}

/// Why a call on a session was refused.
#[derive(Clone, Copy, Debug, PartialEq, Eq, Structural)]
pub enum SessionError {
    /// The call does not fit the phase the session is in.
    WrongPhase,
    /// The peer sent an event but is in no room.
    NoRoom,
}

/// One inbound frame, as far as the session cares.
#[derive(Debug, PartialEq, Eq)]
pub enum Frame {
    /// An application message that decoded as an event.
    Event(Event),
    /// An application message that did not decode as an event.
    Garbled,
    /// A keepalive request with its payload.
    Ping(Vec<u8>),
    /// A keepalive answer, whether asked for or not.
    Pong(Vec<u8>),
    /// The peer closes the connection.
    Close,
    /// The inbound stream itself failed or ended.
    Failed,
}

/// Mathematical value of a [`Frame`].
pub enum FrameView {
    Event(EventView),
    Garbled,
    Ping(Seq<u8>),
    Pong(Seq<u8>),
    Close,
    Failed,
}

impl View for Frame {
    type V = FrameView;

    open spec fn view(&self) -> FrameView {
        match *self {
            Frame::Event(event) => FrameView::Event(event@),
            Frame::Garbled => FrameView::Garbled,
            Frame::Ping(payload) => FrameView::Ping(payload@),
            Frame::Pong(payload) => FrameView::Pong(payload@),
            Frame::Close => FrameView::Close,
            Frame::Failed => FrameView::Failed,
        }
    }
}

/// What the owner of the socket is to do after a call.
#[derive(Debug, PartialEq, Eq)]
pub enum Reaction {
    /// Send `event` once to each peer in `to`. The peers are those of the
    /// room known as `room`.
    Relay { room: u128, to: Vec<Player>, event: Event },
    /// Answer the peer's ping with a pong that carries `payload`.
    Pong { payload: Vec<u8> },
    /// Send nothing.
    Nothing,
}

/// What a call asks to be sent, with the receivers as a set.
pub enum Reply {
    Relay { room: u128, to: Set<u128>, event: EventView },
    Pong { payload: Seq<u8> },
    Nothing,
}

/// The registry, the phase and the answer after a frame.
pub struct Outcome {
    pub rooms: Rooms,
    pub phase: Phase,
    pub reply: Result<Reply, SessionError>,
}

/// Whether frames are taken in `phase`.
pub open spec fn is_live(phase: Phase) -> bool {
    phase is Joined || phase is Active
}

/// What a frame from `player` does.
///
/// Outside the live phases nothing happens and the call is refused. In them:
/// an event is applied to the room of `player` and relayed to everyone in
/// that room, the sender among them; a frame that is no event is dropped; a
/// ping is answered with its own payload; a pong is ignored; a close, like a
/// failure of the stream, takes `player` out of its room and ends the
/// session.
pub open spec fn received(rooms: Rooms, phase: Phase, player: u128, frame: FrameView) -> Outcome {
    if !is_live(phase) {
        Outcome { rooms, phase, reply: Err(SessionError::WrongPhase) }
    } else {
        match frame {
            FrameView::Event(event) => match room_of(rooms, player) {
                Some(i) => Outcome {
                    rooms: applied_at(rooms, i, event),
                    phase: Phase::Active,
                    reply: Ok(Reply::Relay { room: rooms[i].0, to: rooms[i].1.players, event }),
                },
                None => Outcome { rooms, phase, reply: Err(SessionError::NoRoom) },
            },
            FrameView::Garbled => Outcome { rooms, phase: Phase::Active, reply: Ok(Reply::Nothing) },
            FrameView::Ping(payload) => Outcome {
                rooms,
                phase: Phase::Active,
                reply: Ok(Reply::Pong { payload }),
            },
            FrameView::Pong(_) => Outcome { rooms, phase: Phase::Active, reply: Ok(Reply::Nothing) },
            FrameView::Close | FrameView::Failed => Outcome {
                rooms: evicted(rooms, player),
                phase: Phase::Closed,
                reply: Ok(Reply::Nothing),
            },
        }
    }
}

/// Whether `reaction` asks for exactly what `reply` says: the same kind of
/// answer with the same content, and, for a relay, every receiver listed
/// once.
pub open spec fn answers(
    reaction: Result<Reaction, SessionError>,
    reply: Result<Reply, SessionError>,
) -> bool {
    match reply {
        Ok(Reply::Relay { room, to, event }) => {
            &&& reaction matches Ok(Reaction::Relay { room: r, to: list, event: e })
            &&& r == room
            &&& is_snapshot(list@, to)
            &&& e@ == event
        },
        Ok(Reply::Pong { payload }) => {
            &&& reaction matches Ok(Reaction::Pong { payload: p })
            &&& p@ == payload
        },
        Ok(Reply::Nothing) => reaction == Ok::<Reaction, SessionError>(Reaction::Nothing),
        Err(error) => reaction == Err::<Reaction, SessionError>(error),
    }
}

/// The greeting a peer gets on joining `room`: the room's whole state, as a
/// replacement of whatever the peer held before.
pub open spec fn greeting(rooms: Rooms, room: u128) -> EventView {
    EventView::World(rooms[index_of(rooms, room).unwrap()].1.world)
}

/// Mathematical value of a [`Session`].
pub struct SessionView {
    pub player: u128,
    pub phase: Phase,
}

/// One connection: the peer's handle and the phase the connection is in.
pub struct Session {
    player: Player,
    phase: Phase,
}

impl View for Session {
    type V = SessionView;

    closed spec fn view(&self) -> SessionView {
        SessionView { player: self.player@, phase: self.phase }
    }
}

impl Session {
    /// A session for `player`, not yet in a room.
    pub fn new(player: Player) -> (session: Session)
        ensures
            session@ == (SessionView { player: player@, phase: Phase::Connecting }),
    {
        Session { player, phase: Phase::Connecting }
    }

    /// The peer this session belongs to.
    pub fn player(&self) -> (player: Player)
        ensures
            player@ == self@.player,
    {
        self.player
    }

    /// The phase the session is in.
    pub fn phase(&self) -> (phase: Phase)
        ensures
            phase == self@.phase,
    {
        self.phase
    }

    /// Whether the session is over.
    pub fn is_closed(&self) -> (closed: bool)
        ensures
            closed == (self@.phase is Closed),
    {
        match self.phase {
            Phase::Closed => true,
            _ => false,
        }
    }

    /// Admits the peer to a room and asks for the room's state to be sent to
    /// it, so that it starts from what the room holds.
    ///
    /// Only a connecting session joins; any other is refused with
    /// [`SessionError::WrongPhase`] and nothing changes. The room is chosen
    /// as [`Game::add_player`] chooses it, and a new room gets an identifier
    /// drawn for the occasion.
    pub fn join(&mut self, game: &mut Game) -> (reaction: Result<Reaction, SessionError>)
        requires
            old(game).inv(),
        ensures
            final(game).inv(),
            final(self)@.player == old(self)@.player,
            old(self)@.phase is Connecting ==> {
                &&& final(self)@.phase is Joined
                &&& exists|fresh: u128|
                    {
                        &&& final(game)@ == #[trigger] admitted(
                            old(game)@,
                            old(self)@.player,
                            fresh,
                        )
                        &&& first_open(old(game)@) is None ==> is_version_4(fresh)
                        &&& reaction matches Ok(Reaction::Relay { room, to, event })
                        &&& room == admitted_to(old(game)@, fresh)
                        &&& is_snapshot(to@, set![old(self)@.player])
                        &&& event@ == greeting(final(game)@, room)
                    }
            },
            !(old(self)@.phase is Connecting) ==> {
                &&& final(self)@ == old(self)@
                &&& final(game)@ == old(game)@
                &&& reaction == Err::<Reaction, SessionError>(SessionError::WrongPhase)
            },
            old(game).exclusive() && !is_member(old(game)@, old(self)@.player)
                ==> final(game).exclusive(),
    {
        match self.phase {
            Phase::Connecting => {
                let room = game.add_player(self.player);
                match game.state_of(room) {
                    Some(world) => {
                        self.phase = Phase::Joined;
                        let mut to: Vec<Player> = Vec::new();
                        to.push(self.player);
                        proof {
                            assert forall|other: Player| to@.contains(other) <==> set![
                                self.player@,
                            ].contains(other@) by {
                                Player::lemma_identity(other, self.player);
                                if other == self.player {
                                    assert(to@[0] == other);
                                }
                            }
                        }
                        Ok(Reaction::Relay { room, to, event: Event::World(world) })
                    },
                    None => Err(SessionError::NoRoom),
                }
            },
            _ => Err(SessionError::WrongPhase),
        }
    }

    /// Takes one inbound frame and says what to send. What happens is
    /// [`received`]: the registry and the phase end up as it says, and the
    /// reaction asks for what it says.
    pub fn on_frame(&mut self, game: &mut Game, frame: Frame) -> (reaction: Result<
        Reaction,
        SessionError,
    >)
        requires
            old(game).inv(),
        ensures
            final(game).inv(),
            final(self)@.player == old(self)@.player,
            final(game)@ == received(old(game)@, old(self)@.phase, old(self)@.player, frame@).rooms,
            final(self)@.phase == received(
                old(game)@,
                old(self)@.phase,
                old(self)@.player,
                frame@,
            ).phase,
            answers(
                reaction,
                received(old(game)@, old(self)@.phase, old(self)@.player, frame@).reply,
            ),
            old(game).exclusive() ==> final(game).exclusive(),
    {
        match self.phase {
            Phase::Joined | Phase::Active => {},
            _ => {
                return Err(SessionError::WrongPhase);
            },
        }
        match frame {
            Frame::Event(event) => {
                proof {
                    lemma_room_of(game@, self.player@);
                }
                let copy = event.clone();
                match game.handle_message_from_player(&self.player, copy) {
                    Some((room, to)) => {
                        self.phase = Phase::Active;
                        Ok(Reaction::Relay { room, to, event })
                    },
                    None => Err(SessionError::NoRoom),
                }
            },
            Frame::Garbled => {
                self.phase = Phase::Active;
                Ok(Reaction::Nothing)
            },
            Frame::Ping(payload) => {
                self.phase = Phase::Active;
                Ok(Reaction::Pong { payload })
            },
            Frame::Pong(_) => {
                self.phase = Phase::Active;
                Ok(Reaction::Nothing)
            },
            Frame::Close => {
                game.remove_player(self.player);
                self.phase = Phase::Closed;
                Ok(Reaction::Nothing)
            },
            Frame::Failed => {
                game.remove_player(self.player);
                self.phase = Phase::Closed;
                Ok(Reaction::Nothing)
            },
        }
    }
}

/// An event from a member of a room is relayed to the peers that are in
/// that room when it is applied: each of them is listed exactly once, and
/// nobody else is listed at all.
pub proof fn lemma_relay_reaches_each_occupant_once(
    rooms: Rooms,
    phase: Phase,
    player: u128,
    event: EventView,
    reaction: Result<Reaction, SessionError>,
)
    requires
        is_live(phase),
        is_member(rooms, player),
        answers(reaction, received(rooms, phase, player, FrameView::Event(event)).reply),
    ensures
        room_of(rooms, player) is Some,
        reaction matches Ok(Reaction::Relay { room, to, event: relayed }) && {
            let i = room_of(rooms, player).unwrap();
            &&& room == rooms[i].0
            &&& relayed@ == event
            &&& forall|peer: Player|
                rooms[i].1.players.contains(peer@) ==> #[trigger] to@.to_multiset().count(peer)
                    == 1
            &&& forall|peer: Player|
                !rooms[i].1.players.contains(peer@) ==> #[trigger] to@.to_multiset().count(peer)
                    == 0
        },
{
    lemma_room_of(rooms, player);
    match reaction {
        Ok(Reaction::Relay { room, to, event: relayed }) => {
            to@.lemma_multiset_has_no_duplicates();
            assert forall|peer: Player| #[trigger] to@.to_multiset().count(peer) == (if to@.contains(
                peer,
            ) {
                1nat
            } else {
                0nat
            }) by {
                to@.to_multiset_ensures();
                if !to@.contains(peer) {
                    assert(!to@.to_multiset().contains(peer));
                }
            }
        },
        _ => {},
    }
}

/// A frame changes no room but the sender's: an event changes the state of
/// the oldest room the sender is in, a close or a failure takes the sender
/// out of its rooms, and every room without the sender is after the frame
/// what it was before. Where no peer is in two rooms, nobody in such a room
/// is among the receivers.
pub proof fn lemma_frame_stays_in_room(
    rooms: Rooms,
    phase: Phase,
    player: u128,
    frame: FrameView,
    j: int,
)
    requires
        0 <= j < rooms.len(),
        !rooms[j].1.players.contains(player),
    ensures
        received(rooms, phase, player, frame).rooms.len() == rooms.len(),
        received(rooms, phase, player, frame).rooms[j] == rooms[j],
        exclusive(rooms) ==> (received(rooms, phase, player, frame).reply matches Ok(
            Reply::Relay { to, .. },
        ) ==> to.disjoint(rooms[j].1.players)),
{
    lemma_room_of(rooms, player);
    let after = received(rooms, phase, player, frame).rooms;
    if after == evicted(rooms, player) {
        assert(rooms[j].1.players.remove(player) =~= rooms[j].1.players);
    }
}

} // verus!
