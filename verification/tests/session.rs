use mortal_treasures::game::Game;
use mortal_treasures::player::Player;
use mortal_treasures::session::{Frame, Phase, Reaction, Session, SessionError};
use mortal_treasures::world::{Event, World};

fn world(count: i32, text: &str) -> World {
    World { count, text: text.to_string() }
}

fn sorted(list: &[Player]) -> Vec<u128> {
    let mut ids: Vec<u128> = list.iter().map(|p| p.uuid()).collect();
    ids.sort();
    ids
}

/// A session for the peer `uuid`, joined to `game`; also the room it is in.
fn joined(game: &mut Game, uuid: u128) -> (Session, u128) {
    let mut session = Session::new(Player::from_uuid(uuid));
    match session.join(game) {
        Ok(Reaction::Relay { room, .. }) => (session, room),
        other => panic!("join gave {:?}", other),
    }
}

/// What a relay holds: the room, the receivers in order of identifier, the event.
fn relay(reaction: Result<Reaction, SessionError>) -> (u128, Vec<u128>, Event) {
    match reaction {
        Ok(Reaction::Relay { room, to, event }) => (room, sorted(&to), event),
        other => panic!("expected a relay, got {:?}", other),
    }
}

#[test]
fn a_new_session_is_connecting() {
    let session = Session::new(Player::from_uuid(1));
    assert_eq!(session.phase(), Phase::Connecting);
    assert_eq!(session.player(), Player::from_uuid(1));
    assert!(!session.is_closed());
}

#[test]
fn joining_greets_the_peer_with_the_state_of_its_room() {
    let mut game = Game::new();
    let mut session = Session::new(Player::from_uuid(1));
    let (room, to, event) = relay(session.join(&mut game));
    assert_eq!(to, vec![1]);
    assert_eq!(event, Event::World(world(3, "hello")));
    assert_eq!(session.phase(), Phase::Joined);
    assert_eq!(game.player_world(&Player::from_uuid(1)), Some(room));
}

#[test]
fn a_late_joiner_is_greeted_with_the_current_state() {
    let mut game = Game::new();
    let (mut first, room) = joined(&mut game, 1);
    let _ = relay(first.on_frame(&mut game, Frame::Event(Event::Increment)));
    let _ = relay(first.on_frame(&mut game, Frame::Event(Event::Text { s: "now".to_string() })));
    let mut second = Session::new(Player::from_uuid(2));
    let (second_room, to, event) = relay(second.join(&mut game));
    assert_eq!(second_room, room);
    assert_eq!(to, vec![2]);
    assert_eq!(event, Event::World(world(4, "now")));
}

#[test]
fn four_sessions_fill_one_room_and_open_a_second() {
    let mut game = Game::new();
    let (_, a) = joined(&mut game, 1);
    let (_, b) = joined(&mut game, 2);
    let (_, c) = joined(&mut game, 3);
    let (_, d) = joined(&mut game, 4);
    assert_eq!(a, b);
    assert_eq!(a, c);
    assert_ne!(a, d);
}

#[test]
fn a_session_joins_only_once() {
    let mut game = Game::new();
    let (mut session, room) = joined(&mut game, 1);
    assert_eq!(session.join(&mut game), Err(SessionError::WrongPhase));
    assert_eq!(session.phase(), Phase::Joined);
    assert_eq!(game.world_players(room).map(|l| sorted(&l)), Some(vec![1]));
}

#[test]
fn frames_are_refused_before_joining() {
    let mut game = Game::new();
    let mut session = Session::new(Player::from_uuid(1));
    assert_eq!(
        session.on_frame(&mut game, Frame::Event(Event::Increment)),
        Err(SessionError::WrongPhase)
    );
    assert_eq!(session.on_frame(&mut game, Frame::Ping(vec![1])), Err(SessionError::WrongPhase));
    assert_eq!(session.on_frame(&mut game, Frame::Close), Err(SessionError::WrongPhase));
    assert_eq!(session.phase(), Phase::Connecting);
}

#[test]
fn an_increment_is_applied_and_relayed_to_all_occupants() {
    let mut game = Game::new();
    let (mut one, room) = joined(&mut game, 1);
    let (_two, _) = joined(&mut game, 2);
    let (_three, _) = joined(&mut game, 3);
    assert_eq!(game.state_of(room), Some(world(3, "hello")));
    let (relayed_in, to, event) = relay(one.on_frame(&mut game, Frame::Event(Event::Increment)));
    assert_eq!(relayed_in, room);
    assert_eq!(to, vec![1, 2, 3]);
    assert_eq!(event, Event::Increment);
    assert_eq!(game.state_of(room), Some(world(4, "hello")));
    assert_eq!(one.phase(), Phase::Active);
}

#[test]
fn the_sender_gets_its_own_event_back() {
    let mut game = Game::new();
    let (mut one, _) = joined(&mut game, 1);
    let (_, to, event) = relay(one.on_frame(&mut game, Frame::Event(Event::Text { s: "x".to_string() })));
    assert_eq!(to, vec![1]);
    assert_eq!(event, Event::Text { s: "x".to_string() });
}

#[test]
fn an_event_is_relayed_within_its_room_only() {
    let mut game = Game::new();
    let (_one, first) = joined(&mut game, 1);
    let (_two, _) = joined(&mut game, 2);
    let (_three, _) = joined(&mut game, 3);
    let (mut four, second) = joined(&mut game, 4);
    let (_five, _) = joined(&mut game, 5);
    assert_ne!(first, second);
    let (room, to, _) = relay(four.on_frame(&mut game, Frame::Event(Event::Decrement)));
    assert_eq!(room, second);
    assert_eq!(to, vec![4, 5]);
    assert_eq!(game.state_of(second), Some(world(2, "hello")));
    assert_eq!(game.state_of(first), Some(world(3, "hello")));
}

#[test]
fn a_garbled_message_is_dropped_and_the_session_goes_on() {
    let mut game = Game::new();
    let (mut one, room) = joined(&mut game, 1);
    let (_two, _) = joined(&mut game, 2);
    assert_eq!(one.on_frame(&mut game, Frame::Garbled), Ok(Reaction::Nothing));
    assert_eq!(game.state_of(room), Some(world(3, "hello")));
    assert_eq!(game.world_players(room).map(|l| sorted(&l)), Some(vec![1, 2]));
    assert_eq!(one.phase(), Phase::Active);
    assert!(!one.is_closed());
    let (_, to, _) = relay(one.on_frame(&mut game, Frame::Event(Event::Increment)));
    assert_eq!(to, vec![1, 2]);
    assert_eq!(game.state_of(room), Some(world(4, "hello")));
}

#[test]
fn a_ping_is_answered_with_its_own_payload() {
    let mut game = Game::new();
    let (mut one, room) = joined(&mut game, 1);
    assert_eq!(
        one.on_frame(&mut game, Frame::Ping(vec![1, 2, 3])),
        Ok(Reaction::Pong { payload: vec![1, 2, 3] })
    );
    assert_eq!(one.on_frame(&mut game, Frame::Ping(vec![])), Ok(Reaction::Pong { payload: vec![] }));
    assert_eq!(game.state_of(room), Some(world(3, "hello")));
    assert_eq!(one.phase(), Phase::Active);
}

#[test]
fn a_pong_is_ignored() {
    let mut game = Game::new();
    let (mut one, room) = joined(&mut game, 1);
    assert_eq!(one.on_frame(&mut game, Frame::Pong(vec![9])), Ok(Reaction::Nothing));
    assert_eq!(game.state_of(room), Some(world(3, "hello")));
    assert_eq!(game.world_players(room).map(|l| sorted(&l)), Some(vec![1]));
    assert_eq!(one.phase(), Phase::Active);
}

#[test]
fn a_close_removes_the_peer_and_later_events_pass_it_by() {
    let mut game = Game::new();
    let (mut one, room) = joined(&mut game, 1);
    let (mut two, _) = joined(&mut game, 2);
    let (_three, _) = joined(&mut game, 3);
    assert_eq!(two.on_frame(&mut game, Frame::Close), Ok(Reaction::Nothing));
    assert_eq!(two.phase(), Phase::Closed);
    assert!(two.is_closed());
    assert_eq!(game.player_world(&Player::from_uuid(2)), None);
    let (relayed_in, to, _) = relay(one.on_frame(&mut game, Frame::Event(Event::Increment)));
    assert_eq!(relayed_in, room);
    assert_eq!(to, vec![1, 3]);
}

#[test]
fn a_failed_stream_ends_the_session_like_a_close() {
    let mut game = Game::new();
    let (mut one, room) = joined(&mut game, 1);
    let (_two, _) = joined(&mut game, 2);
    assert_eq!(one.on_frame(&mut game, Frame::Failed), Ok(Reaction::Nothing));
    assert_eq!(one.phase(), Phase::Closed);
    assert_eq!(game.world_players(room).map(|l| sorted(&l)), Some(vec![2]));
    assert_eq!(game.state_of(room), Some(world(3, "hello")));
}

#[test]
fn a_closed_session_takes_no_more_frames() {
    let mut game = Game::new();
    let (mut one, room) = joined(&mut game, 1);
    let (_two, _) = joined(&mut game, 2);
    assert_eq!(one.on_frame(&mut game, Frame::Close), Ok(Reaction::Nothing));
    assert_eq!(
        one.on_frame(&mut game, Frame::Event(Event::Increment)),
        Err(SessionError::WrongPhase)
    );
    assert_eq!(one.on_frame(&mut game, Frame::Close), Err(SessionError::WrongPhase));
    assert_eq!(one.join(&mut game), Err(SessionError::WrongPhase));
    assert_eq!(one.phase(), Phase::Closed);
    assert_eq!(game.state_of(room), Some(world(3, "hello")));
    assert_eq!(game.world_players(room).map(|l| sorted(&l)), Some(vec![2]));
}

#[test]
fn an_event_from_a_peer_that_is_in_no_room_is_an_error() {
    let mut game = Game::new();
    let (mut one, room) = joined(&mut game, 1);
    game.remove_player(Player::from_uuid(1));
    assert_eq!(
        one.on_frame(&mut game, Frame::Event(Event::Increment)),
        Err(SessionError::NoRoom)
    );
    assert_eq!(one.phase(), Phase::Joined);
    assert_eq!(game.state_of(room), Some(world(3, "hello")));
}

#[test]
fn the_end_marker_is_relayed_and_changes_nothing() {
    let mut game = Game::new();
    let (mut one, room) = joined(&mut game, 1);
    let (_, to, event) = relay(one.on_frame(&mut game, Frame::Event(Event::GameOver)));
    assert_eq!(to, vec![1]);
    assert_eq!(event, Event::GameOver);
    assert_eq!(game.state_of(room), Some(world(3, "hello")));
    assert_eq!(one.phase(), Phase::Active);
}

#[test]
fn increments_from_two_peers_are_each_counted_once() {
    let mut game = Game::new();
    let (mut one, room) = joined(&mut game, 1);
    let (mut two, _) = joined(&mut game, 2);
    let _ = relay(two.on_frame(&mut game, Frame::Event(Event::Increment)));
    let _ = relay(one.on_frame(&mut game, Frame::Event(Event::Increment)));
    assert_eq!(game.state_of(room), Some(world(5, "hello")));
}
