use mortal_treasures::world::{apply_event, Event, World, INITIAL_COUNT};

fn world(count: i32, text: &str) -> World {
    World { count, text: text.to_string() }
}

#[test]
fn a_new_world_counts_three_and_says_hello() {
    assert_eq!(World::new(), world(3, "hello"));
    assert_eq!(INITIAL_COUNT, 3);
}

#[test]
fn the_default_world_is_the_new_world() {
    assert_eq!(World::default(), World::new());
}

#[test]
fn increment_adds_exactly_one() {
    let mut w = world(3, "hello");
    w.apply(Event::Increment);
    assert_eq!(w, world(4, "hello"));
}

#[test]
fn decrement_takes_exactly_one() {
    let mut w = world(3, "hello");
    w.apply(Event::Decrement);
    assert_eq!(w, world(2, "hello"));
}

#[test]
fn decrement_goes_below_zero() {
    let mut w = world(0, "");
    w.apply(Event::Decrement);
    assert_eq!(w, world(-1, ""));
}

#[test]
fn text_replaces_the_text_only() {
    let mut w = world(7, "old");
    w.apply(Event::Text { s: "new".to_string() });
    assert_eq!(w, world(7, "new"));
}

#[test]
fn a_full_replacement_discards_the_previous_state() {
    let mut w = world(7, "old");
    w.apply(Event::World(world(-40, "other")));
    assert_eq!(w, world(-40, "other"));
}

#[test]
fn game_over_leaves_the_state_unchanged() {
    let mut w = world(7, "same");
    w.apply(Event::GameOver);
    assert_eq!(w, world(7, "same"));
}

#[test]
fn increment_then_decrement_restores_the_state() {
    for count in [i32::MIN, -1, 0, 3, i32::MAX - 1, i32::MAX] {
        let mut w = world(count, "t");
        w.apply(Event::Increment);
        w.apply(Event::Decrement);
        assert_eq!(w, world(count, "t"));
    }
}

#[test]
fn decrement_then_increment_restores_the_state() {
    for count in [i32::MIN, i32::MIN + 1, 0, i32::MAX] {
        let mut w = world(count, "t");
        w.apply(Event::Decrement);
        w.apply(Event::Increment);
        assert_eq!(w, world(count, "t"));
    }
}

#[test]
fn the_counter_wraps_at_the_top() {
    let mut w = world(i32::MAX, "t");
    w.apply(Event::Increment);
    assert_eq!(w, world(i32::MIN, "t"));
}

#[test]
fn the_counter_wraps_at_the_bottom() {
    let mut w = world(i32::MIN, "t");
    w.apply(Event::Decrement);
    assert_eq!(w, world(i32::MAX, "t"));
}

#[test]
fn apply_event_returns_the_next_state() {
    assert_eq!(apply_event(world(3, "hello"), Event::Increment), world(4, "hello"));
    assert_eq!(
        apply_event(world(3, "hello"), Event::Text { s: "hi".to_string() }),
        world(3, "hi")
    );
    assert_eq!(apply_event(world(3, "hello"), Event::World(world(9, "x"))), world(9, "x"));
    assert_eq!(apply_event(world(3, "hello"), Event::GameOver), world(3, "hello"));
}

#[test]
fn apply_event_agrees_with_apply_in_place() {
    let events = [
        Event::Increment,
        Event::Increment,
        Event::Text { s: "a".to_string() },
        Event::Decrement,
        Event::World(world(10, "b")),
        Event::Increment,
        Event::GameOver,
    ];
    let mut in_place = World::new();
    let mut by_value = World::new();
    for event in events {
        in_place.apply(event.clone());
        by_value = apply_event(by_value, event);
        assert_eq!(in_place, by_value);
    }
    assert_eq!(in_place, world(11, "b"));
}

#[test]
fn a_cloned_world_equals_the_original() {
    let w = world(12, "copy me");
    assert_eq!(w.clone(), w);
}

#[test]
fn a_cloned_event_equals_the_original() {
    let events = [
        Event::World(world(1, "w")),
        Event::Increment,
        Event::Decrement,
        Event::Text { s: "s".to_string() },
        Event::GameOver,
    ];
    for event in events {
        assert_eq!(event.clone(), event);
    }
}
