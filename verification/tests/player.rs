use mortal_treasures::player::{Player, VERSION_4_VARIANT_1, VERSION_AND_VARIANT_MASK};
use std::collections::HashSet;

#[test]
fn a_handle_keeps_the_identifier_it_was_made_with() {
    assert_eq!(Player::from_uuid(0).uuid(), 0);
    assert_eq!(Player::from_uuid(42).uuid(), 42);
    assert_eq!(Player::from_uuid(u128::MAX).uuid(), u128::MAX);
}

#[test]
fn handles_are_equal_exactly_when_their_identifiers_are() {
    assert_eq!(Player::from_uuid(7), Player::from_uuid(7));
    assert_ne!(Player::from_uuid(7), Player::from_uuid(8));
}

#[test]
fn handles_can_be_kept_in_a_set_by_identity() {
    let mut set = HashSet::new();
    assert!(set.insert(Player::from_uuid(1)));
    assert!(set.insert(Player::from_uuid(2)));
    assert!(!set.insert(Player::from_uuid(1)));
    assert_eq!(set.len(), 2);
}

#[test]
fn a_new_handle_carries_a_version_4_identifier() {
    for _ in 0..32 {
        let uuid = Player::new().uuid();
        assert_eq!(uuid & VERSION_AND_VARIANT_MASK, VERSION_4_VARIANT_1);
        assert_eq!((uuid >> 76) & 0xf, 4);
        assert_eq!((uuid >> 62) & 0x3, 2);
    }
}

#[test]
fn new_handles_differ() {
    let a = Player::new();
    let b = Player::new();
    assert_ne!(a, b);
}

#[test]
fn a_copied_handle_is_the_same_peer() {
    let a = Player::new();
    let b = a;
    assert_eq!(a, b);
    assert_eq!(a.uuid(), b.uuid());
}
