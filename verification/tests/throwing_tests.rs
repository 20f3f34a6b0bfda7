//! Throw-side player state: release gating through the disabling set,
//! thrown items starting non-sticky, and cleanup of removed bodies.

use sticky_throws::player::Player;
use sticky_throws::scene::{BodyId, Throwable};

#[test]
fn new_throwable_starts_with_multiplier_one_and_no_fusion_record() {
    let t = Throwable::new(Some(BodyId(7)), true);
    assert_eq!(t.player, Some(BodyId(7)));
    assert_eq!(t.multiplier, 1);
    assert!(!t.stuck);
    assert!(t.sticky);
    let n = Throwable::new(None, false);
    assert_eq!(n.player, None);
    assert!(!n.sticky);
}

#[test]
fn releasing_a_throw_disables_until_the_item_leaves() {
    let mut player = Player::new(9);
    assert!(player.can_release());
    let t = player.release_throw(BodyId(5), BodyId(100));
    // a thrown item starts non-sticky and owned by the thrower
    assert_eq!(t.player, Some(BodyId(100)));
    assert!(!t.sticky);
    assert!(!t.stuck);
    assert_eq!(t.multiplier, 1);
    // the thrown item sits in the disabler zone, blocking the next throw
    assert!(!player.can_release());
    assert!(player.disables.contains(BodyId(5)));
}

#[test]
fn removed_bodies_leave_the_disabling_set() {
    let mut player = Player::new(9);
    player.disables.insert(BodyId(1));
    player.disables.insert(BodyId(2));
    assert!(!player.can_release());
    player.forget_removed(&vec![BodyId(1), BodyId(3)]);
    assert!(!player.disables.contains(BodyId(1)));
    assert!(player.disables.contains(BodyId(2)));
    player.forget_removed(&vec![BodyId(2)]);
    assert!(player.can_release());
}

#[test]
fn game_over_exactly_at_zero_lives() {
    let alive = Player::new(1);
    assert!(!alive.is_game_over());
    let dead = Player::new(0);
    assert!(dead.is_game_over());
}
