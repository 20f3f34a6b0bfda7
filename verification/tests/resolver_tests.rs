//! Resolver behaviour around the fusion branch: disabling-zone sensors,
//! hazard and wall surfaces, ghost previews, and duplicate joints.

use sticky_throws::resolver::{CollisionEvent, Command, EventFlags, Session, TickEvent};
use sticky_throws::scene::{Body, BodyId, GhostMarker, Throwable};

fn plain(id: u64) -> Body {
    Body {
        id: BodyId(id),
        parent: None,
        ghost_marker: None,
        ignore_collisions: false,
        is_disabler: false,
        is_destroyer: false,
        is_wall: false,
        joint_parent: None,
        throwable: None,
    }
}

fn solid_start(a: u64, b: u64) -> TickEvent {
    TickEvent {
        event: CollisionEvent::Started(BodyId(a), BodyId(b), EventFlags { sensor: false }),
        has_contact: true,
    }
}

fn sensor(a: u64, b: u64, start: bool) -> TickEvent {
    let flags = EventFlags { sensor: true };
    TickEvent {
        event: if start {
            CollisionEvent::Started(BodyId(a), BodyId(b), flags)
        } else {
            CollisionEvent::Stopped(BodyId(a), BodyId(b), flags)
        },
        has_contact: false,
    }
}

#[test]
fn disabler_enter_and_exit_toggle_the_disabling_set() {
    let pid = BodyId(100);
    let mut session = Session::new(pid, 9);
    session.scene.push_body(Body { is_disabler: true, ..plain(1) });
    session.scene.push_body(Body {
        throwable: Some(Throwable::new(Some(pid), false)),
        ..plain(2)
    });
    assert!(session.player.can_release());
    session.handle_collisions(&vec![sensor(1, 2, true)]);
    assert!(!session.player.can_release());
    assert!(session.player.disables.contains(BodyId(2)));
    // the zone may be either side of the pair
    session.handle_collisions(&vec![sensor(2, 1, false)]);
    assert!(session.player.can_release());
    assert!(!session.player.disables.contains(BodyId(2)));
}

#[test]
fn sensor_event_resolves_the_throwable_through_its_parent() {
    let pid = BodyId(100);
    let mut session = Session::new(pid, 9);
    session.scene.push_body(Body { is_disabler: true, ..plain(1) });
    session.scene.push_body(Body {
        throwable: Some(Throwable::new(Some(pid), false)),
        ..plain(2)
    });
    session.scene.push_body(Body { parent: Some(BodyId(2)), ..plain(3) });
    // the collider is a child; the disabling set records the throwable body
    session.handle_collisions(&vec![sensor(1, 3, true)]);
    assert!(session.player.disables.contains(BodyId(2)));
    assert!(!session.player.disables.contains(BodyId(3)));
}

#[test]
fn destroyer_despawns_and_costs_a_life_for_fresh_throwables() {
    let pid = BodyId(100);
    let mut session = Session::new(pid, 9);
    session.scene.push_body(Body { is_destroyer: true, ..plain(1) });
    session.scene.push_body(Body {
        throwable: Some(Throwable::new(Some(pid), false)),
        ..plain(2)
    });
    let cmds = session.handle_collisions(&vec![solid_start(2, 1)]);
    assert_eq!(session.player.lives, 8);
    assert_eq!(cmds.len(), 1);
    assert!(matches!(cmds[0], Command::Despawn(BodyId(2))));
    assert!(!session.player.is_game_over());
}

#[test]
fn stuck_throwables_cost_no_life_on_a_destroyer() {
    let pid = BodyId(100);
    let mut session = Session::new(pid, 9);
    session.scene.push_body(Body { is_destroyer: true, ..plain(1) });
    let mut t = Throwable::new(Some(pid), true);
    t.stuck = true;
    session.scene.push_body(Body { throwable: Some(t), ..plain(2) });
    let cmds = session.handle_collisions(&vec![solid_start(2, 1)]);
    // still despawned, but the player keeps all lives
    assert!(matches!(cmds[0], Command::Despawn(BodyId(2))));
    assert_eq!(session.player.lives, 9);
}

#[test]
fn unowned_throwables_cost_no_life() {
    let pid = BodyId(100);
    let mut session = Session::new(pid, 9);
    session.scene.push_body(Body { is_destroyer: true, ..plain(1) });
    session.scene.push_body(Body {
        throwable: Some(Throwable::new(None, false)),
        ..plain(2)
    });
    session.handle_collisions(&vec![solid_start(2, 1)]);
    assert_eq!(session.player.lives, 9);
}

#[test]
fn wall_bounces_raise_the_multiplier_after_the_batch() {
    let pid = BodyId(100);
    let mut session = Session::new(pid, 9);
    session.scene.push_body(Body { is_wall: true, ..plain(1) });
    session.scene.push_body(Body {
        throwable: Some(Throwable::new(Some(pid), false)),
        ..plain(2)
    });
    let cmds = session.handle_collisions(&vec![solid_start(2, 1), solid_start(1, 2)]);
    assert!(cmds.is_empty());
    let t = session.scene.lookup(BodyId(2)).unwrap().throwable.unwrap();
    assert_eq!(t.multiplier, 3);
}

#[test]
fn multiplier_increments_are_invisible_within_their_batch() {
    let pid = BodyId(100);
    let mut session = Session::new(pid, 9);
    session.scene.push_body(Body { is_wall: true, ..plain(1) });
    session.scene.push_body(Body {
        throwable: Some(Throwable::new(Some(pid), true)),
        ..plain(2)
    });
    session.scene.push_body(Body {
        throwable: Some(Throwable::new(None, false)),
        ..plain(3)
    });
    // the wall bounce is deferred, so the fusion in the same batch still
    // scores with the multiplier the item had when the batch began
    session.handle_collisions(&vec![solid_start(2, 1), solid_start(2, 3)]);
    assert_eq!(session.player.score, 20);
    let t = session.scene.lookup(BodyId(2)).unwrap().throwable.unwrap();
    assert_eq!(t.multiplier, 2);
}

#[test]
fn touched_ghost_preview_despawns_and_nothing_else_happens() {
    let pid = BodyId(100);
    let mut session = Session::new(pid, 9);
    session.scene.push_body(Body {
        throwable: Some(Throwable::new(Some(pid), true)),
        ..plain(1)
    });
    session.scene.push_body(Body {
        throwable: Some(Throwable::new(Some(pid), true)),
        ghost_marker: Some(GhostMarker(BodyId(1))),
        ..plain(2)
    });
    let cmds = session.handle_collisions(&vec![solid_start(2, 1)]);
    assert_eq!(cmds.len(), 1);
    assert!(matches!(cmds[0], Command::Despawn(BodyId(2))));
    assert_eq!(session.player.score, 0);
    assert!(!session.scene.lookup(BodyId(1)).unwrap().throwable.unwrap().stuck);
}

#[test]
fn already_jointed_pair_creates_no_second_joint() {
    let pid = BodyId(100);
    let mut session = Session::new(pid, 9);
    session.scene.push_body(Body {
        throwable: Some(Throwable::new(Some(pid), true)),
        ..plain(1)
    });
    session.scene.push_body(Body {
        throwable: Some(Throwable::new(Some(pid), true)),
        joint_parent: Some(BodyId(1)),
        ..plain(2)
    });
    let cmds = session.handle_collisions(&vec![solid_start(1, 2)]);
    assert!(cmds.is_empty());
    assert_eq!(session.player.score, 0);
    // either orientation of the joint link blocks the duplicate
    let mut other = Session::new(pid, 9);
    other.scene.push_body(Body {
        throwable: Some(Throwable::new(Some(pid), true)),
        joint_parent: Some(BodyId(2)),
        ..plain(1)
    });
    other.scene.push_body(Body {
        throwable: Some(Throwable::new(Some(pid), true)),
        ..plain(2)
    });
    let cmds = other.handle_collisions(&vec![solid_start(1, 2)]);
    assert!(cmds.is_empty());
}

#[test]
fn solid_stop_events_and_empty_batches_do_nothing() {
    let pid = BodyId(100);
    let mut session = Session::new(pid, 9);
    session.scene.push_body(Body {
        throwable: Some(Throwable::new(Some(pid), true)),
        ..plain(1)
    });
    session.scene.push_body(Body { is_destroyer: true, ..plain(2) });
    let stop = TickEvent {
        event: CollisionEvent::Stopped(BodyId(1), BodyId(2), EventFlags { sensor: false }),
        has_contact: false,
    };
    let cmds = session.handle_collisions(&vec![stop]);
    assert!(cmds.is_empty());
    assert_eq!(session.player.lives, 9);
    let cmds = session.handle_collisions(&vec![]);
    assert!(cmds.is_empty());
}

#[test]
fn lives_stop_at_zero() {
    let pid = BodyId(100);
    let mut session = Session::new(pid, 0);
    session.scene.push_body(Body { is_destroyer: true, ..plain(1) });
    session.scene.push_body(Body {
        throwable: Some(Throwable::new(Some(pid), false)),
        ..plain(2)
    });
    assert!(session.player.is_game_over());
    session.handle_collisions(&vec![solid_start(2, 1)]);
    assert_eq!(session.player.lives, 0);
}
