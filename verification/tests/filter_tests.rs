//! Contact filter behaviour: ghost and ignore-collisions suppression, and
//! self-collision suppression within a fused cluster.

use sticky_throws::resolver::{CollisionEvent, EventFlags, Session, TickEvent};
use sticky_throws::filter::filter_contact_pair;
use sticky_throws::scene::{Body, BodyId, GhostMarker, Scene, Throwable};
use sticky_throws::stuck::StuckItems;

fn plain(id: u64) -> Body {
    Body {
        id: BodyId(id),
        parent: None,
        ghost_marker: None,
        ignore_collisions: false,
        is_disabler: false,
        is_destroyer: false,
        is_wall: false,
        joint_parent: None,
        throwable: None,
    }
}

#[test]
fn unrelated_bodies_may_collide() {
    let mut scene = Scene::new();
    scene.push_body(plain(1));
    scene.push_body(plain(2));
    let stuck = StuckItems::new();
    assert!(filter_contact_pair(&scene, &stuck, BodyId(1), BodyId(2)));
}

#[test]
fn ghost_never_collides_with_its_target_or_its_descendants() {
    let mut scene = Scene::new();
    scene.push_body(plain(1));
    scene.push_body(Body { parent: Some(BodyId(1)), ..plain(2) });
    scene.push_body(Body { ghost_marker: Some(GhostMarker(BodyId(1))), ..plain(3) });
    let stuck = StuckItems::new();
    // ghost of body 1 against body 1 itself, in either order
    assert!(!filter_contact_pair(&scene, &stuck, BodyId(3), BodyId(1)));
    assert!(!filter_contact_pair(&scene, &stuck, BodyId(1), BodyId(3)));
    // ghost of body 1 against a child of body 1
    assert!(!filter_contact_pair(&scene, &stuck, BodyId(3), BodyId(2)));
    // the ghost still collides with unrelated bodies
    scene.push_body(plain(4));
    assert!(filter_contact_pair(&scene, &stuck, BodyId(3), BodyId(4)));
}

#[test]
fn two_ghosts_never_collide() {
    let mut scene = Scene::new();
    scene.push_body(plain(1));
    scene.push_body(plain(2));
    scene.push_body(Body { ghost_marker: Some(GhostMarker(BodyId(1))), ..plain(3) });
    scene.push_body(Body { ghost_marker: Some(GhostMarker(BodyId(2))), ..plain(4) });
    let stuck = StuckItems::new();
    assert!(!filter_contact_pair(&scene, &stuck, BodyId(3), BodyId(4)));
}

#[test]
fn ghost_marker_on_a_parent_counts() {
    let mut scene = Scene::new();
    scene.push_body(plain(1));
    scene.push_body(Body { ghost_marker: Some(GhostMarker(BodyId(1))), ..plain(2) });
    scene.push_body(Body { parent: Some(BodyId(2)), ..plain(3) });
    let stuck = StuckItems::new();
    // body 3 inherits the ghost marker from its parent
    assert!(!filter_contact_pair(&scene, &stuck, BodyId(3), BodyId(1)));
}

#[test]
fn ignore_collisions_suppresses_either_side() {
    let mut scene = Scene::new();
    scene.push_body(Body { ignore_collisions: true, ..plain(1) });
    scene.push_body(plain(2));
    scene.push_body(Body { parent: Some(BodyId(1)), ..plain(3) });
    let stuck = StuckItems::new();
    assert!(!filter_contact_pair(&scene, &stuck, BodyId(1), BodyId(2)));
    assert!(!filter_contact_pair(&scene, &stuck, BodyId(2), BodyId(1)));
    // inherited from the parent chain too
    assert!(!filter_contact_pair(&scene, &stuck, BodyId(3), BodyId(2)));
}

#[test]
fn fused_cluster_suppresses_internal_pairs() {
    let mut session = Session::new(BodyId(100), 9);
    session.scene.push_body(Body {
        throwable: Some(Throwable::new(None, true)),
        ..plain(1)
    });
    session.scene.push_body(Body {
        throwable: Some(Throwable::new(None, false)),
        ..plain(2)
    });
    session.scene.push_body(Body { parent: Some(BodyId(1)), ..plain(3) });
    session.scene.push_body(Body { parent: Some(BodyId(2)), ..plain(4) });
    // before fusing, the pair may collide
    assert!(filter_contact_pair(&session.scene, &session.stuck, BodyId(1), BodyId(2)));
    let events = vec![TickEvent {
        event: CollisionEvent::Started(BodyId(3), BodyId(4), EventFlags { sensor: false }),
        has_contact: true,
    }];
    session.handle_collisions(&events);
    // the fused pair no longer produces contact response, nor do descendants
    assert!(!filter_contact_pair(&session.scene, &session.stuck, BodyId(1), BodyId(2)));
    assert!(!filter_contact_pair(&session.scene, &session.stuck, BodyId(3), BodyId(4)));
    assert!(!filter_contact_pair(&session.scene, &session.stuck, BodyId(3), BodyId(2)));
    // an outsider still collides with cluster members
    session.scene.push_body(plain(5));
    assert!(filter_contact_pair(&session.scene, &session.stuck, BodyId(5), BodyId(1)));
}
