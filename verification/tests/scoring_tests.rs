//! Scoring behaviour: the Fibonacci weights, the point formula, and the
//! multiplier's effect on the score a fusion grants.

use sticky_throws::resolver::{CollisionEvent, Command, EventFlags, Session, TickEvent};
use sticky_throws::scene::{Body, BodyId, Throwable};
use sticky_throws::score::{fibonacci, points_for};

fn plain(id: u64) -> Body {
    Body {
        id: BodyId(id),
        parent: None,
        ghost_marker: None,
        ignore_collisions: false,
        is_disabler: false,
        is_destroyer: false,
        is_wall: false,
        joint_parent: None,
        throwable: None,
    }
}

fn throwable_body(id: u64, t: Throwable) -> Body {
    Body { throwable: Some(t), ..plain(id) }
}

fn solid_start(a: u64, b: u64) -> TickEvent {
    TickEvent {
        event: CollisionEvent::Started(BodyId(a), BodyId(b), EventFlags { sensor: false }),
        has_contact: true,
    }
}

#[test]
fn fibonacci_matches_the_stated_recurrence() {
    let expected = [1usize, 1, 2, 3, 5, 8, 13, 21];
    for (n, want) in expected.iter().enumerate() {
        assert_eq!(fibonacci(n), *want);
    }
}

#[test]
fn points_are_ten_times_the_fibonacci_weight() {
    assert_eq!(points_for(0), 10);
    assert_eq!(points_for(1), 10);
    assert_eq!(points_for(2), 20);
    assert_eq!(points_for(3), 30);
    assert_eq!(points_for(4), 50);
    assert_eq!(points_for(5), 80);
}

#[test]
fn pair_fusion_scores_both_fresh_owned_throwables() {
    let pid = BodyId(100);
    let mut session = Session::new(pid, 9);
    session.scene.push_body(throwable_body(1, Throwable::new(Some(pid), true)));
    session.scene.push_body(throwable_body(2, Throwable::new(Some(pid), false)));
    let cmds = session.handle_collisions(&vec![solid_start(1, 2)]);
    // a cluster of two: each side earns 10 * fib(2) = 20
    assert_eq!(session.player.score, 40);
    assert!(matches!(cmds[0], Command::CreateJoint(BodyId(1), BodyId(2))));
    let mut effects: usize = 0;
    for c in &cmds {
        if let Command::SpawnScoringEffect(e) = c {
            assert_eq!(e.points, 20);
            assert_eq!(e.multiplier, 1);
            effects += 1;
        }
    }
    assert_eq!(effects, 2);
}

#[test]
fn multiplier_scales_the_granted_points() {
    let pid = BodyId(100);
    let mut session = Session::new(pid, 9);
    let mut boosted = Throwable::new(Some(pid), true);
    boosted.multiplier = 3;
    session.scene.push_body(throwable_body(1, boosted));
    // the partner is neutral, so only the boosted throwable scores
    session.scene.push_body(throwable_body(2, Throwable::new(None, false)));
    session.handle_collisions(&vec![solid_start(1, 2)]);
    // 3 * (10 * fib(2)) = 3 * 20 = 60 points for its owner
    assert_eq!(session.player.score, 60);
}

#[test]
fn growing_a_cluster_scores_only_the_new_member() {
    let pid = BodyId(100);
    let mut session = Session::new(pid, 9);
    session.scene.push_body(throwable_body(1, Throwable::new(Some(pid), true)));
    session.scene.push_body(throwable_body(2, Throwable::new(Some(pid), true)));
    session.scene.push_body(throwable_body(3, Throwable::new(Some(pid), true)));
    session.handle_collisions(&vec![solid_start(1, 2)]);
    assert_eq!(session.player.score, 40);
    session.handle_collisions(&vec![solid_start(3, 1)]);
    // bodies 1 and 2 are stuck and earn nothing more; body 3 joins a
    // cluster of three and earns 10 * fib(3) = 30
    assert_eq!(session.player.score, 70);
}

#[test]
fn fusion_marks_both_throwables_sticky_and_stuck() {
    let pid = BodyId(100);
    let mut session = Session::new(pid, 9);
    session.scene.push_body(throwable_body(1, Throwable::new(Some(pid), true)));
    session.scene.push_body(throwable_body(2, Throwable::new(Some(pid), false)));
    session.handle_collisions(&vec![solid_start(1, 2)]);
    for id in [1u64, 2] {
        let t = session.scene.lookup(BodyId(id)).unwrap().throwable.unwrap();
        assert!(t.sticky);
        assert!(t.stuck);
    }
}

#[test]
fn missing_contact_point_skips_the_fusion() {
    let pid = BodyId(100);
    let mut session = Session::new(pid, 9);
    session.scene.push_body(throwable_body(1, Throwable::new(Some(pid), true)));
    session.scene.push_body(throwable_body(2, Throwable::new(Some(pid), false)));
    let ev = TickEvent {
        event: CollisionEvent::Started(BodyId(1), BodyId(2), EventFlags { sensor: false }),
        has_contact: false,
    };
    let cmds = session.handle_collisions(&vec![ev]);
    assert!(cmds.is_empty());
    assert_eq!(session.player.score, 0);
    assert!(!session.scene.lookup(BodyId(1)).unwrap().throwable.unwrap().stuck);
}

#[test]
fn non_sticky_pairs_do_not_fuse() {
    let pid = BodyId(100);
    let mut session = Session::new(pid, 9);
    session.scene.push_body(throwable_body(1, Throwable::new(Some(pid), false)));
    session.scene.push_body(throwable_body(2, Throwable::new(Some(pid), false)));
    let cmds = session.handle_collisions(&vec![solid_start(1, 2)]);
    assert!(cmds.is_empty());
    assert_eq!(session.player.score, 0);
}

#[test]
fn self_contact_of_one_throwable_neither_scores_nor_marks() {
    let pid = BodyId(100);
    let mut session = Session::new(pid, 9);
    session.scene.push_body(throwable_body(1, Throwable::new(Some(pid), true)));
    session.scene.push_body(Body { parent: Some(BodyId(1)), ..plain(2) });
    session.scene.push_body(Body { parent: Some(BodyId(1)), ..plain(3) });
    // both colliders resolve to the same throwable body
    let cmds = session.handle_collisions(&vec![solid_start(2, 3)]);
    assert!(matches!(cmds[0], Command::CreateJoint(BodyId(1), BodyId(1))));
    assert_eq!(cmds.len(), 1);
    assert_eq!(session.player.score, 0);
    assert!(!session.scene.lookup(BodyId(1)).unwrap().throwable.unwrap().stuck);
}
