//! Fusion and scoring resolver: consumes the per-tick batch of collision
//! events in emission order.  Sensor events toggle the player's disabling
//! set; solid contacts despawn touched previews, fuse sticky throwables with
//! a fixed joint while recording the union in the registry, grant
//! Fibonacci-weighted score, and apply life loss and wall-bounce multiplier
//! increments.  Engine-side effects are emitted as commands; multiplier
//! increments are deferred to the end of the batch, as buffered commands are.

use crate::filter::{same_cluster, suppressed};
use crate::player::Player;
use crate::registry::{count_label, lemma_union_spec_joins, union_spec};
use crate::scene::{
    bump_multiplier, flag_destroyer, flag_disabler, flag_wall, ghost_of, joined,
    lemma_bump_multiplier_props, lemma_mark_fused_keeps_roots, lemma_mark_fused_props,
    mark_fused, root_of, scene_wf, stuck_at, throwable_at, Body, BodyId, Scene, Throwable,
};
use crate::score::{points_of, sat_add_spec, total_points_of};
use crate::stuck::{has_key, key_idx, keys_unique, lemma_register_props, register_spec, StuckItems};
use vstd::prelude::*;

verus! {

/// Flags attached to a collision event; only the sensor bit matters here.
#[derive(Clone, Copy, Debug)]
pub struct EventFlags {
    pub sensor: bool,
}

/// A realized collision event between two bodies, as the solver emits them.
#[derive(Clone, Copy, Debug)]
pub enum CollisionEvent {
    Started(BodyId, BodyId, EventFlags),
    Stopped(BodyId, BodyId, EventFlags),
}

/// One event of a tick's batch, paired with whether the solver can report a
/// deepest contact point for the pair (fusion is skipped without one).
#[derive(Clone, Copy, Debug)]
pub struct TickEvent {
    pub event: CollisionEvent,
    pub has_contact: bool,
}

/// Data shown by a transient floating score display.
#[derive(Clone, Copy, Debug)]
pub struct ScoringEffect {
    pub multiplier: usize,
    pub points: usize,
}

/// An engine-side effect requested by the resolver.
#[derive(Clone, Copy, Debug)]
pub enum Command {
    /// Despawn the body and everything parented under it.
    Despawn(BodyId),
    /// Create a fixed joint rigidly linking the two bodies at their contact
    /// point; the joint entity is parented under one of them.
    CreateJoint(BodyId, BodyId),
    /// Spawn a transient score display with a fixed lifetime.
    SpawnScoringEffect(ScoringEffect),
}

/// The resolver's whole state, as plain mathematical values.
pub struct Model {
    pub scene: Seq<Body>,
    pub uf: Seq<usize>,
    pub keys: Seq<BodyId>,
    pub player_id: BodyId,
    pub disables: Set<BodyId>,
    pub lives: usize,
    pub score: usize,
}

/// Field-wise equality of two models.
pub open spec fn same_model(x: Model, y: Model) -> bool {
    &&& x.scene == y.scene
    &&& x.uf == y.uf
    &&& x.keys == y.keys
    &&& x.player_id == y.player_id
    &&& x.disables == y.disables
    &&& x.lives == y.lives
    &&& x.score == y.score
}

/// What one event does: the state afterwards, the commands emitted, and the
/// wall-bounce multiplier increments deferred to the end of the batch.
pub struct Outcome {
    pub m: Model,
    pub cmds: Seq<Command>,
    pub bumps: Seq<BodyId>,
}

pub open spec fn unchanged(m: Model) -> Outcome {
    Outcome { m, cmds: Seq::empty(), bumps: Seq::empty() }
}

/// The throwable whose body enters or leaves the player's disabling set when
/// `zone` is a disabler and `other` resolves to a throwable.
pub open spec fn sensor_target(s: Seq<Body>, zone: BodyId, other: BodyId) -> Option<BodyId> {
    if flag_disabler(s, zone) && throwable_at(s, other) is Some {
        Some((throwable_at(s, other)->0).0)
    } else {
        None
    }
}

pub open spec fn add_opt(d: Set<BodyId>, o: Option<BodyId>) -> Set<BodyId> {
    if o is Some {
        d.insert(o->0)
    } else {
        d
    }
}

pub open spec fn remove_opt(d: Set<BodyId>, o: Option<BodyId>) -> Set<BodyId> {
    if o is Some {
        d.remove(o->0)
    } else {
        d
    }
}

/// A sensor-start event: bodies entering a disabler zone join the disabling
/// set (both orientations of the pair are checked).
pub open spec fn step_sensor_start(m: Model, a: BodyId, b: BodyId) -> Outcome {
    let d1 = add_opt(m.disables, sensor_target(m.scene, a, b));
    let d2 = add_opt(d1, sensor_target(m.scene, b, a));
    Outcome { m: Model { disables: d2, ..m }, cmds: Seq::empty(), bumps: Seq::empty() }
}

/// A sensor-stop event: the matching bodies leave the disabling set.
pub open spec fn step_sensor_stop(m: Model, a: BodyId, b: BodyId) -> Outcome {
    let d1 = remove_opt(m.disables, sensor_target(m.scene, a, b));
    let d2 = remove_opt(d1, sensor_target(m.scene, b, a));
    Outcome { m: Model { disables: d2, ..m }, cmds: Seq::empty(), bumps: Seq::empty() }
}

/// A solid contact of the throwable `(e, t)` against the plain body `x`: a
/// destroyer despawns the throwable and costs a life if it was never fused
/// and has an owner; a wall defers a multiplier increment.
pub open spec fn surface_outcome(m: Model, t: Throwable, e: BodyId, x: BodyId) -> Outcome {
    let cmds = if flag_destroyer(m.scene, x) {
        seq![Command::Despawn(e)]
    } else {
        Seq::<Command>::empty()
    };
    let lives = if flag_destroyer(m.scene, x) && !t.stuck && t.player == Some(m.player_id) {
        if m.lives > 0 {
            (m.lives - 1) as usize
        } else {
            0usize
        }
    } else {
        m.lives
    };
    let bumps = if flag_wall(m.scene, x) {
        seq![e]
    } else {
        Seq::<BodyId>::empty()
    };
    Outcome { m: Model { lives, ..m }, cmds, bumps }
}

/// Whether a fusion grants `t`'s owner score: never-fused, player-owned.
pub open spec fn scores(pid: BodyId, t: Throwable) -> bool {
    !t.stuck && t.player == Some(pid)
}

/// Number of bodies in the cluster of registry node `i`.
pub open spec fn cluster_size(uf: Seq<usize>, i: int) -> nat {
    count_label(uf, uf[i])
}

pub open spec fn effect_of(t: Throwable, size: nat) -> ScoringEffect {
    ScoringEffect { multiplier: t.multiplier, points: points_of(size) }
}

/// A qualifying fusion of throwables `(e1, t1)` and `(e2, t2)`: a joint
/// command is emitted, both bodies are registered and their sets unioned,
/// each never-fused player-owned throwable scores by its cluster size and
/// multiplier, and (for distinct bodies) both are marked fused.
pub open spec fn fusion_outcome(
    m: Model,
    t1: Throwable,
    e1: BodyId,
    t2: Throwable,
    e2: BodyId,
) -> Outcome {
    let r1 = register_spec(m.uf, m.keys, e1);
    let r2 = register_spec(r1.0, r1.1, e2);
    let i1 = r1.2;
    let i2 = r2.2;
    let uf3 = union_spec(r2.0, i1, i2);
    if e1 == e2 {
        Outcome {
            m: Model { uf: uf3, keys: r2.1, ..m },
            cmds: seq![Command::CreateJoint(e1, e2)],
            bumps: Seq::empty(),
        }
    } else {
        let size1 = cluster_size(uf3, i1);
        let size2 = cluster_size(uf3, i2);
        let cmds1 = if scores(m.player_id, t1) {
            seq![Command::SpawnScoringEffect(effect_of(t1, size1))]
        } else {
            Seq::<Command>::empty()
        };
        let cmds2 = if scores(m.player_id, t2) {
            seq![Command::SpawnScoringEffect(effect_of(t2, size2))]
        } else {
            Seq::<Command>::empty()
        };
        let score1 = if scores(m.player_id, t1) {
            sat_add_spec(m.score, total_points_of(t1.multiplier, size1))
        } else {
            m.score
        };
        let score2 = if scores(m.player_id, t2) {
            sat_add_spec(score1, total_points_of(t2.multiplier, size2))
        } else {
            score1
        };
        let scene2 = mark_fused(mark_fused(m.scene, e1), e2);
        Outcome {
            m: Model { scene: scene2, uf: uf3, keys: r2.1, score: score2, ..m },
            cmds: seq![Command::CreateJoint(e1, e2)] + cmds1 + cmds2,
            bumps: Seq::empty(),
        }
    }
}

/// A solid contact-start event, in the order the resolver decides it: a
/// touched throw preview despawns and nothing else happens; two resolved
/// throwables attempt fusion when at least one is sticky, they are not
/// already jointed, and a contact point is available; otherwise the
/// throwable side reacts to the plain surface it hit.
pub open spec fn step_solid_start(m: Model, a: BodyId, b: BodyId, has_contact: bool) -> Outcome {
    if ghost_of(m.scene, a) is Some {
        Outcome {
            m,
            cmds: seq![Command::Despawn((ghost_of(m.scene, a)->0).1)],
            bumps: Seq::empty(),
        }
    } else if ghost_of(m.scene, b) is Some {
        Outcome {
            m,
            cmds: seq![Command::Despawn((ghost_of(m.scene, b)->0).1)],
            bumps: Seq::empty(),
        }
    } else {
        let ta = throwable_at(m.scene, a);
        let tb = throwable_at(m.scene, b);
        if ta is Some && tb is Some {
            let e1 = (ta->0).0;
            let t1 = (ta->0).1;
            let e2 = (tb->0).0;
            let t2 = (tb->0).1;
            if !t1.sticky && !t2.sticky {
                unchanged(m)
            } else if joined(m.scene, e1, e2) {
                unchanged(m)
            } else if !has_contact {
                unchanged(m)
            } else {
                fusion_outcome(m, t1, e1, t2, e2)
            }
        } else if ta is Some {
            surface_outcome(m, (ta->0).1, (ta->0).0, b)
        } else if tb is Some {
            surface_outcome(m, (tb->0).1, (tb->0).0, a)
        } else {
            unchanged(m)
        }
    }
}

/// What one event of the batch does to the session.
pub open spec fn step(m: Model, ev: TickEvent) -> Outcome {
    match ev.event {
        CollisionEvent::Started(a, b, f) => if f.sensor {
            step_sensor_start(m, a, b)
        } else {
            step_solid_start(m, a, b, ev.has_contact)
        },
        CollisionEvent::Stopped(a, b, f) => if f.sensor {
            step_sensor_stop(m, a, b)
        } else {
            unchanged(m)
        },
    }
}

/// The deferred multiplier increments, applied in order after the batch.
pub open spec fn apply_bumps(s: Seq<Body>, bumps: Seq<BodyId>) -> Seq<Body>
    decreases bumps.len(),
{
    if bumps.len() == 0 {
        s
    } else {
        apply_bumps(bump_multiplier(s, bumps.first()), bumps.drop_first())
    }
}

/// The whole batch, event by event in emission order.
pub open spec fn run_events(m: Model, evs: Seq<TickEvent>) -> Outcome
    decreases evs.len(),
{
    if evs.len() == 0 {
        Outcome { m, cmds: Seq::empty(), bumps: Seq::empty() }
    } else {
        let o = step(m, evs.first());
        let rest = run_events(o.m, evs.drop_first());
        Outcome { m: rest.m, cmds: o.cmds + rest.cmds, bumps: o.bumps + rest.bumps }
    }
}

/// One tick: the batch is drained in order, then the deferred multiplier
/// increments are applied, mirroring the engine's buffered commands.
pub open spec fn run_tick(m: Model, evs: Seq<TickEvent>) -> (Model, Seq<Command>) {
    let o = run_events(m, evs);
    (Model { scene: apply_bumps(o.m.scene, o.bumps), ..o.m }, o.cmds)
}

/// The game session's state: the scene, the fused-items registry, and the
/// player, owned together and passed explicitly to filter and resolver.
pub struct Session {
    pub scene: Scene,
    pub stuck: StuckItems,
    pub player_id: BodyId,
    pub player: Player,
}

impl Session {
    pub open spec fn wf(&self) -> bool {
        self.scene.wf() && self.stuck.wf() && self.player.wf()
    }

    pub open spec fn model(&self) -> Model {
        Model {
            scene: self.scene@,
            uf: self.stuck.union_find@,
            keys: self.stuck.map@,
            player_id: self.player_id,
            disables: self.player.disables@,
            lives: self.player.lives,
            score: self.player.score,
        }
    }

    pub fn new(player_id: BodyId, lives: usize) -> (s: Session)
        ensures
            s.wf(),
            s.scene@ =~= Seq::<Body>::empty(),
            s.stuck.map@ =~= Seq::<BodyId>::empty(),
            s.stuck.union_find@ =~= Seq::<usize>::empty(),
            s.player_id == player_id,
            s.player.disables@ =~= Set::<BodyId>::empty(),
            s.player.lives == lives,
            s.player.score == 0,
    {
        Session {
            scene: Scene::new(),
            stuck: StuckItems::new(),
            player_id,
            player: Player::new(lives),
        }
    }

    /// A throwable `(e, t)` hit the plain body `x`.
    fn handle_surface(
        &mut self,
        t: Throwable,
        e: BodyId,
        x: BodyId,
        cmds: &mut Vec<Command>,
        bumps: &mut Vec<BodyId>,
    )
        requires
            old(self).wf(),
        ensures
            final(self).wf(),
            final(self).stuck.map@.len() == old(self).stuck.map@.len(),
            same_model(final(self).model(), surface_outcome(old(self).model(), t, e, x).m),
            final(cmds)@ == old(cmds)@ + surface_outcome(old(self).model(), t, e, x).cmds,
            final(bumps)@ == old(bumps)@ + surface_outcome(old(self).model(), t, e, x).bumps,
    {
        let ghost o = surface_outcome(old(self).model(), t, e, x);
        let destroyer = match self.scene.lookup(x) {
            Some(bx) => bx.is_destroyer,
            None => false,
        };
        if destroyer {
            cmds.push(Command::Despawn(e));
            if !t.stuck {
                match t.player {
                    Some(p) => if p == self.player_id {
                        if self.player.lives > 0 {
                            self.player.lives = self.player.lives - 1;
                        }
                    },
                    None => {},
                }
            }
            proof {
                assert(cmds@ =~= old(cmds)@ + o.cmds);
            }
        } else {
            proof {
                assert(cmds@ =~= old(cmds)@ + o.cmds);
            }
        }
        let wall = match self.scene.lookup(x) {
            Some(bx) => bx.is_wall,
            None => false,
        };
        if wall {
            bumps.push(e);
            proof {
                assert(bumps@ =~= old(bumps)@ + o.bumps);
            }
        } else {
            proof {
                assert(bumps@ =~= old(bumps)@ + o.bumps);
            }
        }
    }

    /// A solid contact-start event between raw bodies `a` and `b`.
    fn handle_solid(
        &mut self,
        a: BodyId,
        b: BodyId,
        has_contact: bool,
        cmds: &mut Vec<Command>,
        bumps: &mut Vec<BodyId>,
    )
        requires
            old(self).wf(),
            old(self).stuck.map@.len() + 2 <= usize::MAX,
        ensures
            final(self).wf(),
            final(self).stuck.map@.len() <= old(self).stuck.map@.len() + 2,
            same_model(
                final(self).model(),
                step_solid_start(old(self).model(), a, b, has_contact).m,
            ),
            final(cmds)@ == old(cmds)@ + step_solid_start(
                old(self).model(),
                a,
                b,
                has_contact,
            ).cmds,
            final(bumps)@ == old(bumps)@ + step_solid_start(
                old(self).model(),
                a,
                b,
                has_contact,
            ).bumps,
    {
        let ghost m0 = self.model();
        let ghost o = step_solid_start(m0, a, b, has_contact);
        match self.scene.resolve_ghost(a) {
            Some((_, owner)) => {
                cmds.push(Command::Despawn(owner));
                proof {
                    assert(cmds@ =~= old(cmds)@ + o.cmds);
                    assert(bumps@ =~= old(bumps)@ + o.bumps);
                }
                return ;
            },
            None => {},
        }
        match self.scene.resolve_ghost(b) {
            Some((_, owner)) => {
                cmds.push(Command::Despawn(owner));
                proof {
                    assert(cmds@ =~= old(cmds)@ + o.cmds);
                    assert(bumps@ =~= old(bumps)@ + o.bumps);
                }
                return ;
            },
            None => {},
        }
        let ta = self.scene.find_throwable(a);
        let tb = self.scene.find_throwable(b);
        match (ta, tb) {
            (Some((e1, t1)), Some((e2, t2))) => {
                if !t1.sticky && !t2.sticky {
                    proof {
                        assert(cmds@ =~= old(cmds)@ + o.cmds);
                        assert(bumps@ =~= old(bumps)@ + o.bumps);
                    }
                    return ;
                }
                if self.scene.connected_by_joint(e1, e2) {
                    proof {
                        assert(cmds@ =~= old(cmds)@ + o.cmds);
                        assert(bumps@ =~= old(bumps)@ + o.bumps);
                    }
                    return ;
                }
                if !has_contact {
                    proof {
                        assert(cmds@ =~= old(cmds)@ + o.cmds);
                        assert(bumps@ =~= old(bumps)@ + o.bumps);
                    }
                    return ;
                }
                let ghost fo = fusion_outcome(m0, t1, e1, t2, e2);
                cmds.push(Command::CreateJoint(e1, e2));
                let i1 = self.stuck.register(e1);
                let i2 = self.stuck.register(e2);
                self.stuck.union_find.union(i1, i2);
                let ghost uf3 = self.stuck.union_find@;
                if e1 != e2 {
                    let ghost cmds_after_joint = cmds@;
                    if !t1.stuck {
                        match t1.player {
                            Some(p) => if p == self.player_id {
                                let rep = self.stuck.union_find.find(i1);
                                let size = self.stuck.union_find.size_of(rep);
                                let pts = crate::score::points_for(size);
                                let total = crate::score::sat_mul(t1.multiplier, pts);
                                cmds.push(
                                    Command::SpawnScoringEffect(
                                        ScoringEffect { multiplier: t1.multiplier, points: pts },
                                    ),
                                );
                                self.player.score = crate::score::sat_add(
                                    self.player.score,
                                    total,
                                );
                            },
                            None => {},
                        }
                    }
                    if !t2.stuck {
                        match t2.player {
                            Some(p) => if p == self.player_id {
                                let rep = self.stuck.union_find.find(i2);
                                let size = self.stuck.union_find.size_of(rep);
                                let pts = crate::score::points_for(size);
                                let total = crate::score::sat_mul(t2.multiplier, pts);
                                cmds.push(
                                    Command::SpawnScoringEffect(
                                        ScoringEffect { multiplier: t2.multiplier, points: pts },
                                    ),
                                );
                                self.player.score = crate::score::sat_add(
                                    self.player.score,
                                    total,
                                );
                            },
                            None => {},
                        }
                    }
                    self.scene.set_fused(e1);
                    self.scene.set_fused(e2);
                    proof {
                        let r1 = register_spec(m0.uf, m0.keys, e1);
                        let r2 = register_spec(r1.0, r1.1, e2);
                        assert(uf3 =~= union_spec(r2.0, r1.2, r2.2));
                        let cmds1 = if scores(m0.player_id, t1) {
                            seq![Command::SpawnScoringEffect(effect_of(t1, cluster_size(uf3, r1.2)))]
                        } else {
                            Seq::<Command>::empty()
                        };
                        let cmds2 = if scores(m0.player_id, t2) {
                            seq![Command::SpawnScoringEffect(effect_of(t2, cluster_size(uf3, r2.2)))]
                        } else {
                            Seq::<Command>::empty()
                        };
                        assert(cmds_after_joint =~= old(cmds)@ + seq![
                            Command::CreateJoint(e1, e2),
                        ]);
                        assert(cmds@ =~= cmds_after_joint + cmds1 + cmds2);
                        assert(cmds@ =~= old(cmds)@ + (seq![Command::CreateJoint(e1, e2)] + cmds1
                            + cmds2));
                        assert(cmds@ =~= old(cmds)@ + fo.cmds);
                        assert(bumps@ =~= old(bumps)@ + fo.bumps);
                        assert(self.scene@ == fo.m.scene);
                    }
                } else {
                    proof {
                        assert(cmds@ =~= old(cmds)@ + fo.cmds);
                        assert(bumps@ =~= old(bumps)@ + fo.bumps);
                    }
                }
            },
            (Some((e1, t1)), None) => {
                self.handle_surface(t1, e1, b, cmds, bumps);
            },
            (None, Some((e2, t2))) => {
                self.handle_surface(t2, e2, a, cmds, bumps);
            },
            (None, None) => {
                proof {
                    assert(cmds@ =~= old(cmds)@ + o.cmds);
                    assert(bumps@ =~= old(bumps)@ + o.bumps);
                }
            },
        }
    }

    /// Processes one collision event of the tick's batch, appending the
    /// engine commands it emits and the multiplier increments it defers.
    pub fn handle_event(
        &mut self,
        ev: TickEvent,
        cmds: &mut Vec<Command>,
        bumps: &mut Vec<BodyId>,
    )
        requires
            old(self).wf(),
            old(self).stuck.map@.len() + 2 <= usize::MAX,
        ensures
            final(self).wf(),
            final(self).stuck.map@.len() <= old(self).stuck.map@.len() + 2,
            same_model(final(self).model(), step(old(self).model(), ev).m),
            final(cmds)@ == old(cmds)@ + step(old(self).model(), ev).cmds,
            final(bumps)@ == old(bumps)@ + step(old(self).model(), ev).bumps,
    {
        let ghost m0 = self.model();
        let ghost o = step(m0, ev);
        match ev.event {
            CollisionEvent::Started(a, b, f) => {
                if f.sensor {
                    let da = match self.scene.lookup(a) {
                        Some(ba) => ba.is_disabler,
                        None => false,
                    };
                    if da {
                        match self.scene.find_throwable(b) {
                            Some((e, _t)) => {
                                self.player.disables.insert(e);
                            },
                            None => {},
                        }
                    }
                    let db = match self.scene.lookup(b) {
                        Some(bb) => bb.is_disabler,
                        None => false,
                    };
                    if db {
                        match self.scene.find_throwable(a) {
                            Some((e, _t)) => {
                                self.player.disables.insert(e);
                            },
                            None => {},
                        }
                    }
                    proof {
                        assert(self.player.disables@ =~= o.m.disables);
                        assert(cmds@ =~= old(cmds)@ + o.cmds);
                        assert(bumps@ =~= old(bumps)@ + o.bumps);
                    }
                } else {
                    self.handle_solid(a, b, ev.has_contact, cmds, bumps);
                }
            },
            CollisionEvent::Stopped(a, b, f) => {
                if f.sensor {
                    let da = match self.scene.lookup(a) {
                        Some(ba) => ba.is_disabler,
                        None => false,
                    };
                    if da {
                        match self.scene.find_throwable(b) {
                            Some((e, _t)) => {
                                self.player.disables.remove(e);
                            },
                            None => {},
                        }
                    }
                    let db = match self.scene.lookup(b) {
                        Some(bb) => bb.is_disabler,
                        None => false,
                    };
                    if db {
                        match self.scene.find_throwable(a) {
                            Some((e, _t)) => {
                                self.player.disables.remove(e);
                            },
                            None => {},
                        }
                    }
                    proof {
                        assert(self.player.disables@ =~= o.m.disables);
                        assert(cmds@ =~= old(cmds)@ + o.cmds);
                        assert(bumps@ =~= old(bumps)@ + o.bumps);
                    }
                } else {
                    proof {
                        assert(cmds@ =~= old(cmds)@ + o.cmds);
                        assert(bumps@ =~= old(bumps)@ + o.bumps);
                    }
                }
            },
        }
    }

    /// Drains one tick's batch of collision events in emission order, then
    /// applies the deferred wall-bounce multiplier increments (buffered like
    /// engine commands, so they are invisible within the batch).  Returns
    /// the engine-side commands to apply.
    pub fn handle_collisions(&mut self, events: &Vec<TickEvent>) -> (cmds: Vec<Command>)
        requires
            old(self).wf(),
            old(self).stuck.map@.len() + 2 * events@.len() <= usize::MAX,
        ensures
            final(self).wf(),
            same_model(final(self).model(), run_tick(old(self).model(), events@).0),
            cmds@ == run_tick(old(self).model(), events@).1,
    {
        let ghost m0 = self.model();
        let ghost full = run_events(m0, events@);
        let mut cmds: Vec<Command> = Vec::new();
        let mut bumps: Vec<BodyId> = Vec::new();
        let n = events.len();
        let mut k: usize = 0;
        proof {
            assert(events@.skip(0) =~= events@);
            assert(cmds@ + full.cmds =~= full.cmds);
            assert(bumps@ + full.bumps =~= full.bumps);
        }
        while k < n
            invariant
                k <= n,
                n == events@.len(),
                self.wf(),
                self.stuck.map@.len() + 2 * (n - k) <= usize::MAX,
                same_model(full.m, run_events(self.model(), events@.skip(k as int)).m),
                full.cmds == cmds@ + run_events(self.model(), events@.skip(k as int)).cmds,
                full.bumps == bumps@ + run_events(self.model(), events@.skip(k as int)).bumps,
            decreases n - k,
        {
            let ghost cur = self.model();
            let ghost rest = run_events(cur, events@.skip(k as int));
            proof {
                assert(events@.skip(k as int).len() > 0);
                assert(events@.skip(k as int).first() == events@[k as int]);
                assert(events@.skip(k as int).drop_first() =~= events@.skip(k as int + 1));
            }
            let ghost pre_cmds = cmds@;
            let ghost pre_bumps = bumps@;
            self.handle_event(events[k], &mut cmds, &mut bumps);
            proof {
                let ev = events@[k as int];
                let stepped = step(cur, ev);
                lemma_same_model_is_eq(self.model(), stepped.m);
                let rest2 = run_events(self.model(), events@.skip(k as int + 1));
                assert(rest.m == rest2.m && rest.cmds == stepped.cmds + rest2.cmds && rest.bumps
                    == stepped.bumps + rest2.bumps);
                assert(full.cmds == cmds@ + rest2.cmds) by {
                    assert(pre_cmds + (stepped.cmds + rest2.cmds) =~= (pre_cmds + stepped.cmds)
                        + rest2.cmds);
                }
                assert(full.bumps == bumps@ + rest2.bumps) by {
                    assert(pre_bumps + (stepped.bumps + rest2.bumps) =~= (pre_bumps
                        + stepped.bumps) + rest2.bumps);
                }
            }
            k = k + 1;
        }
        proof {
            assert(events@.skip(n as int) =~= Seq::<TickEvent>::empty());
            assert(full.cmds =~= cmds@ + Seq::<Command>::empty());
            assert(full.bumps =~= bumps@ + Seq::<BodyId>::empty());
            assert(full.cmds == cmds@);
            assert(full.bumps == bumps@);
        }
        let nb = bumps.len();
        let mut j: usize = 0;
        proof {
            assert(bumps@.skip(0) =~= bumps@);
        }
        while j < nb
            invariant
                j <= nb,
                nb == bumps@.len(),
                self.wf(),
                bumps@ == full.bumps,
                apply_bumps(full.m.scene, full.bumps) == apply_bumps(
                    self.scene@,
                    bumps@.skip(j as int),
                ),
                self.stuck.union_find@ == full.m.uf,
                self.stuck.map@ == full.m.keys,
                self.player_id == full.m.player_id,
                self.player.disables@ == full.m.disables,
                self.player.lives == full.m.lives,
                self.player.score == full.m.score,
            decreases nb - j,
        {
            let ghost pre_scene = self.scene@;
            proof {
                assert(bumps@.skip(j as int).len() > 0);
                assert(bumps@.skip(j as int).first() == bumps@[j as int]);
                assert(bumps@.skip(j as int).drop_first() =~= bumps@.skip(j as int + 1));
            }
            self.scene.raise_multiplier(bumps[j]);
            proof {
                assert(self.scene@ == bump_multiplier(pre_scene, bumps@[j as int]));
            }
            j = j + 1;
        }
        proof {
            assert(bumps@.skip(nb as int) =~= Seq::<BodyId>::empty());
        }
        cmds
    }
}

/// Two models with equal fields are the same model.
pub proof fn lemma_same_model_is_eq(x: Model, y: Model)
    requires
        same_model(x, y),
    ensures
        x == y,
{
}

/// One event keeps the scene well-formed and keeps every stuck mark.
pub proof fn lemma_step_keeps_stuck(m: Model, ev: TickEvent, e: BodyId)
    requires
        scene_wf(m.scene),
    ensures
        scene_wf(step(m, ev).m.scene),
        stuck_at(m.scene, e) ==> stuck_at(step(m, ev).m.scene, e),
{
    match ev.event {
        CollisionEvent::Started(a, b, f) => {
            if !f.sensor {
                let s = m.scene;
                if ghost_of(s, a) is None && ghost_of(s, b) is None {
                    let ta = throwable_at(s, a);
                    let tb = throwable_at(s, b);
                    if ta is Some && tb is Some {
                        let e1 = (ta->0).0;
                        let t1 = (ta->0).1;
                        let e2 = (tb->0).0;
                        let t2 = (tb->0).1;
                        if (t1.sticky || t2.sticky) && !joined(s, e1, e2) && ev.has_contact
                            && e1 != e2 {
                            lemma_mark_fused_props(s, e1, e);
                            lemma_mark_fused_props(mark_fused(s, e1), e2, e);
                        }
                    }
                }
            }
        },
        CollisionEvent::Stopped(_, _, _) => {},
    }
}

proof fn lemma_run_events_keeps_stuck(m: Model, evs: Seq<TickEvent>, e: BodyId)
    requires
        scene_wf(m.scene),
    ensures
        scene_wf(run_events(m, evs).m.scene),
        stuck_at(m.scene, e) ==> stuck_at(run_events(m, evs).m.scene, e),
    decreases evs.len(),
{
    if evs.len() > 0 {
        lemma_step_keeps_stuck(m, evs.first(), e);
        lemma_run_events_keeps_stuck(step(m, evs.first()).m, evs.drop_first(), e);
    }
}

proof fn lemma_apply_bumps_keeps_stuck(s: Seq<Body>, bumps: Seq<BodyId>, e: BodyId)
    requires
        scene_wf(s),
    ensures
        scene_wf(apply_bumps(s, bumps)),
        stuck_at(s, e) ==> stuck_at(apply_bumps(s, bumps), e),
    decreases bumps.len(),
{
    if bumps.len() > 0 {
        lemma_bump_multiplier_props(s, bumps.first(), e);
        lemma_apply_bumps_keeps_stuck(
            bump_multiplier(s, bumps.first()),
            bumps.drop_first(),
            e,
        );
    }
}

/// Law (stuck monotonicity): once a throwable's `stuck` flag is true, it is
/// still true after any batch of events — nothing ever clears the flag.
pub proof fn lemma_stuck_monotonic(m: Model, evs: Seq<TickEvent>, e: BodyId)
    requires
        scene_wf(m.scene),
    ensures
        scene_wf(run_tick(m, evs).0.scene),
        stuck_at(m.scene, e) ==> stuck_at(run_tick(m, evs).0.scene, e),
{
    lemma_run_events_keeps_stuck(m, evs, e);
    lemma_apply_bumps_keeps_stuck(run_events(m, evs).m.scene, run_events(m, evs).bumps, e);
}

/// Law (stuck blocks life loss): a solid contact whose resolved throwable
/// side is already stuck leaves the player's lives unchanged, whatever
/// surface was hit.
pub proof fn lemma_stuck_blocks_life_loss(m: Model, a: BodyId, b: BodyId, hc: bool)
    requires
        ghost_of(m.scene, a) is None,
        ghost_of(m.scene, b) is None,
        (throwable_at(m.scene, a) matches Some((e, t)) && t.stuck && throwable_at(m.scene, b)
            is None) || (throwable_at(m.scene, b) matches Some((e, t)) && t.stuck
            && throwable_at(m.scene, a) is None),
    ensures
        step(
            m,
            TickEvent {
                event: CollisionEvent::Started(a, b, EventFlags { sensor: false }),
                has_contact: hc,
            },
        ).m.lives == m.lives,
{
}

/// Law (disabling-set symmetry): a sensor enter event adds the resolved
/// throwable bodies to the disabling set and the matching exit event removes
/// them again; starting from an empty set, the set is empty afterwards.
pub proof fn lemma_disabling_enter_exit(m: Model, a: BodyId, b: BodyId, hc1: bool, hc2: bool)
    requires
        m.disables =~= Set::<BodyId>::empty(),
    ensures
        ({
            let m1 = step(
                m,
                TickEvent {
                    event: CollisionEvent::Started(a, b, EventFlags { sensor: true }),
                    has_contact: hc1,
                },
            ).m;
            let m2 = step(
                m1,
                TickEvent {
                    event: CollisionEvent::Stopped(a, b, EventFlags { sensor: true }),
                    has_contact: hc2,
                },
            ).m;
            m2.disables =~= Set::<BodyId>::empty()
        }),
{
    let m1 = step(
        m,
        TickEvent {
            event: CollisionEvent::Started(a, b, EventFlags { sensor: true }),
            has_contact: hc1,
        },
    ).m;
    let m2 = step(
        m1,
        TickEvent {
            event: CollisionEvent::Stopped(a, b, EventFlags { sensor: true }),
            has_contact: hc2,
        },
    ).m;
    assert(m1.scene == m.scene);
    assert(m2.disables =~= Set::<BodyId>::empty());
}

/// Law (cluster self-collision suppression): once a solid contact has fused
/// the throwables resolved from `a` and `b`, every later candidate pair
/// whose root ancestors are those two bodies — the bodies themselves, or any
/// descendants of theirs — is suppressed by the contact filter.
pub proof fn lemma_fusion_then_suppressed(m: Model, a: BodyId, b: BodyId, x: BodyId, y: BodyId)
    requires
        scene_wf(m.scene),
        keys_unique(m.keys),
        m.uf.len() == m.keys.len(),
        ghost_of(m.scene, a) is None,
        ghost_of(m.scene, b) is None,
        throwable_at(m.scene, a) is Some,
        throwable_at(m.scene, b) is Some,
        (throwable_at(m.scene, a)->0).1.sticky || (throwable_at(m.scene, b)->0).1.sticky,
        !joined(
            m.scene,
            (throwable_at(m.scene, a)->0).0,
            (throwable_at(m.scene, b)->0).0,
        ),
        root_of(m.scene, x) == (throwable_at(m.scene, a)->0).0,
        root_of(m.scene, y) == (throwable_at(m.scene, b)->0).0,
    ensures
        ({
            let o = step(
                m,
                TickEvent {
                    event: CollisionEvent::Started(a, b, EventFlags { sensor: false }),
                    has_contact: true,
                },
            );
            suppressed(o.m.scene, o.m.uf, o.m.keys, x, y)
        }),
{
    let e1 = (throwable_at(m.scene, a)->0).0;
    let e2 = (throwable_at(m.scene, b)->0).0;
    let o = step(
        m,
        TickEvent {
            event: CollisionEvent::Started(a, b, EventFlags { sensor: false }),
            has_contact: true,
        },
    );
    let r1 = register_spec(m.uf, m.keys, e1);
    lemma_register_props(m.uf, m.keys, e1);
    let r2 = register_spec(r1.0, r1.1, e2);
    lemma_register_props(r1.0, r1.1, e2);
    let i1 = r1.2;
    let i2 = r2.2;
    let uf3 = union_spec(r2.0, i1, i2);
    assert(r1.1.len() <= r2.1.len());
    lemma_union_spec_joins(r2.0, i1, i2);
    assert(has_key(r2.1, e1));
    assert(key_idx(r2.1, e1) == i1);
    assert(has_key(r2.1, e2) && key_idx(r2.1, e2) == i2);
    if e1 != e2 {
        lemma_mark_fused_props(m.scene, e1, e1);
        lemma_mark_fused_keeps_roots(m.scene, e1, x);
        lemma_mark_fused_keeps_roots(mark_fused(m.scene, e1), e2, x);
        lemma_mark_fused_keeps_roots(m.scene, e1, y);
        lemma_mark_fused_keeps_roots(mark_fused(m.scene, e1), e2, y);
    }
    assert(root_of(o.m.scene, x) == e1);
    assert(root_of(o.m.scene, y) == e2);
    assert(same_cluster(o.m.scene, o.m.uf, o.m.keys, x, y));
}

/// Law (no duplicate joint): a solid contact whose two resolved throwables
/// are already directly connected by a joint emits no command at all and
/// leaves the session unchanged.
pub proof fn lemma_no_duplicate_joint(m: Model, a: BodyId, b: BodyId, hc: bool)
    requires
        ghost_of(m.scene, a) is None,
        ghost_of(m.scene, b) is None,
        throwable_at(m.scene, a) is Some,
        throwable_at(m.scene, b) is Some,
        joined(
            m.scene,
            (throwable_at(m.scene, a)->0).0,
            (throwable_at(m.scene, b)->0).0,
        ),
    ensures
        ({
            let o = step(
                m,
                TickEvent {
                    event: CollisionEvent::Started(a, b, EventFlags { sensor: false }),
                    has_contact: hc,
                },
            );
            o.cmds == Seq::<Command>::empty() && same_model(o.m, m)
        }),
{
}

} // verus!
