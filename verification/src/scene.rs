//! Model of the bodies the collision core reads: every body is a plain record
//! holding its identifier, an optional parent link, and the optional markers
//! (ghost preview, ignore-collisions, disabler, destroyer, wall, joint link,
//! throwable state) that the contact filter and the resolver look up, walking
//! parent chains iteratively instead of querying a live entity store.

use vstd::prelude::*;

verus! {

/// Opaque handle naming a physical body for the session's lifetime; carries
/// no arithmetic meaning and is used only for equality and as a key.
#[derive(Clone, Copy, PartialEq, Eq, Structural, Hash, Debug)]
pub struct BodyId(pub u64);

/// Preview marker: a transient non-physical body shadowing the real body it
/// was made from (the marker's field).
#[derive(Clone, Copy, Debug)]
pub struct GhostMarker(pub BodyId);

/// Per-body fusion and scoring state.
#[derive(Clone, Copy, Debug)]
pub struct Throwable {
    /// Owning player, absent for neutral or enemy-thrown items.
    pub player: Option<BodyId>,
    /// Score multiplier; starts at 1 and rises on wall bounces.
    pub multiplier: usize,
    /// True once the body has ever been fused; never reset.
    pub stuck: bool,
    /// Whether the next qualifying contact should attempt fusion.
    pub sticky: bool,
}

impl Throwable {
    pub fn new(player: Option<BodyId>, sticky: bool) -> (t: Throwable)
        ensures
            t == (Throwable { player, multiplier: 1usize, stuck: false, sticky }),
    {
        Throwable { player, multiplier: 1, stuck: false, sticky }
    }
}

/// Everything the collision core can read about one body.
#[derive(Clone, Copy, Debug)]
pub struct Body {
    pub id: BodyId,
    /// Parent in the scene graph, used for ancestor-chain walks.
    pub parent: Option<BodyId>,
    pub ghost_marker: Option<GhostMarker>,
    /// Staged or held items suppress all contact resolution.
    pub ignore_collisions: bool,
    /// Sensor zone that blocks the player from releasing a throw.
    pub is_disabler: bool,
    /// Hazard surface: touching it despawns a throwable and may cost a life.
    pub is_destroyer: bool,
    /// Bounce surface: touching it raises a throwable's multiplier.
    pub is_wall: bool,
    /// Other endpoint of a fixed joint attached directly to this body.
    pub joint_parent: Option<BodyId>,
    pub throwable: Option<Throwable>,
}

/// Lookup table of all bodies, ordered so that every parent appears before
/// its children (bodies are spawned before anything is parented under them).
pub struct Scene {
    pub bodies: Vec<Body>,
}

pub open spec fn has_body(s: Seq<Body>, b: BodyId) -> bool {
    exists|i: int| 0 <= i < s.len() && (#[trigger] s[i]).id == b
}

/// The index of the entry for `b`; meaningful only when `has_body` and the
/// identifiers are unique.
pub open spec fn idx_of(s: Seq<Body>, b: BodyId) -> int {
    choose|i: int| 0 <= i < s.len() && (#[trigger] s[i]).id == b
}

pub open spec fn unique_ids(s: Seq<Body>) -> bool {
    forall|i: int, j: int|
        #![trigger s[i].id, s[j].id]
        0 <= i < s.len() && 0 <= j < s.len() && i != j ==> s[i].id != s[j].id
}

pub open spec fn has_body_before(s: Seq<Body>, b: BodyId, i: int) -> bool {
    exists|j: int| 0 <= j < i && (#[trigger] s[j]).id == b
}

/// Every parent link points at an earlier entry, so chain walks terminate.
pub open spec fn parents_first(s: Seq<Body>) -> bool {
    forall|i: int|
        0 <= i < s.len() ==> ((#[trigger] s[i]).parent matches Some(p) ==> has_body_before(
            s,
            p,
            i,
        ))
}

pub open spec fn scene_wf(s: Seq<Body>) -> bool {
    unique_ids(s) && parents_first(s)
}

/// Index of the parent entry of entry `i`, or -1 where the walk stops.
pub open spec fn parent_idx(s: Seq<Body>, i: int) -> int {
    if s[i].parent is Some {
        let p = s[i].parent->0;
        if has_body(s, p) && idx_of(s, p) < i {
            idx_of(s, p)
        } else {
            -1
        }
    } else {
        -1
    }
}

/// Whether `target` names entry `i` or any of its ancestors.
pub open spec fn chain_has(s: Seq<Body>, i: int, target: BodyId) -> bool
    decreases i,
    when 0 <= i
{
    s[i].id == target || (parent_idx(s, i) >= 0 && chain_has(s, parent_idx(s, i), target))
}

/// First ghost marker on the ancestor chain of entry `i`: the shadowed body
/// paired with the id of the entry carrying the marker.
pub open spec fn chain_ghost(s: Seq<Body>, i: int) -> Option<(BodyId, BodyId)>
    decreases i,
    when 0 <= i
{
    if s[i].ghost_marker is Some {
        Some(((s[i].ghost_marker->0).0, s[i].id))
    } else if parent_idx(s, i) >= 0 {
        chain_ghost(s, parent_idx(s, i))
    } else {
        None
    }
}

/// Whether entry `i` or any ancestor carries the ignore-collisions marker.
pub open spec fn chain_ignores(s: Seq<Body>, i: int) -> bool
    decreases i,
    when 0 <= i
{
    s[i].ignore_collisions || (parent_idx(s, i) >= 0 && chain_ignores(s, parent_idx(s, i)))
}

/// Identifier of the most-ancestral body above entry `i`.
pub open spec fn chain_root(s: Seq<Body>, i: int) -> BodyId
    decreases i,
    when 0 <= i
{
    if parent_idx(s, i) >= 0 {
        chain_root(s, parent_idx(s, i))
    } else {
        s[i].id
    }
}

/// Nearest body at or above entry `i` carrying a throwable: its identifier
/// paired with the throwable record.
pub open spec fn chain_throwable(s: Seq<Body>, i: int) -> Option<(BodyId, Throwable)>
    decreases i,
    when 0 <= i
{
    if s[i].throwable is Some {
        Some((s[i].id, s[i].throwable->0))
    } else if parent_idx(s, i) >= 0 {
        chain_throwable(s, parent_idx(s, i))
    } else {
        None
    }
}

/// The record for `b`, when the scene holds one.
pub open spec fn body_of(s: Seq<Body>, b: BodyId) -> Option<Body> {
    if has_body(s, b) {
        Some(s[idx_of(s, b)])
    } else {
        None
    }
}

/// Whether `target` is `b` itself or an ancestor of `b`.
pub open spec fn in_chain(s: Seq<Body>, b: BodyId, target: BodyId) -> bool {
    if has_body(s, b) {
        chain_has(s, idx_of(s, b), target)
    } else {
        b == target
    }
}

/// The first ghost marker found walking up from `b`, with its carrier's id.
pub open spec fn ghost_of(s: Seq<Body>, b: BodyId) -> Option<(BodyId, BodyId)> {
    if has_body(s, b) {
        chain_ghost(s, idx_of(s, b))
    } else {
        None
    }
}

/// Whether `b` or an ancestor carries the ignore-collisions marker.
pub open spec fn ignores(s: Seq<Body>, b: BodyId) -> bool {
    if has_body(s, b) {
        chain_ignores(s, idx_of(s, b))
    } else {
        false
    }
}

/// The most-ancestral body above `b`, or `b` itself when unknown.
pub open spec fn root_of(s: Seq<Body>, b: BodyId) -> BodyId {
    if has_body(s, b) {
        chain_root(s, idx_of(s, b))
    } else {
        b
    }
}

/// The nearest body at or above `b` carrying a throwable.
pub open spec fn throwable_at(s: Seq<Body>, b: BodyId) -> Option<(BodyId, Throwable)> {
    if has_body(s, b) {
        chain_throwable(s, idx_of(s, b))
    } else {
        None
    }
}

/// Whether the body `b` itself (not an ancestor) carries the disabler flag.
pub open spec fn flag_disabler(s: Seq<Body>, b: BodyId) -> bool {
    body_of(s, b) matches Some(x) && x.is_disabler
}

/// Whether the body `b` itself carries the destroyer flag.
pub open spec fn flag_destroyer(s: Seq<Body>, b: BodyId) -> bool {
    body_of(s, b) matches Some(x) && x.is_destroyer
}

/// Whether the body `b` itself carries the wall flag.
pub open spec fn flag_wall(s: Seq<Body>, b: BodyId) -> bool {
    body_of(s, b) matches Some(x) && x.is_wall
}

/// Whether a joint attached directly to `x` names `y` as its other endpoint.
pub open spec fn joint_links(s: Seq<Body>, x: BodyId, y: BodyId) -> bool {
    body_of(s, x) matches Some(bx) && bx.joint_parent == Some(y)
}

/// Whether `x` and `y` are directly connected by a joint on either of them.
pub open spec fn joined(s: Seq<Body>, x: BodyId, y: BodyId) -> bool {
    joint_links(s, x, y) || joint_links(s, y, x)
}

/// `t` after a fusion: permanently stuck and sticky again.
pub open spec fn fused_throwable(t: Throwable) -> Throwable {
    Throwable { stuck: true, sticky: true, ..t }
}

/// The scene after the throwable on body `b` (if any) is marked fused.
pub open spec fn mark_fused(s: Seq<Body>, b: BodyId) -> Seq<Body> {
    if has_body(s, b) && s[idx_of(s, b)].throwable is Some {
        s.update(
            idx_of(s, b),
            (Body {
                throwable: Some(fused_throwable(s[idx_of(s, b)].throwable->0)),
                ..s[idx_of(s, b)]
            }),
        )
    } else {
        s
    }
}

/// `t` after a wall bounce: the multiplier rises by one, saturating.
pub open spec fn bumped_throwable(t: Throwable) -> Throwable {
    Throwable { multiplier: crate::score::cap((t.multiplier + 1) as nat), ..t }
}

/// The scene after the throwable on body `b` (if any) gains a wall bounce.
pub open spec fn bump_multiplier(s: Seq<Body>, b: BodyId) -> Seq<Body> {
    if has_body(s, b) && s[idx_of(s, b)].throwable is Some {
        s.update(
            idx_of(s, b),
            (Body {
                throwable: Some(bumped_throwable(s[idx_of(s, b)].throwable->0)),
                ..s[idx_of(s, b)]
            }),
        )
    } else {
        s
    }
}

/// Whether the record for `e` exists, carries a throwable, and that
/// throwable is marked stuck.
pub open spec fn stuck_at(s: Seq<Body>, e: BodyId) -> bool {
    body_of(s, e) matches Some(x) && x.throwable matches Some(t) && t.stuck
}

/// Marking a fusion keeps the scene well-formed and keeps every stuck mark.
pub proof fn lemma_mark_fused_props(s: Seq<Body>, b: BodyId, e: BodyId)
    requires
        scene_wf(s),
    ensures
        scene_wf(mark_fused(s, b)),
        stuck_at(s, e) ==> stuck_at(mark_fused(s, b), e),
{
    if has_body(s, b) && s[idx_of(s, b)].throwable is Some {
        let i = idx_of(s, b);
        let nb = Body {
            throwable: Some(fused_throwable(s[i].throwable->0)),
            ..s[i]
        };
        lemma_update_same_links(s, i, nb);
        let t = s.update(i, nb);
        if stuck_at(s, e) {
            let j = idx_of(s, e);
            assert(idx_of(t, e) == j);
            if j == i {
                assert(t[j] == nb);
            } else {
                assert(t[j] == s[j]);
            }
        }
    }
}

/// Raising a multiplier keeps the scene well-formed and every stuck mark.
pub proof fn lemma_bump_multiplier_props(s: Seq<Body>, b: BodyId, e: BodyId)
    requires
        scene_wf(s),
    ensures
        scene_wf(bump_multiplier(s, b)),
        stuck_at(s, e) ==> stuck_at(bump_multiplier(s, b), e),
{
    if has_body(s, b) && s[idx_of(s, b)].throwable is Some {
        let i = idx_of(s, b);
        let nb = Body {
            throwable: Some(bumped_throwable(s[i].throwable->0)),
            ..s[i]
        };
        lemma_update_same_links(s, i, nb);
        let t = s.update(i, nb);
        if stuck_at(s, e) {
            let j = idx_of(s, e);
            assert(idx_of(t, e) == j);
            if j == i {
                assert(t[j] == nb);
            } else {
                assert(t[j] == s[j]);
            }
        }
    }
}

proof fn lemma_update_chain_root(s: Seq<Body>, i: int, nb: Body, j: int)
    requires
        scene_wf(s),
        0 <= i < s.len(),
        nb.id == s[i].id,
        nb.parent == s[i].parent,
        0 <= j < s.len(),
    ensures
        chain_root(s.update(i, nb), j) == chain_root(s, j),
    decreases j,
{
    lemma_update_same_links(s, i, nb);
    let t = s.update(i, nb);
    assert(t[j].parent == s[j].parent);
    if s[j].parent is Some {
        let p = s[j].parent->0;
        assert(has_body(t, p) == has_body(s, p));
        if has_body(s, p) {
            assert(idx_of(t, p) == idx_of(s, p));
        }
    }
    assert(parent_idx(t, j) == parent_idx(s, j));
    if parent_idx(s, j) >= 0 {
        lemma_update_chain_root(s, i, nb, parent_idx(s, j));
    } else {
        assert(t[j].id == s[j].id);
    }
}

/// Marking a fusion moves no body: every root ancestor stays the same.
pub proof fn lemma_mark_fused_keeps_roots(s: Seq<Body>, b: BodyId, x: BodyId)
    requires
        scene_wf(s),
    ensures
        root_of(mark_fused(s, b), x) == root_of(s, x),
{
    if has_body(s, b) && s[idx_of(s, b)].throwable is Some {
        let i = idx_of(s, b);
        let nb = Body {
            throwable: Some(fused_throwable(s[i].throwable->0)),
            ..s[i]
        };
        lemma_update_same_links(s, i, nb);
        let t = s.update(i, nb);
        assert(has_body(t, x) == has_body(s, x));
        if has_body(s, x) {
            assert(idx_of(t, x) == idx_of(s, x));
            lemma_update_chain_root(s, i, nb, idx_of(s, x));
        }
    }
}

/// Replacing an entry without touching its identifier or parent link keeps
/// the scene well-formed and leaves every lookup index unchanged.
pub proof fn lemma_update_same_links(s: Seq<Body>, i: int, nb: Body)
    requires
        scene_wf(s),
        0 <= i < s.len(),
        nb.id == s[i].id,
        nb.parent == s[i].parent,
    ensures
        scene_wf(s.update(i, nb)),
        forall|b: BodyId| has_body(s.update(i, nb), b) == has_body(s, b),
        forall|b: BodyId|
            has_body(s, b) ==> #[trigger] idx_of(s.update(i, nb), b) == idx_of(s, b),
{
    let t = s.update(i, nb);
    assert forall|b: BodyId| has_body(t, b) == has_body(s, b) by {
        if has_body(s, b) {
            let j = idx_of(s, b);
            assert(t[j].id == b);
        }
        if has_body(t, b) {
            let j = choose|j: int| 0 <= j < t.len() && (#[trigger] t[j]).id == b;
            assert(s[j].id == b);
        }
    }
    assert forall|j: int, k: int|
        #![trigger t[j].id, t[k].id]
        0 <= j < t.len() && 0 <= k < t.len() && j != k implies t[j].id != t[k].id by {
        assert(t[j].id == s[j].id);
        assert(t[k].id == s[k].id);
    }
    assert forall|j: int|
        0 <= j < t.len() implies ((#[trigger] t[j]).parent matches Some(p) ==> has_body_before(
        t,
        p,
        j,
    )) by {
        assert(t[j].parent == s[j].parent);
        if s[j].parent is Some {
            let p = s[j].parent->0;
            assert(has_body_before(s, p, j));
            let k = choose|k: int| 0 <= k < j && (#[trigger] s[k]).id == p;
            assert(t[k].id == p);
        }
    }
    assert forall|b: BodyId| has_body(s, b) implies #[trigger] idx_of(t, b) == idx_of(s, b) by {
        let j = idx_of(s, b);
        assert(t[j].id == b);
        assert(has_body(t, b));
        let k = idx_of(t, b);
        assert(0 <= k < t.len() && t[k].id == b);
        assert(s[k].id == b);
    }
}

impl Scene {
    pub open spec fn view(&self) -> Seq<Body> {
        self.bodies@
    }

    pub open spec fn wf(&self) -> bool {
        scene_wf(self@)
    }

    pub fn new() -> (r: Scene)
        ensures
            r@ =~= Seq::<Body>::empty(),
            r.wf(),
    {
        Scene { bodies: Vec::new() }
    }

    /// Position of the entry for `b`, when there is one.
    pub fn index_of(&self, b: BodyId) -> (r: Option<usize>)
        requires
            self.wf(),
        ensures
            match r {
                Some(i) => i < self@.len() && self@[i as int].id == b && i as int == idx_of(
                    self@,
                    b,
                ),
                None => !has_body(self@, b),
            },
    {
        let n = self.bodies.len();
        let mut k: usize = 0;
        while k < n
            invariant
                k <= n,
                n == self@.len(),
                self.wf(),
                forall|j: int| 0 <= j < k ==> (#[trigger] self@[j]).id != b,
            decreases n - k,
        {
            if self.bodies[k].id == b {
                proof {
                    let c = idx_of(self@, b);
                    assert(0 <= c < self@.len() && self@[c].id == b);
                }
                return Some(k);
            }
            k = k + 1;
        }
        None
    }

    /// The record for `b`, when the scene holds one.
    pub fn lookup(&self, b: BodyId) -> (r: Option<Body>)
        requires
            self.wf(),
        ensures
            r == body_of(self@, b),
    {
        match self.index_of(b) {
            Some(i) => Some(self.bodies[i]),
            None => None,
        }
    }

    /// Registers a body; the parent, if any, must already be present.
    pub fn push_body(&mut self, body: Body)
        requires
            old(self).wf(),
            !has_body(old(self)@, body.id),
            body.parent matches Some(p) ==> has_body(old(self)@, p),
        ensures
            final(self).wf(),
            final(self)@ =~= old(self)@.push(body),
    {
        proof {
            let s = self@.push(body);
            assert forall|i: int|
                0 <= i < s.len() implies ((#[trigger] s[i]).parent matches Some(p)
                ==> has_body_before(s, p, i)) by {
                if i < self@.len() {
                    assert(s[i] == self@[i]);
                    if s[i].parent is Some {
                        let p = s[i].parent->0;
                        assert(has_body_before(self@, p, i));
                        let j = choose|j: int| 0 <= j < i && (#[trigger] self@[j]).id == p;
                        assert(s[j].id == p);
                    }
                } else {
                    if body.parent is Some {
                        let p = body.parent->0;
                        let j = idx_of(self@, p);
                        assert(0 <= j < self@.len() && self@[j].id == p);
                        assert(s[j].id == p);
                    }
                }
            }
            assert forall|i: int, j: int|
                #![trigger s[i].id, s[j].id]
                0 <= i < s.len() && 0 <= j < s.len() && i != j implies s[i].id != s[j].id by {
                if i < self@.len() && j < self@.len() {
                    assert(self@[i].id != self@[j].id);
                } else if i < self@.len() {
                    assert(!(self@[i].id == body.id)) by {
                        assert(!has_body(self@, body.id));
                    }
                } else if j < self@.len() {
                    assert(!(self@[j].id == body.id)) by {
                        assert(!has_body(self@, body.id));
                    }
                }
            }
        }
        self.bodies.push(body);
    }

    /// Step to the parent entry of entry `i`, mirroring `parent_idx`.
    fn parent_index(&self, i: usize) -> (r: Option<usize>)
        requires
            self.wf(),
            i < self@.len(),
        ensures
            match r {
                Some(j) => j as int == parent_idx(self@, i as int) && j < i,
                None => parent_idx(self@, i as int) == -1,
            },
    {
        match self.bodies[i].parent {
            Some(p) => match self.index_of(p) {
                Some(j) => if j < i {
                    Some(j)
                } else {
                    None
                },
                None => None,
            },
            None => None,
        }
    }

    fn chain_has_from(&self, i: usize, target: BodyId) -> (r: bool)
        requires
            self.wf(),
            i < self@.len(),
        ensures
            r == chain_has(self@, i as int, target),
        decreases i,
    {
        if self.bodies[i].id == target {
            true
        } else {
            match self.parent_index(i) {
                Some(j) => self.chain_has_from(j, target),
                None => false,
            }
        }
    }

    /// Whether `target` is `b` itself or one of its ancestors.
    pub fn find_in_chain(&self, b: BodyId, target: BodyId) -> (r: bool)
        requires
            self.wf(),
        ensures
            r == in_chain(self@, b, target),
    {
        match self.index_of(b) {
            Some(i) => self.chain_has_from(i, target),
            None => b == target,
        }
    }

    fn chain_ghost_from(&self, i: usize) -> (r: Option<(BodyId, BodyId)>)
        requires
            self.wf(),
            i < self@.len(),
        ensures
            r == chain_ghost(self@, i as int),
        decreases i,
    {
        let body = &self.bodies[i];
        match body.ghost_marker {
            Some(g) => Some((g.0, body.id)),
            None => match self.parent_index(i) {
                Some(j) => self.chain_ghost_from(j),
                None => None,
            },
        }
    }

    /// The first ghost marker walking up from `b`: the shadowed body's id
    /// paired with the id of the marker's carrier.
    pub fn resolve_ghost(&self, b: BodyId) -> (r: Option<(BodyId, BodyId)>)
        requires
            self.wf(),
        ensures
            r == ghost_of(self@, b),
    {
        match self.index_of(b) {
            Some(i) => self.chain_ghost_from(i),
            None => None,
        }
    }

    fn chain_ignores_from(&self, i: usize) -> (r: bool)
        requires
            self.wf(),
            i < self@.len(),
        ensures
            r == chain_ignores(self@, i as int),
        decreases i,
    {
        if self.bodies[i].ignore_collisions {
            true
        } else {
            match self.parent_index(i) {
                Some(j) => self.chain_ignores_from(j),
                None => false,
            }
        }
    }

    /// Whether `b` or an ancestor carries the ignore-collisions marker.
    pub fn find_ignore(&self, b: BodyId) -> (r: bool)
        requires
            self.wf(),
        ensures
            r == ignores(self@, b),
    {
        match self.index_of(b) {
            Some(i) => self.chain_ignores_from(i),
            None => false,
        }
    }

    fn chain_root_from(&self, i: usize) -> (r: BodyId)
        requires
            self.wf(),
            i < self@.len(),
        ensures
            r == chain_root(self@, i as int),
        decreases i,
    {
        match self.parent_index(i) {
            Some(j) => self.chain_root_from(j),
            None => self.bodies[i].id,
        }
    }

    /// The most-ancestral body above `b`, or `b` itself when unknown.
    pub fn find_root(&self, b: BodyId) -> (r: BodyId)
        requires
            self.wf(),
        ensures
            r == root_of(self@, b),
    {
        match self.index_of(b) {
            Some(i) => self.chain_root_from(i),
            None => b,
        }
    }

    fn chain_throwable_from(&self, i: usize) -> (r: Option<(BodyId, Throwable)>)
        requires
            self.wf(),
            i < self@.len(),
        ensures
            r == chain_throwable(self@, i as int),
        decreases i,
    {
        let body = &self.bodies[i];
        match body.throwable {
            Some(t) => Some((body.id, t)),
            None => match self.parent_index(i) {
                Some(j) => self.chain_throwable_from(j),
                None => None,
            },
        }
    }

    /// The nearest body at or above `b` carrying a throwable, with its state.
    pub fn find_throwable(&self, b: BodyId) -> (r: Option<(BodyId, Throwable)>)
        requires
            self.wf(),
        ensures
            r == throwable_at(self@, b),
    {
        match self.index_of(b) {
            Some(i) => self.chain_throwable_from(i),
            None => None,
        }
    }

    /// Whether a fixed joint on `x` or on `y` directly connects the two.
    pub fn connected_by_joint(&self, x: BodyId, y: BodyId) -> (r: bool)
        requires
            self.wf(),
        ensures
            r == joined(self@, x, y),
    {
        let lx = match self.lookup(x) {
            Some(bx) => match bx.joint_parent {
                Some(p) => p == y,
                None => false,
            },
            None => false,
        };
        if lx {
            return true;
        }
        match self.lookup(y) {
            Some(by) => match by.joint_parent {
                Some(p) => p == x,
                None => false,
            },
            None => false,
        }
    }

    /// Marks the throwable on body `b` as fused: stuck and sticky.
    pub fn set_fused(&mut self, b: BodyId)
        requires
            old(self).wf(),
        ensures
            final(self).wf(),
            final(self)@ =~= mark_fused(old(self)@, b),
    {
        match self.index_of(b) {
            Some(i) => {
                let body = self.bodies[i];
                match body.throwable {
                    Some(t) => {
                        let nb = Body {
                            throwable: Some(
                                Throwable { stuck: true, sticky: true, ..t },
                            ),
                            ..body
                        };
                        proof {
                            lemma_update_same_links(self@, i as int, nb);
                        }
                        self.bodies.set(i, nb);
                    },
                    None => {},
                }
            },
            None => {},
        }
    }

    /// Raises the multiplier of the throwable on body `b` by one, saturating.
    pub fn raise_multiplier(&mut self, b: BodyId)
        requires
            old(self).wf(),
        ensures
            final(self).wf(),
            final(self)@ =~= bump_multiplier(old(self)@, b),
    {
        match self.index_of(b) {
            Some(i) => {
                let body = self.bodies[i];
                match body.throwable {
                    Some(t) => {
                        let m = crate::score::sat_add(t.multiplier, 1);
                        let nb = Body { throwable: Some((Throwable { multiplier: m, ..t })), ..body };
                        proof {
                            lemma_update_same_links(self@, i as int, nb);
                        }
                        self.bodies.set(i, nb);
                    },
                    None => {},
                }
            },
            None => {},
        }
    }
}

} // verus!
