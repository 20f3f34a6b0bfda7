//! Contact filter: a read-only predicate invoked for every candidate contact
//! pair before the solver computes impulses.  It suppresses pairs involving
//! throw-preview ghosts, staged items marked ignore-collisions, and pairs
//! whose root bodies already belong to one fused cluster.

use crate::scene::{ghost_of, ignores, in_chain, root_of, BodyId, Body, Scene};
use crate::stuck::{has_key, key_idx, StuckItems};
use vstd::prelude::*;

verus! {

/// Whether `x`'s resolved ghost marker shadows a body on `y`'s ancestor
/// chain: a throw preview must never collide with the item it previews.
pub open spec fn ghost_shadows(s: Seq<Body>, x: BodyId, y: BodyId) -> bool {
    ghost_of(s, x) matches Some((g, _)) && in_chain(s, y, g)
}

/// Whether the root ancestors of `a` and `b` are both registered and already
/// union-find-equivalent: a fused cluster must not fight itself.
pub open spec fn same_cluster(
    s: Seq<Body>,
    uf: Seq<usize>,
    keys: Seq<BodyId>,
    a: BodyId,
    b: BodyId,
) -> bool {
    let pa = root_of(s, a);
    let pb = root_of(s, b);
    has_key(keys, pa) && has_key(keys, pb) && uf[key_idx(keys, pa)] == uf[key_idx(keys, pb)]
}

/// Whether the candidate pair `(a, b)` must produce no solver response.
pub open spec fn suppressed(
    s: Seq<Body>,
    uf: Seq<usize>,
    keys: Seq<BodyId>,
    a: BodyId,
    b: BodyId,
) -> bool {
    ||| ghost_shadows(s, a, b)
    ||| ghost_shadows(s, b, a)
    ||| (ghost_of(s, a) is Some && ghost_of(s, b) is Some)
    ||| ignores(s, a)
    ||| ignores(s, b)
    ||| same_cluster(s, uf, keys, a, b)
}

/// Decides whether the candidate pair `(a, b)` may generate an impulse.
/// Reads the scene and registry only, so concurrent calls are safe.
pub fn filter_contact_pair(scene: &Scene, stuck: &StuckItems, a: BodyId, b: BodyId) -> (allow:
    bool)
    requires
        scene.wf(),
        stuck.wf(),
    ensures
        allow == !suppressed(scene@, stuck.union_find@, stuck.map@, a, b),
{
    let ga = scene.resolve_ghost(a);
    if let Some((g, _)) = ga {
        if scene.find_in_chain(b, g) {
            return false;
        }
    }
    let gb = scene.resolve_ghost(b);
    if let Some((g, _)) = gb {
        if scene.find_in_chain(a, g) {
            return false;
        }
    }
    if ga.is_some() && gb.is_some() {
        return false;
    }
    if scene.find_ignore(a) {
        return false;
    }
    if scene.find_ignore(b) {
        return false;
    }
    let pa = scene.find_root(a);
    let pb = scene.find_root(b);
    match (stuck.map.get(pa), stuck.map.get(pb)) {
        (Some(ia), Some(ib)) => {
            let ra = stuck.union_find.find(ia);
            let rb = stuck.union_find.find(ib);
            if ra == rb {
                return false;
            }
        },
        _ => {},
    }
    true
}

/// Law: when one side resolves to a ghost marker whose shadowed body lies on
/// the other side's ancestor chain, the pair is suppressed.
pub proof fn lemma_ghost_suppression(
    s: Seq<Body>,
    uf: Seq<usize>,
    keys: Seq<BodyId>,
    a: BodyId,
    b: BodyId,
)
    requires
        ghost_shadows(s, a, b) || ghost_shadows(s, b, a),
    ensures
        suppressed(s, uf, keys, a, b),
{
}

/// Law: once the root ancestors of `a` and `b` are registered with
/// union-find-equivalent indices — as they are after a fusion unions them —
/// every later candidate pair of their descendants is suppressed.
pub proof fn lemma_cluster_suppression(
    s: Seq<Body>,
    uf: Seq<usize>,
    keys: Seq<BodyId>,
    a: BodyId,
    b: BodyId,
)
    requires
        has_key(keys, root_of(s, a)),
        has_key(keys, root_of(s, b)),
        uf[key_idx(keys, root_of(s, a))] == uf[key_idx(keys, root_of(s, b))],
    ensures
        suppressed(s, uf, keys, a, b),
{
}

} // verus!
