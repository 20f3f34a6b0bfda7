//! The fused-items resource: the disjoint-set registry together with the
//! body-to-index map that assigns each body a stable registry index the
//! first time it participates in a fusion.  Entries are never removed, so
//! the map only grows (stale entries for despawned bodies stay behind).

use crate::registry::DisjointSets;
use crate::scene::BodyId;
use vstd::prelude::*;

verus! {

pub open spec fn has_key(s: Seq<BodyId>, b: BodyId) -> bool {
    exists|i: int| 0 <= i < s.len() && s[i] == b
}

pub open spec fn keys_unique(s: Seq<BodyId>) -> bool {
    forall|i: int, j: int| 0 <= i < s.len() && 0 <= j < s.len() && i != j ==> s[i] != s[j]
}

/// The registry index of `b`; meaningful only when `has_key` holds and the
/// keys are unique.
pub open spec fn key_idx(s: Seq<BodyId>, b: BodyId) -> int {
    choose|i: int| 0 <= i < s.len() && s[i] == b
}

/// Map from body identifier to registry index: the key stored at position
/// `i` is mapped to index `i`, so insertion order assigns indices.
pub struct IndexMap {
    keys: Vec<BodyId>,
}

impl IndexMap {
    pub closed spec fn view(&self) -> Seq<BodyId> {
        self.keys@
    }

    pub open spec fn wf(&self) -> bool {
        keys_unique(self@)
    }

    pub fn new() -> (r: IndexMap)
        ensures
            r@ =~= Seq::<BodyId>::empty(),
            r.wf(),
    {
        IndexMap { keys: Vec::new() }
    }

    pub fn len(&self) -> (n: usize)
        ensures
            n == self@.len(),
    {
        self.keys.len()
    }

    /// The registry index of `b`, when one was assigned.
    pub fn get(&self, b: BodyId) -> (r: Option<usize>)
        requires
            self.wf(),
        ensures
            match r {
                Some(i) => i < self@.len() && self@[i as int] == b && i as int == key_idx(
                    self@,
                    b,
                ),
                None => !has_key(self@, b),
            },
    {
        let n = self.keys.len();
        let mut k: usize = 0;
        while k < n
            invariant
                k <= n,
                n == self@.len(),
                self.wf(),
                forall|j: int| 0 <= j < k ==> self@[j] != b,
            decreases n - k,
        {
            if self.keys[k] == b {
                proof {
                    let c = key_idx(self@, b);
                    assert(0 <= c < self@.len() && self@[c] == b);
                }
                return Some(k);
            }
            k = k + 1;
        }
        None
    }

    /// Assigns the next index to a previously-unseen key.
    pub fn push_key(&mut self, b: BodyId)
        requires
            old(self).wf(),
            !has_key(old(self)@, b),
            old(self)@.len() < usize::MAX,
        ensures
            final(self).wf(),
            final(self)@ =~= old(self)@.push(b),
    {
        proof {
            let s = self@.push(b);
            assert forall|i: int, j: int|
                0 <= i < s.len() && 0 <= j < s.len() && i != j implies s[i] != s[j] by {
                if i < self@.len() && j < self@.len() {
                } else if i < self@.len() {
                    assert(s[j] == b);
                } else if j < self@.len() {
                    assert(s[i] == b);
                }
            }
        }
        self.keys.push(b);
    }
}

/// Registry state after `b` is registered: an unseen body gets a fresh
/// singleton set whose index is the map's previous length.
pub open spec fn register_spec(uf: Seq<usize>, keys: Seq<BodyId>, b: BodyId) -> (
    Seq<usize>,
    Seq<BodyId>,
    int,
) {
    if has_key(keys, b) {
        (uf, keys, key_idx(keys, b))
    } else {
        (uf.push(keys.len() as usize), keys.push(b), keys.len() as int)
    }
}

/// Registering keeps the keys unique and in lockstep with the registry,
/// assigns the key an in-range index, and moves no existing key's index.
pub proof fn lemma_register_props(uf: Seq<usize>, keys: Seq<BodyId>, b: BodyId)
    requires
        keys_unique(keys),
        uf.len() == keys.len(),
    ensures
        keys_unique(register_spec(uf, keys, b).1),
        register_spec(uf, keys, b).0.len() == register_spec(uf, keys, b).1.len(),
        has_key(register_spec(uf, keys, b).1, b),
        0 <= register_spec(uf, keys, b).2 < register_spec(uf, keys, b).1.len(),
        register_spec(uf, keys, b).1[register_spec(uf, keys, b).2] == b,
        register_spec(uf, keys, b).2 == key_idx(register_spec(uf, keys, b).1, b),
        forall|e: BodyId|
            has_key(keys, e) ==> #[trigger] has_key(register_spec(uf, keys, b).1, e),
        forall|e: BodyId|
            has_key(keys, e) ==> #[trigger] key_idx(register_spec(uf, keys, b).1, e) == key_idx(
                keys,
                e,
            ),
{
    if has_key(keys, b) {
        let c = key_idx(keys, b);
        assert(0 <= c < keys.len() && keys[c] == b);
    } else {
        let t = keys.push(b);
        assert(t[keys.len() as int] == b);
        assert forall|i: int, j: int|
            0 <= i < t.len() && 0 <= j < t.len() && i != j implies t[i] != t[j] by {
            if i < keys.len() && j < keys.len() {
            } else if i < keys.len() {
                assert(t[j] == b);
                if keys[i] == b {
                    assert(has_key(keys, b));
                }
            } else if j < keys.len() {
                assert(t[i] == b);
                if keys[j] == b {
                    assert(has_key(keys, b));
                }
            }
        }
        let c = key_idx(t, b);
        assert(0 <= c < t.len() && t[c] == b);
        if c < keys.len() {
            assert(keys[c] == b);
            assert(has_key(keys, b));
        }
        assert forall|e: BodyId| has_key(keys, e) implies #[trigger] has_key(t, e)
            && key_idx(t, e) == key_idx(keys, e) by {
            let i = key_idx(keys, e);
            assert(0 <= i < keys.len() && keys[i] == e);
            assert(t[i] == e);
            assert(has_key(t, e));
            let c2 = key_idx(t, e);
            assert(0 <= c2 < t.len() && t[c2] == e);
            if c2 == keys.len() {
                assert(e == b);
                assert(has_key(keys, b));
            }
        }
        assert(register_spec(uf, keys, b).1 == t);
        assert forall|e: BodyId|
            has_key(keys, e) implies #[trigger] key_idx(register_spec(uf, keys, b).1, e)
            == key_idx(keys, e) by {
            assert(has_key(t, e) && key_idx(t, e) == key_idx(keys, e));
        }
    }
}

/// Singleton session resource tracking which bodies have fused together: a
/// disjoint-set registry plus the map giving each body its registry index.
pub struct StuckItems {
    pub union_find: DisjointSets,
    pub map: IndexMap,
}

impl StuckItems {
    /// Registry and map are kept in lockstep: one node per mapped body.
    pub open spec fn wf(&self) -> bool {
        self.union_find.wf() && self.map.wf() && self.map@.len() == self.union_find@.len()
    }

    pub fn new() -> (r: StuckItems)
        ensures
            r.wf(),
            r.map@ =~= Seq::<BodyId>::empty(),
            r.union_find@ =~= Seq::<usize>::empty(),
    {
        StuckItems { union_find: DisjointSets::new(), map: IndexMap::new() }
    }

    /// Registers `b` if it is unseen and returns its registry index.
    pub fn register(&mut self, b: BodyId) -> (idx: usize)
        requires
            old(self).wf(),
            old(self).map@.len() < usize::MAX,
        ensures
            final(self).wf(),
            final(self).union_find@ =~= register_spec(
                old(self).union_find@,
                old(self).map@,
                b,
            ).0,
            final(self).map@ =~= register_spec(old(self).union_find@, old(self).map@, b).1,
            idx as int == register_spec(old(self).union_find@, old(self).map@, b).2,
            idx < final(self).union_find@.len(),
    {
        match self.map.get(b) {
            Some(i) => i,
            None => {
                let i = self.union_find.insert();
                self.map.push_key(b);
                i
            },
        }
    }
}

} // verus!
