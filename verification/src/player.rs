//! Player state read and written by the resolver: lives, score, and the set
//! of bodies currently inside a disabling sensor zone.  While that set is
//! non-empty the player must not release a held throw.

use crate::scene::{BodyId, Throwable};
use vstd::prelude::*;
use vstd::seq_lib::seq_to_set_is_finite;

verus! {

broadcast use seq_to_set_is_finite;

/// Set of body identifiers, stored without duplicates.
pub struct DisableSet {
    items: Vec<BodyId>,
}

impl DisableSet {
    pub closed spec fn view(&self) -> Set<BodyId> {
        self.items@.to_set()
    }

    pub closed spec fn wf(&self) -> bool {
        forall|i: int, j: int|
            0 <= i < self.items@.len() && 0 <= j < self.items@.len() && i != j ==> self.items@[i]
                != self.items@[j]
    }

    pub fn new() -> (r: DisableSet)
        ensures
            r@ =~= Set::<BodyId>::empty(),
            r.wf(),
    {
        let r = DisableSet { items: Vec::new() };
        proof {
            assert forall|b: BodyId| !r@.contains(b) by {
                assert(!r.items@.contains(b));
            }
            assert(r@ =~= Set::<BodyId>::empty());
        }
        r
    }

    pub fn contains(&self, b: BodyId) -> (r: bool)
        ensures
            r == self@.contains(b),
    {
        let n = self.items.len();
        let mut k: usize = 0;
        while k < n
            invariant
                k <= n,
                n == self.items@.len(),
                forall|j: int| 0 <= j < k ==> self.items@[j] != b,
            decreases n - k,
        {
            if self.items[k] == b {
                assert(self.items@.contains(b));
                return true;
            }
            k = k + 1;
        }
        assert(!self.items@.contains(b));
        false
    }

    pub fn is_empty(&self) -> (r: bool)
        ensures
            r == (self@ =~= Set::<BodyId>::empty()),
    {
        let r = self.items.len() == 0;
        proof {
            if self.items@.len() == 0 {
                assert forall|b: BodyId| !self@.contains(b) by {
                    assert(!self.items@.contains(b));
                }
            } else {
                assert(self.items@.contains(self.items@[0]));
                assert(self@.contains(self.items@[0]));
            }
        }
        r
    }

    pub fn insert(&mut self, b: BodyId)
        requires
            old(self).wf(),
        ensures
            final(self).wf(),
            final(self)@ =~= old(self)@.insert(b),
    {
        if !self.contains(b) {
            let ghost pre = self.items@;
            self.items.push(b);
            proof {
                assert forall|x: BodyId| self.items@.contains(x) == (pre.contains(x) || x
                    == b) by {
                    if self.items@.contains(x) {
                        let i = choose|i: int|
                            0 <= i < self.items@.len() && self.items@[i] == x;
                        if i < pre.len() {
                            assert(pre[i] == x);
                        }
                    }
                    if pre.contains(x) {
                        let i = choose|i: int| 0 <= i < pre.len() && pre[i] == x;
                        assert(self.items@[i] == x);
                    }
                    if x == b {
                        assert(self.items@[pre.len() as int] == b);
                    }
                }
                assert(self@ =~= old(self)@.insert(b));
                assert forall|i: int, j: int|
                    0 <= i < self.items@.len() && 0 <= j < self.items@.len() && i
                        != j implies self.items@[i] != self.items@[j] by {
                    if i < pre.len() && j < pre.len() {
                    } else if i < pre.len() {
                        assert(self.items@[j] == b);
                        assert(pre[i] != b) by {
                            if pre[i] == b {
                                assert(pre.contains(b));
                            }
                        }
                    } else if j < pre.len() {
                        assert(self.items@[i] == b);
                        assert(pre[j] != b) by {
                            if pre[j] == b {
                                assert(pre.contains(b));
                            }
                        }
                    }
                }
            }
        } else {
            proof {
                assert(self@ =~= old(self)@.insert(b));
            }
        }
    }

    pub fn remove(&mut self, b: BodyId)
        requires
            old(self).wf(),
        ensures
            final(self).wf(),
            final(self)@ =~= old(self)@.remove(b),
    {
        let n = self.items.len();
        let mut k: usize = 0;
        while k < n
            invariant
                k <= n,
                n == self.items@.len(),
                self.wf(),
                self.items@ == old(self).items@,
                forall|j: int| 0 <= j < k ==> self.items@[j] != b,
            decreases n - k,
        {
            if self.items[k] == b {
                let ghost pre = self.items@;
                self.items.remove(k);
                proof {
                    lemma_unique_remove_to_set(pre, k as int);
                    assert(self@ =~= old(self)@.remove(b));
                    assert forall|i: int, j: int|
                        0 <= i < self.items@.len() && 0 <= j < self.items@.len() && i
                            != j implies self.items@[i] != self.items@[j] by {
                        let pi = if i < k { i } else { i + 1 };
                        let pj = if j < k { j } else { j + 1 };
                        assert(self.items@[i] == pre[pi]);
                        assert(self.items@[j] == pre[pj]);
                    }
                }
                return ;
            }
            k = k + 1;
        }
        proof {
            assert(!self.items@.contains(b));
            assert(!self@.contains(b));
            assert(self@ =~= old(self)@.remove(b));
        }
    }
}

/// In a duplicate-free sequence, removing the entry at `k` removes exactly
/// that element from the set of entries.
proof fn lemma_unique_remove_to_set(s: Seq<BodyId>, k: int)
    requires
        0 <= k < s.len(),
        forall|i: int, j: int| 0 <= i < s.len() && 0 <= j < s.len() && i != j ==> s[i] != s[j],
    ensures
        s.remove(k).to_set() =~= s.to_set().remove(s[k]),
{
    let t = s.remove(k);
    assert forall|x: BodyId| t.contains(x) == (s.contains(x) && x != s[k]) by {
        if t.contains(x) {
            let i = choose|i: int| 0 <= i < t.len() && t[i] == x;
            let pi = if i < k {
                i
            } else {
                i + 1
            };
            assert(s[pi] == x);
            assert(x != s[k]);
        }
        if s.contains(x) && x != s[k] {
            let i = choose|i: int| 0 <= i < s.len() && s[i] == x;
            if i < k {
                assert(t[i] == x);
            } else {
                assert(t[i - 1] == x);
            }
        }
    }
}

/// Lives, score and the disabling set for the session's player.
pub struct Player {
    /// Bodies currently inside a disabling sensor zone; while non-empty the
    /// player cannot release a new throw.
    pub disables: DisableSet,
    /// Remaining lives; zero means game over.
    pub lives: usize,
    /// Accumulated score.
    pub score: usize,
}

impl Player {
    pub open spec fn wf(&self) -> bool {
        self.disables.wf()
    }

    pub fn new(lives: usize) -> (p: Player)
        ensures
            p.wf(),
            p.lives == lives,
            p.score == 0,
            p.disables@ =~= Set::<BodyId>::empty(),
    {
        Player { disables: DisableSet::new(), lives, score: 0 }
    }

    /// Whether the player may release a held throw.
    pub fn can_release(&self) -> (r: bool)
        ensures
            r == (self.disables@ =~= Set::<BodyId>::empty()),
    {
        self.disables.is_empty()
    }

    /// Whether the player has run out of lives.
    pub fn is_game_over(&self) -> (r: bool)
        ensures
            r == (self.lives == 0),
    {
        self.lives == 0
    }

    /// Releases the held item `item` as a throw: the item starts non-sticky
    /// with a fresh multiplier, and joins the disabling set until it leaves
    /// the disabler zone around the player.
    pub fn release_throw(&mut self, item: BodyId, self_id: BodyId) -> (t: Throwable)
        requires
            old(self).wf(),
            old(self).disables@ =~= Set::<BodyId>::empty(),
        ensures
            final(self).wf(),
            final(self).disables@ =~= Set::<BodyId>::empty().insert(item),
            final(self).lives == old(self).lives,
            final(self).score == old(self).score,
            t == (Throwable {
                player: Some(self_id),
                multiplier: 1usize,
                stuck: false,
                sticky: false,
            }),
    {
        self.disables.insert(item);
        Throwable::new(Some(self_id), false)
    }

    /// Drops despawned bodies from the disabling set, as the engine reports
    /// their removal.
    pub fn forget_removed(&mut self, removed: &Vec<BodyId>)
        requires
            old(self).wf(),
        ensures
            final(self).wf(),
            final(self).disables@ =~= old(self).disables@.difference(removed@.to_set()),
            final(self).lives == old(self).lives,
            final(self).score == old(self).score,
    {
        let n = removed.len();
        let mut k: usize = 0;
        while k < n
            invariant
                self.wf(),
                k <= n,
                n == removed@.len(),
                self.lives == old(self).lives,
                self.score == old(self).score,
                self.disables@ =~= old(self).disables@.difference(removed@.take(k as int).to_set()),
            decreases n - k,
        {
            self.disables.remove(removed[k]);
            proof {
                assert(removed@.take(k + 1).drop_last() =~= removed@.take(k as int));
                assert forall|x: BodyId|
                    removed@.take(k + 1).contains(x) == (removed@.take(k as int).contains(x) || x
                        == removed@[k as int]) by {
                    if removed@.take(k + 1).contains(x) {
                        let i = choose|i: int|
                            0 <= i < k + 1 && #[trigger] removed@.take(k + 1)[i] == x;
                        if i < k {
                            assert(removed@.take(k as int)[i] == x);
                        }
                    }
                    if removed@.take(k as int).contains(x) {
                        let i = choose|i: int|
                            0 <= i < k && #[trigger] removed@.take(k as int)[i] == x;
                        assert(removed@.take(k + 1)[i] == x);
                    }
                    if x == removed@[k as int] {
                        assert(removed@.take(k + 1)[k as int] == x);
                    }
                }
                assert(self.disables@ =~= old(self).disables@.difference(
                    removed@.take(k + 1).to_set(),
                ));
            }
            k = k + 1;
        }
        proof {
            assert(removed@.take(n as int) =~= removed@);
        }
    }
}

} // verus!
