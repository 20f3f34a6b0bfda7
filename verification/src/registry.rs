//! Disjoint-set registry over node indices, in the quick-find style: every
//! node stores the label (index) of its set's canonical representative, so
//! `find` is a read-only lookup and `union` relabels the smaller set.

use vstd::prelude::*;

verus! {

/// Number of nodes in `s` whose label is `r`.
pub open spec fn count_label(s: Seq<usize>, r: usize) -> nat
    decreases s.len(),
{
    if s.len() == 0 {
        0
    } else {
        count_label(s.drop_last(), r) + if s.last() == r {
            1nat
        } else {
            0nat
        }
    }
}

/// Labels after the set of `loser` is merged into the set of `winner`.
pub open spec fn relabel(s: Seq<usize>, loser: usize, winner: usize) -> Seq<usize> {
    Seq::new(s.len(), |i: int| if s[i] == loser { winner } else { s[i] })
}

/// The indices of the nodes whose chain of unions leads to representative `r`.
pub open spec fn members(s: Seq<usize>, r: usize) -> Set<int> {
    Set::new(|i: int| 0 <= i < s.len() && s[i] == r)
}

/// Union-find over indices `0..len`, merging by set size.  `find` does not
/// mutate, so shared read access during contact filtering needs no lock.
pub struct DisjointSets {
    ids: Vec<usize>,
}

impl DisjointSets {
    /// The label (representative index) of every node.
    pub closed spec fn view(&self) -> Seq<usize> {
        self.ids@
    }

    /// Every label is in range and is itself a fixpoint.
    pub open spec fn wf(&self) -> bool {
        forall|i: int|
            0 <= i < self@.len() ==> (#[trigger] self@[i]) < self@.len() && self@[self@[i] as int]
                == self@[i]
    }

    pub open spec fn same_set(&self, a: int, b: int) -> bool {
        self@[a] == self@[b]
    }

    pub fn new() -> (r: DisjointSets)
        ensures
            r@ =~= Seq::<usize>::empty(),
            r.wf(),
    {
        DisjointSets { ids: Vec::new() }
    }

    pub fn len(&self) -> (n: usize)
        ensures
            n == self@.len(),
    {
        self.ids.len()
    }

    /// Registers a fresh singleton set and returns its stable index.
    pub fn insert(&mut self) -> (idx: usize)
        requires
            old(self).wf(),
            old(self)@.len() < usize::MAX,
        ensures
            final(self).wf(),
            idx == old(self)@.len(),
            final(self)@ =~= old(self)@.push(idx),
    {
        let idx = self.ids.len();
        self.ids.push(idx);
        idx
    }

    /// Canonical representative of `i`'s set; read-only.
    pub fn find(&self, i: usize) -> (r: usize)
        requires
            self.wf(),
            i < self@.len(),
        ensures
            r == self@[i as int],
            r < self@.len(),
            self@[r as int] == r,
    {
        self.ids[i]
    }

    /// Number of nodes whose set is labelled `r`.
    pub fn size_of(&self, r: usize) -> (n: usize)
        requires
            self.wf(),
        ensures
            n == count_label(self@, r),
    {
        let len = self.ids.len();
        let mut n: usize = 0;
        let mut k: usize = 0;
        proof {
            lemma_count_label_le_len(self@, r);
        }
        while k < len
            invariant
                k <= len,
                len == self@.len(),
                n == count_label(self@.take(k as int), r),
                n <= k,
            decreases len - k,
        {
            proof {
                assert(self@.take(k + 1).drop_last() =~= self@.take(k as int));
                assert(self@.take(k + 1).last() == self@[k as int]);
            }
            if self.ids[k] == r {
                n = n + 1;
            }
            k = k + 1;
        }
        proof {
            assert(self@.take(len as int) =~= self@);
        }
        n
    }

    /// Merges the sets of `a` and `b`: the smaller set is relabelled with the
    /// larger set's representative (on a tie, `a`'s side wins).  A union of
    /// two indices already in one set changes nothing, so every set keeps its
    /// size.
    pub fn union(&mut self, a: usize, b: usize)
        requires
            old(self).wf(),
            a < old(self)@.len(),
            b < old(self)@.len(),
        ensures
            final(self).wf(),
            final(self)@.len() == old(self)@.len(),
            final(self)@[a as int] == final(self)@[b as int],
            old(self).same_set(a as int, b as int) ==> final(self)@ =~= old(self)@,
            old(self).same_set(a as int, b as int) ==> forall|r: usize|
                count_label(final(self)@, r) == count_label(old(self)@, r),
            !old(self).same_set(a as int, b as int) ==> final(self)@ =~= relabel(
                old(self)@,
                union_loser(old(self)@, a as int, b as int),
                union_winner(old(self)@, a as int, b as int),
            ),
            final(self)@ =~= union_spec(old(self)@, a as int, b as int),
    {
        let ra = self.ids[a];
        let rb = self.ids[b];
        if ra == rb {
            return ;
        }
        let sa = self.size_of(ra);
        let sb = self.size_of(rb);
        let (w, l) = if sa >= sb {
            (ra, rb)
        } else {
            (rb, ra)
        };
        assert(w == union_winner(old(self)@, a as int, b as int));
        assert(l == union_loser(old(self)@, a as int, b as int));
        let len = self.ids.len();
        let ghost orig = self@;
        let mut k: usize = 0;
        while k < len
            invariant
                k <= len,
                len == orig.len(),
                self@.len() == orig.len(),
                forall|j: int| 0 <= j < k ==> self@[j] == relabel(orig, l, w)[j],
                forall|j: int| k <= j < orig.len() ==> self@[j] == orig[j],
            decreases len - k,
        {
            if self.ids[k] == l {
                self.ids.set(k, w);
            }
            k = k + 1;
        }
        assert(self@ =~= relabel(orig, l, w));
        proof {
            let rel = relabel(orig, l, w);
            assert(orig[w as int] == w);
            assert(orig[l as int] == l);
            assert forall|i: int| 0 <= i < rel.len() implies (#[trigger] rel[i]) < rel.len()
                && rel[rel[i] as int] == rel[i] by {
                assert(orig[i] < orig.len());
                if orig[i] == l {
                    assert(rel[i] == w);
                    assert(rel[w as int] == w);
                } else {
                    assert(rel[i] == orig[i]);
                    assert(orig[orig[i] as int] == orig[i]);
                    assert(rel[orig[i] as int] == orig[i]);
                }
            }
        }
    }
}

/// Labels after the sets of `a` and `b` are merged, mirroring `union`.
pub open spec fn union_spec(s: Seq<usize>, a: int, b: int) -> Seq<usize> {
    if s[a] == s[b] {
        s
    } else {
        relabel(s, union_loser(s, a, b), union_winner(s, a, b))
    }
}

/// Representative whose set survives a union of `a`'s and `b`'s sets: the one
/// with more members, `a`'s side on a tie.
pub open spec fn union_winner(s: Seq<usize>, a: int, b: int) -> usize {
    if count_label(s, s[a]) >= count_label(s, s[b]) {
        s[a]
    } else {
        s[b]
    }
}

/// Representative whose set is relabelled by a union of `a`'s and `b`'s sets.
pub open spec fn union_loser(s: Seq<usize>, a: int, b: int) -> usize {
    if count_label(s, s[a]) >= count_label(s, s[b]) {
        s[b]
    } else {
        s[a]
    }
}

/// After a union, the two nodes carry one label.
pub proof fn lemma_union_spec_joins(s: Seq<usize>, a: int, b: int)
    requires
        0 <= a < s.len(),
        0 <= b < s.len(),
    ensures
        union_spec(s, a, b).len() == s.len(),
        union_spec(s, a, b)[a] == union_spec(s, a, b)[b],
{
}

pub proof fn lemma_count_label_le_len(s: Seq<usize>, r: usize)
    ensures
        count_label(s, r) <= s.len(),
    decreases s.len(),
{
    if s.len() > 0 {
        lemma_count_label_le_len(s.drop_last(), r);
    }
}

/// Law: the size reported for a set equals the number of distinct node
/// indices whose chain of unions leads to its representative.
pub proof fn lemma_size_counts_members(s: Seq<usize>, r: usize)
    ensures
        members(s, r).finite(),
        count_label(s, r) == members(s, r).len(),
    decreases s.len(),
{
    if s.len() == 0 {
        assert(members(s, r) =~= Set::<int>::empty());
    } else {
        let s0 = s.drop_last();
        lemma_size_counts_members(s0, r);
        if s.last() == r {
            assert(members(s, r) =~= members(s0, r).insert(s.len() - 1));
        } else {
            assert(members(s, r) =~= members(s0, r));
        }
    }
}

} // verus!
