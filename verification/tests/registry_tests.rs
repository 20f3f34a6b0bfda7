//! Disjoint-set registry behaviour: find/union/size_of, idempotent unions,
//! and the size invariant over sequences of unions.

use sticky_throws::registry::DisjointSets;

#[test]
fn fresh_nodes_are_their_own_representatives() {
    let mut sets = DisjointSets::new();
    let a = sets.insert();
    let b = sets.insert();
    let c = sets.insert();
    assert_eq!((a, b, c), (0, 1, 2));
    assert_eq!(sets.find(0), 0);
    assert_eq!(sets.find(1), 1);
    assert_eq!(sets.find(2), 2);
    assert_eq!(sets.size_of(0), 1);
    assert_eq!(sets.size_of(1), 1);
    assert_eq!(sets.size_of(2), 1);
}

#[test]
fn union_merges_and_size_counts_members() {
    let mut sets = DisjointSets::new();
    for _ in 0..4 {
        sets.insert();
    }
    sets.union(0, 1);
    assert_eq!(sets.find(0), sets.find(1));
    assert_eq!(sets.size_of(sets.find(0)), 2);
    assert_eq!(sets.size_of(sets.find(2)), 1);
    sets.union(2, 0);
    assert_eq!(sets.find(2), sets.find(1));
    assert_eq!(sets.size_of(sets.find(2)), 3);
    assert_eq!(sets.size_of(sets.find(3)), 1);
}

#[test]
fn union_of_same_set_changes_no_size() {
    let mut sets = DisjointSets::new();
    for _ in 0..3 {
        sets.insert();
    }
    sets.union(0, 1);
    let rep = sets.find(0);
    let size_before = sets.size_of(rep);
    let other_before = sets.size_of(sets.find(2));
    sets.union(0, 1);
    sets.union(1, 0);
    assert_eq!(sets.find(0), sets.find(1));
    assert_eq!(sets.size_of(sets.find(0)), size_before);
    assert_eq!(sets.size_of(sets.find(2)), other_before);
}

#[test]
fn union_by_size_attaches_smaller_set_under_larger() {
    let mut sets = DisjointSets::new();
    for _ in 0..5 {
        sets.insert();
    }
    sets.union(0, 1);
    let big = sets.find(0);
    // the pair outnumbers the singleton, so its label survives
    sets.union(2, 0);
    assert_eq!(sets.find(2), big);
    // on a tie the first argument's side wins
    let mut tie = DisjointSets::new();
    tie.insert();
    tie.insert();
    tie.union(0, 1);
    assert_eq!(tie.find(1), 0);
}

#[test]
fn sizes_track_every_union_sequence() {
    let mut sets = DisjointSets::new();
    for _ in 0..6 {
        sets.insert();
    }
    sets.union(0, 1);
    sets.union(2, 3);
    sets.union(0, 2);
    // {0,1,2,3} and {4} and {5}
    let rep = sets.find(3);
    assert_eq!(sets.find(0), rep);
    assert_eq!(sets.find(1), rep);
    assert_eq!(sets.find(2), rep);
    assert_eq!(sets.size_of(rep), 4);
    assert_eq!(sets.size_of(sets.find(4)), 1);
    assert_eq!(sets.size_of(sets.find(5)), 1);
    let mut members: usize = 0;
    for i in 0..6usize {
        if sets.find(i) == rep {
            members += 1;
        }
    }
    assert_eq!(members, 4);
}
