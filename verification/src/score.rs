//! Cluster scoring: points grow with cluster size along the Fibonacci
//! sequence, scaled by a fixed base and by the throwable's bounce multiplier.
//! All executable arithmetic saturates at `usize::MAX` instead of wrapping.

use vstd::prelude::*;

verus! {

/// Points granted per unit of the Fibonacci weight.
pub const POINT_BASE: usize = 10;

/// Fibonacci weight of a cluster size: `fib(0) == fib(1) == 1`, then the
/// usual recurrence.
pub open spec fn fib(n: nat) -> nat
    decreases n,
{
    if n <= 1 {
        1
    } else {
        fib((n - 1) as nat) + fib((n - 2) as nat)
    }
}

/// A mathematical value clamped to what a `usize` can hold.
pub open spec fn cap(x: nat) -> usize {
    if x > usize::MAX {
        usize::MAX
    } else {
        x as usize
    }
}

/// Points for fusing into a cluster of `size` bodies.
pub open spec fn points_of(size: nat) -> usize {
    cap(POINT_BASE as nat * fib(size))
}

/// Total score granted to a throwable with bounce multiplier `multiplier`
/// fusing into a cluster of `size` bodies.
pub open spec fn total_points_of(multiplier: usize, size: nat) -> usize {
    cap(multiplier as nat * points_of(size) as nat)
}

/// Saturating add, as a value: what `sat_add` returns.
pub open spec fn sat_add_spec(a: usize, b: usize) -> usize {
    cap((a + b) as nat)
}

pub proof fn lemma_fib_pos(n: nat)
    ensures
        fib(n) >= 1,
    decreases n,
{
    if n > 1 {
        lemma_fib_pos((n - 1) as nat);
    }
}

pub proof fn lemma_fib_step_mono(n: nat)
    ensures
        fib(n) <= fib(n + 1),
    decreases n,
{
    if n > 0 {
        lemma_fib_pos((n - 1) as nat);
    }
}

pub fn sat_add(a: usize, b: usize) -> (r: usize)
    ensures
        r == cap((a + b) as nat),
{
    if a > usize::MAX - b {
        usize::MAX
    } else {
        a + b
    }
}

pub fn sat_mul(a: usize, b: usize) -> (r: usize)
    ensures
        r == cap(a as nat * b as nat),
{
    match a.checked_mul(b) {
        Some(x) => x,
        None => usize::MAX,
    }
}

/// Fibonacci weight, saturating at `usize::MAX`.
pub fn fibonacci(n: usize) -> (r: usize)
    ensures
        r == cap(fib(n as nat)),
{
    if n <= 1 {
        return 1;
    }
    let mut a: usize = 1;
    let mut b: usize = 1;
    let mut i: usize = 1;
    while i < n
        invariant
            1 <= i <= n,
            a == cap(fib((i - 1) as nat)),
            b == cap(fib(i as nat)),
        decreases n - i,
    {
        proof {
            lemma_fib_pos((i - 1) as nat);
            lemma_fib_pos(i as nat);
            lemma_fib_step_mono((i - 1) as nat);
        }
        let c = sat_add(a, b);
        assert(c == cap(fib((i + 1) as nat)));
        a = b;
        b = c;
        i = i + 1;
    }
    b
}

/// Points for fusing into a cluster of `size` bodies.
pub fn points_for(size: usize) -> (p: usize)
    ensures
        p == points_of(size as nat),
{
    let f = fibonacci(size);
    let p = sat_mul(POINT_BASE, f);
    proof {
        if fib(size as nat) > usize::MAX {
            assert(POINT_BASE as nat * fib(size as nat) >= fib(size as nat)) by (nonlinear_arith);
        } else {
            assert(p == cap(POINT_BASE as nat * fib(size as nat)));
        }
    }
    p
}

} // verus!
