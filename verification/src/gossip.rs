//! How many peers, and which, a new vote is handed to: `ceil(0.4 * n)` of the `n`
//! known peers, at least one, each at most once.
use vstd::prelude::*;

use crate::external::random_below;

verus! {

/// The number of peers a vote goes to when `n` are known: `ceil(2n / 5)`, which is at
/// least one whenever some peer is known.
pub open spec fn fan_out(n: nat) -> nat {
    (2 * n + 4) / 5
}

/// Every entry is a position below `n`, and no position occurs twice.
pub open spec fn distinct_below(v: Seq<usize>, n: nat) -> bool {
    &&& forall|i: int| 0 <= i < v.len() ==> #[trigger] v[i] < n
    &&& forall|i: int, j: int| 0 <= i < j < v.len() ==> v[i] != v[j]
}

/// Fans out over at least one peer when any is known, and never over more than are
/// known.
pub proof fn lemma_fan_out_bounds(n: nat)
    ensures
        n > 0 ==> fan_out(n) >= 1,
        fan_out(n) <= n,
        n == 0 ==> fan_out(n) == 0,
{
}

/// The number of peers a vote goes to when `n` are known (see `fan_out`).
pub fn fan_out_count(n: usize) -> (k: usize)
    ensures
        k == fan_out(n as nat),
{
    let q = n / 5;
    let r = n % 5;
    // 2n + 4 = 10q + 2r + 4, so (2n + 4) / 5 = 2q + (2r + 4) / 5.
    let k = 2 * q + (2 * r + 4) / 5;
    assert(k == (2 * n + 4) / 5) by (nonlinear_arith)
        requires
            q == n / 5,
            r == n % 5,
            k == 2 * q + (2 * r + 4) / 5,
    ;
    k
}

/// Draws `fan_out(n)` distinct positions among `n` peers at random (a partial
/// Fisher-Yates shuffle of the positions).
pub fn pick_fan_out(n: usize) -> (picked: Vec<usize>)
    ensures
        picked@.len() == fan_out(n as nat),
        distinct_below(picked@, n as nat),
{
    let k = fan_out_count(n);
    proof {
        lemma_fan_out_bounds(n as nat);
    }
    let mut pool: Vec<usize> = Vec::new();
    let mut i: usize = 0;
    while i < n
        invariant
            i <= n,
            pool@.len() == i,
            forall|j: int| 0 <= j < i ==> pool@[j] == j,
        decreases n - i,
    {
        pool.push(i);
        i = i + 1;
    }
    let mut t: usize = 0;
    while t < k
        invariant
            k <= n,
            t <= k,
            pool@.len() == n,
            distinct_below(pool@, n as nat),
        decreases k - t,
    {
        let j = t + random_below(n - t);
        let a = pool[t];
        let b = pool[j];
        pool.set(t, b);
        pool.set(j, a);
        t = t + 1;
    }
    let mut picked: Vec<usize> = Vec::new();
    let mut m: usize = 0;
    while m < k
        invariant
            k <= n,
            m <= k,
            pool@.len() == n,
            distinct_below(pool@, n as nat),
            picked@ == pool@.take(m as int),
        decreases k - m,
    {
        picked.push(pool[m]);
        assert(pool@.take((m + 1) as int) =~= pool@.take(m as int).push(pool@[m as int]));
        m = m + 1;
    }
    picked
}

} // verus!
