//! Gathering from, writing to and accumulating at listed positions.

use crate::dtype::Float;
use vstd::prelude::*;

verus! {

/// What stands at position `p` after the first `n` values have been written, in
/// order, to the positions `at`: the last of them that goes to `p`, or `init`.
pub open spec fn cell_last<T>(init: T, at: Seq<usize>, vals: Seq<T>, n: int, p: int) -> T
    decreases n,
{
    if n <= 0 {
        init
    } else if at[n - 1] == p {
        vals[n - 1]
    } else {
        cell_last(init, at, vals, n - 1, p)
    }
}

/// What stands at position `p` after the first `n` values have been added, in
/// order, at the positions `at`: `init` plus each of them that goes to `p`.
pub open spec fn cell_sum<T: Float>(init: T, at: Seq<usize>, vals: Seq<T>, n: int, p: int) -> T
    decreases n,
{
    if n <= 0 {
        init
    } else if at[n - 1] == p {
        cell_sum(init, at, vals, n - 1, p).plus(vals[n - 1])
    } else {
        cell_sum(init, at, vals, n - 1, p)
    }
}

/// No two of the first `n` positions are equal.
pub open spec fn distinct(at: Seq<usize>, n: int) -> bool {
    forall|i: int, j: int| 0 <= i < j < n ==> #[trigger] at[i] != #[trigger] at[j]
}

/// Where no position is written twice, each value stands at its position, and
/// every other position keeps what it held.
pub proof fn lemma_cell_last_distinct<T>(init: T, at: Seq<usize>, vals: Seq<T>, n: int, k: int)
    requires
        0 <= k < n,
        distinct(at, n),
    ensures
        cell_last(init, at, vals, n, at[k] as int) == vals[k],
    decreases n,
{
    if k < n - 1 {
        assert(at[k] != at[n - 1]);
        lemma_cell_last_distinct(init, at, vals, n - 1, k);
    }
}

pub proof fn lemma_cell_last_untouched<T>(init: T, at: Seq<usize>, vals: Seq<T>, n: int, p: int)
    requires
        forall|k: int| 0 <= k < n ==> #[trigger] at[k] != p,
    ensures
        cell_last(init, at, vals, n, p) == init,
    decreases n,
{
    if n > 0 {
        assert(at[n - 1] != p);
        lemma_cell_last_untouched(init, at, vals, n - 1, p);
    }
}

pub proof fn lemma_cell_sum_untouched<T: Float>(
    init: T,
    at: Seq<usize>,
    vals: Seq<T>,
    n: int,
    p: int,
)
    requires
        forall|k: int| 0 <= k < n ==> #[trigger] at[k] != p,
    ensures
        cell_sum(init, at, vals, n, p) == init,
    decreases n,
{
    if n > 0 {
        assert(at[n - 1] != p);
        lemma_cell_sum_untouched(init, at, vals, n - 1, p);
    }
}

/// Where no position is added to twice, each position holds one sum.
pub proof fn lemma_cell_sum_distinct<T: Float>(
    init: T,
    at: Seq<usize>,
    vals: Seq<T>,
    n: int,
    k: int,
)
    requires
        0 <= k < n,
        distinct(at, n),
    ensures
        cell_sum(init, at, vals, n, at[k] as int) == init.plus(vals[k]),
    decreases n,
{
    if k < n - 1 {
        assert(at[k] != at[n - 1]);
        lemma_cell_sum_distinct(init, at, vals, n - 1, k);
    } else {
        assert forall|j: int| 0 <= j < n - 1 implies #[trigger] at[j] != at[k] as int by {}
        lemma_cell_sum_untouched(init, at, vals, n - 1, at[k] as int);
    }
}

proof fn lemma_cell_sum_longer<T: Float>(
    init: T,
    at: Seq<usize>,
    vals: Seq<T>,
    q: usize,
    v: T,
    n: int,
    p: int,
)
    requires
        at.len() == vals.len(),
        0 <= n <= at.len(),
    ensures
        cell_sum(init, at.push(q), vals.push(v), n, p) == cell_sum(init, at, vals, n, p),
    decreases n,
{
    if n > 0 {
        lemma_cell_sum_longer(init, at, vals, q, v, n - 1, p);
    }
}

/// One more addition: the position that it names holds what it held plus the value, and
/// every other position what it held.
pub proof fn lemma_cell_sum_appended<T: Float>(
    init: T,
    at: Seq<usize>,
    vals: Seq<T>,
    q: usize,
    v: T,
    p: int,
)
    requires
        at.len() == vals.len(),
    ensures
        q == p ==> cell_sum(init, at.push(q), vals.push(v), at.len() as int + 1, p) == cell_sum(
            init,
            at,
            vals,
            at.len() as int,
            p,
        ).plus(v),
        q != p ==> cell_sum(init, at.push(q), vals.push(v), at.len() as int + 1, p) == cell_sum(
            init,
            at,
            vals,
            at.len() as int,
            p,
        ),
        cell_sum(init, Seq::empty(), Seq::empty(), 0, p) == init,
{
    lemma_cell_sum_longer(init, at, vals, q, v, at.len() as int, p);
}

/// A position that two additions name, and no other, holds what it held plus the first
/// value plus the second.
pub proof fn lemma_cell_sum_twice<T: Float>(
    init: T,
    at: Seq<usize>,
    vals: Seq<T>,
    n: int,
    a: int,
    b: int,
)
    requires
        0 <= a < b < n <= at.len(),
        at[a] == at[b],
        forall|k: int| 0 <= k < n && k != a && k != b ==> #[trigger] at[k] != at[a],
    ensures
        cell_sum(init, at, vals, n, at[a] as int) == init.plus(vals[a]).plus(vals[b]),
    decreases n,
{
    if b < n - 1 {
        assert(at[n - 1] != at[a]);
        lemma_cell_sum_twice(init, at, vals, n - 1, a, b);
    } else {
        lemma_cell_sum_once(init, at, vals, n - 1, a);
    }
}

/// A position that one addition names holds what it held plus the value.
pub proof fn lemma_cell_sum_once<T: Float>(
    init: T,
    at: Seq<usize>,
    vals: Seq<T>,
    n: int,
    k: int,
)
    requires
        0 <= k < n <= at.len(),
        forall|j: int| 0 <= j < n && j != k ==> #[trigger] at[j] != at[k],
    ensures
        cell_sum(init, at, vals, n, at[k] as int) == init.plus(vals[k]),
    decreases n,
{
    if k < n - 1 {
        assert(at[n - 1] != at[k]);
        lemma_cell_sum_once(init, at, vals, n - 1, k);
    } else {
        lemma_cell_sum_untouched(init, at, vals, n - 1, at[k] as int);
    }
}

/// A position holds the value of the last write that names it.
pub proof fn lemma_cell_last_is_last<T>(init: T, at: Seq<usize>, vals: Seq<T>, n: int, k: int)
    requires
        0 <= k < n <= at.len(),
        forall|j: int| k < j < n ==> #[trigger] at[j] != at[k],
    ensures
        cell_last(init, at, vals, n, at[k] as int) == vals[k],
    decreases n,
{
    if k < n - 1 {
        assert(at[n - 1] != at[k]);
        lemma_cell_last_is_last(init, at, vals, n - 1, k);
    }
}

/// `n` copies of a value.
pub fn filled<T: Copy>(value: T, n: usize) -> (r: Vec<T>)
    ensures
        r@.len() == n,
        forall|i: int| 0 <= i < n ==> #[trigger] r@[i] == value,
{
    let mut out: Vec<T> = Vec::new();
    let mut i: usize = 0;
    while i < n
        invariant
            i <= n,
            out@.len() == i,
            forall|j: int| 0 <= j < i ==> #[trigger] out@[j] == value,
        decreases n - i,
    {
        out.push(value);
        i = i + 1;
    }
    out
}

/// A copy of a slice.
pub fn copied<T: Copy>(s: &[T]) -> (r: Vec<T>)
    ensures
        r@ == s@,
{
    let mut out: Vec<T> = Vec::new();
    let mut i: usize = 0;
    while i < s.len()
        invariant
            i <= s.len(),
            out@ == s@.take(i as int),
        decreases s.len() - i,
    {
        out.push(s[i]);
        proof {
            assert(s@.take(i as int).push(s@[i as int]) =~= s@.take(i + 1));
        }
        i = i + 1;
    }
    proof {
        assert(s@.take(i as int) =~= s@);
    }
    out
}

/// The elements at the listed positions.
pub fn gather<T: Copy>(data: &[T], at: &[usize]) -> (r: Vec<T>)
    requires
        forall|k: int| 0 <= k < at@.len() ==> #[trigger] at@[k] < data@.len(),
    ensures
        r@.len() == at@.len(),
        forall|k: int| 0 <= k < at@.len() ==> #[trigger] r@[k] == data@[at@[k] as int],
{
    let mut out: Vec<T> = Vec::new();
    let mut k: usize = 0;
    while k < at.len()
        invariant
            k <= at.len(),
            out@.len() == k,
            forall|j: int| 0 <= j < at@.len() ==> #[trigger] at@[j] < data@.len(),
            forall|j: int| 0 <= j < k ==> #[trigger] out@[j] == data@[at@[j] as int],
        decreases at.len() - k,
    {
        out.push(data[at[k]]);
        k = k + 1;
    }
    out
}

/// Writes each value to its position, in order.
pub fn scatter<T: Copy>(dst: &mut Vec<T>, at: &[usize], vals: &[T])
    requires
        at@.len() == vals@.len(),
        forall|k: int| 0 <= k < at@.len() ==> #[trigger] at@[k] < old(dst)@.len(),
    ensures
        final(dst)@.len() == old(dst)@.len(),
        forall|p: int|
            0 <= p < old(dst)@.len() ==> #[trigger] final(dst)@[p] == cell_last(
                old(dst)@[p],
                at@,
                vals@,
                at@.len() as int,
                p,
            ),
{
    let mut k: usize = 0;
    while k < at.len()
        invariant
            k <= at.len(),
            at@.len() == vals@.len(),
            dst@.len() == old(dst)@.len(),
            forall|j: int| 0 <= j < at@.len() ==> #[trigger] at@[j] < old(dst)@.len(),
            forall|p: int|
                0 <= p < old(dst)@.len() ==> #[trigger] dst@[p] == cell_last(
                    old(dst)@[p],
                    at@,
                    vals@,
                    k as int,
                    p,
                ),
        decreases at.len() - k,
    {
        dst.set(at[k], vals[k]);
        k = k + 1;
    }
}

/// Adds each value at its position, in order.
pub fn scatter_add<T: Float>(dst: &mut Vec<T>, at: &[usize], vals: &[T])
    requires
        at@.len() == vals@.len(),
        forall|k: int| 0 <= k < at@.len() ==> #[trigger] at@[k] < old(dst)@.len(),
    ensures
        final(dst)@.len() == old(dst)@.len(),
        forall|p: int|
            0 <= p < old(dst)@.len() ==> #[trigger] final(dst)@[p] == cell_sum(
                old(dst)@[p],
                at@,
                vals@,
                at@.len() as int,
                p,
            ),
{
    let mut k: usize = 0;
    while k < at.len()
        invariant
            k <= at.len(),
            at@.len() == vals@.len(),
            dst@.len() == old(dst)@.len(),
            forall|j: int| 0 <= j < at@.len() ==> #[trigger] at@[j] < old(dst)@.len(),
            forall|p: int|
                0 <= p < old(dst)@.len() ==> #[trigger] dst@[p] == cell_sum(
                    old(dst)@[p],
                    at@,
                    vals@,
                    k as int,
                    p,
                ),
        decreases at.len() - k,
    {
        let p: usize = at[k];
        let sum: T = dst[p].add(vals[k]);
        dst.set(p, sum);
        k = k + 1;
    }
}

} // verus!
