//! Compressed layouts: pointers to segments of an index list.

use crate::error::{Axis, FerrotorchError, FerrotorchResult, LayoutFault, Reason};
use vstd::prelude::*;

verus! {

/// `value` as a 32-bit index.
pub fn to_u32_checked(value: usize) -> (r: FerrotorchResult<u32>)
    ensures
        r == (if value <= u32::MAX {
            Ok(value as u32)
        } else {
            Err(too_wide(value))
        }),
{
    if value as u64 <= 0xFFFF_FFFF {
        Ok(value as u32)
    } else {
        Err(FerrotorchError::InvalidArgument { reason: Reason::IndexWidth { value } })
    }
}

/// The error for a number that does not fit a 32-bit index.
pub open spec fn too_wide(value: usize) -> FerrotorchError {
    FerrotorchError::InvalidArgument { reason: Reason::IndexWidth { value } }
}

/// The same numbers as 32-bit indices.
pub open spec fn same_numbers(a: Seq<u32>, b: Seq<usize>) -> bool {
    &&& a.len() == b.len()
    &&& forall|i: int| 0 <= i < a.len() ==> #[trigger] a[i] == b[i]
}

/// `e` is the error for the first of these numbers that does not fit a 32-bit index.
pub open spec fn first_too_wide(values: Seq<usize>, e: FerrotorchError) -> bool {
    exists|i: int|
        {
            &&& 0 <= i < values.len()
            &&& #[trigger] values[i] > u32::MAX
            &&& forall|j: int| 0 <= j < i ==> #[trigger] values[j] <= u32::MAX
            &&& e == too_wide(values[i])
        }
}

/// The numbers as 32-bit indices, if all of them fit.
pub fn to_u32_vec_checked(values: &[usize]) -> (r: FerrotorchResult<Vec<u32>>)
    ensures
        match r {
            Ok(v) => same_numbers(v@, values@),
            Err(e) => first_too_wide(values@, e),
        },
{
    let mut out: Vec<u32> = Vec::new();
    let mut i: usize = 0;
    while i < values.len()
        invariant
            i <= values@.len(),
            out@.len() == i,
            forall|j: int| 0 <= j < i ==> #[trigger] out@[j] == values@[j],
        decreases values.len() - i,
    {
        match to_u32_checked(values[i]) {
            Ok(x) => out.push(x),
            Err(e) => {
                proof {
                    assert(values@[i as int] > u32::MAX);
                    assert forall|j: int| 0 <= j < i implies #[trigger] values@[j]
                        <= u32::MAX by {
                        assert(out@[j] == values@[j]);
                    }
                }
                return Err(e);
            },
        }
        i = i + 1;
    }
    Ok(out)
}

/// The same numbers as indices of machine width.
pub fn from_u32_vec(values: &[u32]) -> (r: Vec<usize>)
    ensures
        same_numbers(values@, r@),
{
    let mut out: Vec<usize> = Vec::new();
    let mut i: usize = 0;
    while i < values.len()
        invariant
            i <= values@.len(),
            out@.len() == i,
            forall|j: int| 0 <= j < i ==> #[trigger] out@[j] == values@[j],
        decreases values.len() - i,
    {
        out.push(values[i] as usize);
        i = i + 1;
    }
    out
}

/// Pointers start at zero, do not decrease, end at the number of entries, and every
/// index is below the bound.
pub open spec fn valid_layout(ptrs: Seq<usize>, indices: Seq<usize>, nnz: int, bound: int) -> bool {
    &&& ptrs.len() > 0
    &&& ptrs[0] == 0
    &&& forall|i: int, j: int| 0 <= i <= j < ptrs.len() ==> #[trigger] ptrs[i] <= #[trigger] ptrs[j]
    &&& ptrs[ptrs.len() - 1] == nnz
    &&& forall|i: int| 0 <= i < indices.len() ==> #[trigger] indices[i] < bound
}

/// The first fault of a layout is `fault`: the start, then the order, then the end,
/// then the indices.
pub open spec fn layout_fault(
    ptrs: Seq<usize>,
    indices: Seq<usize>,
    nnz: usize,
    bound: usize,
    fault: LayoutFault,
) -> bool {
    match fault {
        LayoutFault::Start { first } => if ptrs.len() == 0 {
            first is None
        } else {
            ptrs[0] != 0 && first == Some(ptrs[0])
        },
        LayoutFault::Decreasing { at } => {
            &&& ptrs.len() > 0 && ptrs[0] == 0
            &&& at + 1 < ptrs.len() && ptrs[at + 1] < ptrs[at as int]
            &&& forall|i: int, j: int|
                0 <= i <= j <= at ==> #[trigger] ptrs[i] <= #[trigger] ptrs[j]
        },
        LayoutFault::End { got, nnz: n } => {
            &&& ptrs.len() > 0 && ptrs[0] == 0
            &&& forall|i: int, j: int|
                0 <= i <= j < ptrs.len() ==> #[trigger] ptrs[i] <= #[trigger] ptrs[j]
            &&& got == ptrs[ptrs.len() - 1] && n == nnz && got != nnz
        },
        LayoutFault::Index { slot, index, bound: b } => {
            &&& ptrs.len() > 0 && ptrs[0] == 0
            &&& forall|i: int, j: int|
                0 <= i <= j < ptrs.len() ==> #[trigger] ptrs[i] <= #[trigger] ptrs[j]
            &&& ptrs[ptrs.len() - 1] == nnz
            &&& slot < indices.len() && index == indices[slot as int] && b == bound && index
                >= bound
            &&& forall|i: int| 0 <= i < slot ==> #[trigger] indices[i] < bound
        },
    }
}

/// Checks a compressed layout.
pub fn validate_compressed_layout(
    ptrs: &[usize],
    indices: &[usize],
    nnz: usize,
    index_bound: usize,
    axis: Axis,
) -> (r: FerrotorchResult<()>)
    ensures
        match r {
            Ok(_) => valid_layout(ptrs@, indices@, nnz as int, index_bound as int),
            Err(e) => e matches FerrotorchError::InvalidArgument { reason } && (reason matches
                Reason::Compressed { axis: a, fault } && a == axis && layout_fault(
                ptrs@,
                indices@,
                nnz,
                index_bound,
                fault,
            )),
        },
{
    let n: usize = ptrs.len();
    if n == 0 {
        return Err(bad_layout(axis, LayoutFault::Start { first: None }));
    }
    if ptrs[0] != 0 {
        return Err(bad_layout(axis, LayoutFault::Start { first: Some(ptrs[0]) }));
    }
    let mut k: usize = 0;
    while k + 1 < n
        invariant
            k < n,
            n == ptrs@.len(),
            ptrs@[0] == 0,
            forall|i: int, j: int|
                0 <= i <= j <= k ==> #[trigger] ptrs@[i] <= #[trigger] ptrs@[j],
        decreases n - k,
    {
        if ptrs[k + 1] < ptrs[k] {
            return Err(bad_layout(axis, LayoutFault::Decreasing { at: k }));
        }
        k = k + 1;
    }
    if ptrs[n - 1] != nnz {
        return Err(bad_layout(axis, LayoutFault::End { got: ptrs[n - 1], nnz }));
    }
    let mut slot: usize = 0;
    while slot < indices.len()
        invariant
            slot <= indices@.len(),
            n == ptrs@.len(),
            n > 0,
            ptrs@[0] == 0,
            ptrs@[n - 1] == nnz,
            forall|i: int, j: int|
                0 <= i <= j < n ==> #[trigger] ptrs@[i] <= #[trigger] ptrs@[j],
            forall|i: int| 0 <= i < slot ==> #[trigger] indices@[i] < index_bound,
        decreases indices.len() - slot,
    {
        if indices[slot] >= index_bound {
            return Err(
                bad_layout(
                    axis,
                    LayoutFault::Index { slot, index: indices[slot], bound: index_bound },
                ),
            );
        }
        slot = slot + 1;
    }
    Ok(())
}

fn bad_layout(axis: Axis, fault: LayoutFault) -> (r: FerrotorchError)
    ensures
        r == (FerrotorchError::InvalidArgument { reason: Reason::Compressed { axis, fault } }),
{
    FerrotorchError::InvalidArgument { reason: Reason::Compressed { axis, fault } }
}

/// The segment that position `k` lies in.
pub open spec fn segment_of(ptrs: Seq<usize>, k: int) -> int {
    choose|s: int| 0 <= s < ptrs.len() - 1 && ptrs[s] <= k < #[trigger] ptrs[s + 1]
}

/// A position has exactly one segment.
pub proof fn lemma_segment_unique(ptrs: Seq<usize>, s: int, k: int)
    requires
        forall|i: int, j: int|
            0 <= i <= j < ptrs.len() ==> #[trigger] ptrs[i] <= #[trigger] ptrs[j],
        0 <= s < ptrs.len() - 1,
        ptrs[s] <= k < ptrs[s + 1],
    ensures
        segment_of(ptrs, k) == s,
{
    let t = segment_of(ptrs, k);
    assert(0 <= t < ptrs.len() - 1 && ptrs[t] <= k < ptrs[t + 1]);
    if t < s {
        assert(ptrs[t + 1] <= ptrs[s]);
    } else if t > s {
        assert(ptrs[s + 1] <= ptrs[t]);
    }
}

/// Every position below the last pointer has a segment.
pub proof fn lemma_segment_exists(ptrs: Seq<usize>, k: int)
    requires
        ptrs.len() > 0,
        ptrs[0] == 0,
        forall|i: int, j: int|
            0 <= i <= j < ptrs.len() ==> #[trigger] ptrs[i] <= #[trigger] ptrs[j],
        0 <= k < ptrs[ptrs.len() - 1],
    ensures
        0 <= segment_of(ptrs, k) < ptrs.len() - 1,
        ptrs[segment_of(ptrs, k)] <= k < ptrs[segment_of(ptrs, k) + 1],
{
    lemma_segment_search(ptrs, k, ptrs.len() - 1);
}

proof fn lemma_segment_search(ptrs: Seq<usize>, k: int, m: int)
    requires
        ptrs.len() > 0,
        ptrs[0] == 0,
        0 <= m < ptrs.len(),
        0 <= k < ptrs[m],
    ensures
        exists|s: int| 0 <= s < ptrs.len() - 1 && ptrs[s] <= k < #[trigger] ptrs[s + 1],
    decreases m,
{
    if m > 0 {
        if ptrs[m - 1] <= k {
            let s = m - 1;
            assert(ptrs[s] <= k < ptrs[s + 1]);
        } else {
            lemma_segment_search(ptrs, k, m - 1);
        }
    }
}

/// The segment of every entry: for each pointer pair its number, as often as the
/// segment is long.
pub fn expand_segments(ptrs: &[usize], nnz: usize) -> (r: Vec<usize>)
    requires
        valid_layout(ptrs@, Seq::empty(), nnz as int, 0),
    ensures
        r@.len() == nnz,
        forall|k: int| 0 <= k < nnz ==> #[trigger] r@[k] == segment_of(ptrs@, k),
        forall|k: int| 0 <= k < nnz ==> #[trigger] r@[k] < ptrs@.len() - 1,
{
    let mut out: Vec<usize> = Vec::new();
    let n: usize = ptrs.len();
    let mut s: usize = 0;
    while s + 1 < n
        invariant
            s < n,
            n == ptrs@.len(),
            valid_layout(ptrs@, Seq::empty(), nnz as int, 0),
            out@.len() == ptrs@[s as int],
            forall|k: int| 0 <= k < out@.len() ==> #[trigger] out@[k] == segment_of(ptrs@, k),
            forall|k: int| 0 <= k < out@.len() ==> #[trigger] out@[k] < n - 1,
        decreases n - s,
    {
        let end: usize = ptrs[s + 1];
        let mut k: usize = ptrs[s];
        proof {
            assert(ptrs@[s as int] <= ptrs@[s + 1]);
        }
        while k < end
            invariant
                s + 1 < n,
                n == ptrs@.len(),
                valid_layout(ptrs@, Seq::empty(), nnz as int, 0),
                ptrs@[s as int] <= k <= end,
                end == ptrs@[s + 1],
                out@.len() == k,
                forall|j: int| 0 <= j < out@.len() ==> #[trigger] out@[j] == segment_of(ptrs@, j),
                forall|j: int| 0 <= j < out@.len() ==> #[trigger] out@[j] < n - 1,
            decreases end - k,
        {
            proof {
                lemma_segment_unique(ptrs@, s as int, k as int);
            }
            out.push(s);
            k = k + 1;
        }
        s = s + 1;
    }
    out
}

/// How many of the first `n` numbers equal `c`.
pub open spec fn count_eq(s: Seq<usize>, n: int, c: int) -> int
    decreases n,
{
    if n <= 0 {
        0
    } else if s[n - 1] == c {
        count_eq(s, n - 1, c) + 1
    } else {
        count_eq(s, n - 1, c)
    }
}

/// How many of the first `n` numbers are less than `c`.
pub open spec fn count_lt(s: Seq<usize>, n: int, c: int) -> int
    decreases n,
{
    if n <= 0 {
        0
    } else if s[n - 1] < c {
        count_lt(s, n - 1, c) + 1
    } else {
        count_lt(s, n - 1, c)
    }
}

pub proof fn lemma_count_step(s: Seq<usize>, n: int, c: int)
    ensures
        count_lt(s, n, c + 1) == count_lt(s, n, c) + count_eq(s, n, c),
    decreases n,
{
    if n > 0 {
        lemma_count_step(s, n - 1, c);
    }
}

pub proof fn lemma_count_bounds(s: Seq<usize>, n: int, c: int)
    requires
        0 <= n,
    ensures
        0 <= count_eq(s, n, c) <= n,
        0 <= count_lt(s, n, c) <= n,
        c <= 0 ==> count_lt(s, n, c) == 0,
    decreases n,
{
    if n > 0 {
        lemma_count_bounds(s, n - 1, c);
    }
}

pub proof fn lemma_count_all(s: Seq<usize>, n: int, m: int)
    requires
        0 <= n <= s.len(),
        forall|i: int| 0 <= i < s.len() ==> #[trigger] s[i] < m,
    ensures
        count_lt(s, n, m) == n,
    decreases n,
{
    if n > 0 {
        assert(s[n - 1] < m);
        lemma_count_all(s, n - 1, m);
    }
}

/// Counts do not decrease along the list, nor with the bound.
pub proof fn lemma_count_monotone(s: Seq<usize>, a: int, b: int, c: int)
    requires
        0 <= a <= b,
    ensures
        count_eq(s, a, c) <= count_eq(s, b, c),
    decreases b,
{
    if a < b {
        lemma_count_monotone(s, a, b - 1, c);
    }
}

pub proof fn lemma_count_lt_monotone(s: Seq<usize>, n: int, c: int, d: int)
    requires
        c <= d,
        0 <= n,
    ensures
        count_lt(s, n, c) <= count_lt(s, n, d),
    decreases n,
{
    if n > 0 {
        lemma_count_lt_monotone(s, n - 1, c, d);
    }
}

/// Where the bucket of each number below `m` starts when the list is sorted: how many
/// numbers are less.
pub fn bucket_starts(s: &[usize], m: usize) -> (r: Vec<usize>)
    requires
        m < usize::MAX,
        forall|i: int| 0 <= i < s@.len() ==> #[trigger] s@[i] < m,
    ensures
        r@.len() == m + 1,
        forall|c: int| 0 <= c <= m ==> #[trigger] r@[c] == count_lt(s@, s@.len() as int, c),
        valid_layout(r@, Seq::empty(), s@.len() as int, 0),
{
    let mut counts: Vec<usize> = crate::scatter::filled(0usize, m);
    let mut k: usize = 0;
    while k < s.len()
        invariant
            k <= s@.len(),
            counts@.len() == m,
            forall|i: int| 0 <= i < s@.len() ==> #[trigger] s@[i] < m,
            forall|c: int| 0 <= c < m ==> #[trigger] counts@[c] == count_eq(s@, k as int, c),
        decreases s.len() - k,
    {
        let c: usize = s[k];
        proof {
            lemma_count_bounds(s@, k as int, c as int);
        }
        let more: usize = counts[c] + 1;
        counts.set(c, more);
        k = k + 1;
    }
    let mut starts: Vec<usize> = Vec::new();
    starts.push(0);
    proof {
        lemma_count_bounds(s@, s@.len() as int, 0);
    }
    let mut j: usize = 0;
    while j < m
        invariant
            j <= m,
            k == s@.len(),
            counts@.len() == m,
            forall|c: int| 0 <= c < m ==> #[trigger] counts@[c] == count_eq(s@, k as int, c),
            starts@.len() == j + 1,
            forall|c: int| 0 <= c <= j ==> #[trigger] starts@[c] == count_lt(s@, k as int, c),
        decreases m - j,
    {
        proof {
            lemma_count_step(s@, k as int, j as int);
            lemma_count_bounds(s@, k as int, j + 1);
        }
        let next: usize = starts[j] + counts[j];
        starts.push(next);
        j = j + 1;
    }
    proof {
        lemma_count_all(s@, s@.len() as int, m as int);
        assert forall|a: int, b: int| 0 <= a <= b < starts@.len() implies #[trigger] starts@[a]
            <= #[trigger] starts@[b] by {
            lemma_count_lt_monotone(s@, s@.len() as int, a, b);
        }
    }
    starts
}

/// Where entry `k` goes when the entries are sorted by their number, entries of the
/// same number keeping their order.
pub open spec fn sorted_place(s: Seq<usize>, k: int) -> int {
    count_lt(s, s.len() as int, s[k] as int) + count_eq(s, k, s[k] as int)
}

/// The place of an entry lies in the bucket of its number.
pub proof fn lemma_place_in_bucket(s: Seq<usize>, k: int)
    requires
        0 <= k < s.len(),
    ensures
        count_lt(s, s.len() as int, s[k] as int) <= sorted_place(s, k) < count_lt(
            s,
            s.len() as int,
            s[k] + 1,
        ),
        0 <= sorted_place(s, k) < s.len(),
{
    let n = s.len() as int;
    let c = s[k] as int;
    lemma_count_step(s, n, c);
    lemma_count_bounds(s, k, c);
    lemma_count_bounds(s, n, c);
    lemma_count_bounds(s, n, c + 1);
    lemma_count_monotone(s, k + 1, n, c);
}

/// Different entries have different places.
pub proof fn lemma_places_distinct(s: Seq<usize>, j: int, k: int)
    requires
        0 <= j < k < s.len(),
    ensures
        sorted_place(s, j) != sorted_place(s, k),
        s[j] == s[k] ==> sorted_place(s, j) < sorted_place(s, k),
        s[j] < s[k] ==> sorted_place(s, j) < sorted_place(s, k),
        s[j] > s[k] ==> sorted_place(s, j) > sorted_place(s, k),
{
    let n = s.len() as int;
    lemma_place_in_bucket(s, j);
    lemma_place_in_bucket(s, k);
    if s[j] == s[k] {
        lemma_count_monotone(s, j + 1, k, s[j] as int);
    } else if s[j] < s[k] {
        lemma_count_lt_monotone(s, n, s[j] + 1, s[k] as int);
    } else {
        lemma_count_lt_monotone(s, n, s[k] + 1, s[j] as int);
    }
}

/// The `i`-th of the first `n` entries with number `c` exists if there are that many.
proof fn lemma_occurrence(s: Seq<usize>, n: int, c: int, i: int) -> (k: int)
    requires
        0 <= n,
        0 <= i < count_eq(s, n, c),
    ensures
        0 <= k < n,
        s[k] == c,
        count_eq(s, k, c) == i,
    decreases n,
{
    if n > 0 && s[n - 1] == c && count_eq(s, n - 1, c) == i {
        n - 1
    } else {
        lemma_occurrence(s, n - 1, c, i)
    }
}

/// Every place in the bucket of `c` is that of an entry with number `c`.
pub proof fn lemma_place_taken(s: Seq<usize>, c: int, d: int) -> (k: int)
    requires
        count_lt(s, s.len() as int, c) <= d < count_lt(s, s.len() as int, c + 1),
    ensures
        0 <= k < s.len(),
        s[k] == c,
        sorted_place(s, k) == d,
{
    let n = s.len() as int;
    lemma_count_step(s, n, c);
    lemma_occurrence(s, n, c, d - count_lt(s, n, c))
}

} // verus!
