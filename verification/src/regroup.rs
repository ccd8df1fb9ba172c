//! Compressing a compressed layout along its other dimension.

use crate::layout::{
    bucket_starts, count_eq, count_lt, expand_segments, lemma_count_bounds,
    lemma_count_lt_monotone, lemma_place_in_bucket, lemma_place_taken, lemma_places_distinct,
    lemma_segment_exists, lemma_segment_unique, segment_of, sorted_place, valid_layout,
};
use crate::scatter::filled;
use vstd::prelude::*;

verus! {

/// The entries of a layout grouped by their index, entries of one index keeping
/// their order: the new pointers count smaller indices, and each entry has its
/// segment as the new index.
pub open spec fn regrouped<T>(
    ptrs: Seq<usize>,
    indices: Seq<usize>,
    values: Seq<T>,
    m: int,
    out_ptrs: Seq<usize>,
    out_indices: Seq<usize>,
    out_values: Seq<T>,
) -> bool {
    &&& out_ptrs.len() == m + 1
    &&& forall|c: int|
        0 <= c <= m ==> #[trigger] out_ptrs[c] == count_lt(indices, indices.len() as int, c)
    &&& out_indices.len() == indices.len()
    &&& out_values.len() == indices.len()
    &&& forall|k: int|
        #![trigger sorted_place(indices, k)]
        0 <= k < indices.len() ==> {
            &&& out_indices[sorted_place(indices, k)] == segment_of(ptrs, k)
            &&& out_values[sorted_place(indices, k)] == values[k]
        }
}

/// The entry at a place of the regrouped layout has the index of its old entry as its
/// new segment.
pub proof fn lemma_regrouped_segment<T>(
    ptrs: Seq<usize>,
    indices: Seq<usize>,
    values: Seq<T>,
    m: int,
    out_ptrs: Seq<usize>,
    out_indices: Seq<usize>,
    out_values: Seq<T>,
    k: int,
)
    requires
        regrouped(ptrs, indices, values, m, out_ptrs, out_indices, out_values),
        forall|i: int| 0 <= i < indices.len() ==> #[trigger] indices[i] < m,
        0 <= k < indices.len(),
    ensures
        segment_of(out_ptrs, sorted_place(indices, k)) == indices[k],
{
    let c = indices[k] as int;
    assert(indices[k] < m);
    lemma_place_in_bucket(indices, k);
    assert forall|a: int, b: int| 0 <= a <= b < out_ptrs.len() implies #[trigger] out_ptrs[a]
        <= #[trigger] out_ptrs[b] by {
        lemma_count_lt_monotone(indices, indices.len() as int, a, b);
    }
    assert(out_ptrs[c] == count_lt(indices, indices.len() as int, c));
    assert(out_ptrs[c + 1] == count_lt(indices, indices.len() as int, c + 1));
    lemma_segment_unique(out_ptrs, c, sorted_place(indices, k));
}

/// Every place of the regrouped layout is that of an entry.
pub proof fn lemma_regrouped_entry(indices: Seq<usize>, m: int, p: int) -> (k: int)
    requires
        forall|i: int| 0 <= i < indices.len() ==> #[trigger] indices[i] < m,
        0 <= p < indices.len(),
    ensures
        0 <= k < indices.len(),
        sorted_place(indices, k) == p,
{
    let n = indices.len() as int;
    crate::layout::lemma_count_all(indices, n, m);
    lemma_bucket_search(indices, p, m)
}

proof fn lemma_bucket_search(indices: Seq<usize>, p: int, c: int) -> (k: int)
    requires
        0 <= p < count_lt(indices, indices.len() as int, c),
    ensures
        0 <= k < indices.len(),
        sorted_place(indices, k) == p,
    decreases c,
{
    lemma_count_bounds(indices, indices.len() as int, c);
    if count_lt(indices, indices.len() as int, c - 1) <= p {
        lemma_place_taken(indices, c - 1, p)
    } else {
        lemma_bucket_search(indices, p, c - 1)
    }
}

/// Groups the entries of a layout by their index.
pub fn regroup<T: Copy>(
    ptrs: &[usize],
    indices: &[usize],
    values: &[T],
    m: usize,
) -> (r: (Vec<usize>, Vec<usize>, Vec<T>))
    requires
        valid_layout(ptrs@, indices@, values@.len() as int, m as int),
        indices@.len() == values@.len(),
        m < usize::MAX,
    ensures
        regrouped(ptrs@, indices@, values@, m as int, r.0@, r.1@, r.2@),
        valid_layout(r.0@, r.1@, values@.len() as int, ptrs@.len() - 1),
{
    let n: usize = indices.len();
    let segments: Vec<usize> = expand_segments(ptrs, n);
    let starts: Vec<usize> = bucket_starts(indices, m);
    let mut cursor: Vec<usize> = bucket_starts(indices, m);
    if n == 0 {
        return (starts, Vec::new(), Vec::new());
    }
    let mut out_indices: Vec<usize> = filled(0usize, n);
    let mut out_values: Vec<T> = filled(values[0], n);
    let mut k: usize = 0;
    while k < n
        invariant
            k <= n,
            n == indices@.len(),
            n == values@.len(),
            segments@.len() == n,
            forall|j: int| 0 <= j < n ==> #[trigger] segments@[j] == segment_of(ptrs@, j),
            forall|i: int| 0 <= i < indices@.len() ==> #[trigger] indices@[i] < m,
            cursor@.len() == m + 1,
            forall|c: int|
                0 <= c < m ==> #[trigger] cursor@[c] == count_lt(indices@, n as int, c) + count_eq(
                    indices@,
                    k as int,
                    c,
                ),
            out_indices@.len() == n,
            out_values@.len() == n,
            forall|j: int|
                #![trigger sorted_place(indices@, j)]
                0 <= j < k ==> {
                    &&& out_indices@[sorted_place(indices@, j)] == segment_of(ptrs@, j)
                    &&& out_values@[sorted_place(indices@, j)] == values@[j]
                },
        decreases n - k,
    {
        let c: usize = indices[k];
        let dst: usize = cursor[c];
        proof {
            assert(dst == sorted_place(indices@, k as int));
            lemma_place_in_bucket(indices@, k as int);
            assert forall|j: int| 0 <= j < k implies #[trigger] sorted_place(indices@, j) != dst
                && 0 <= sorted_place(indices@, j) < n by {
                lemma_places_distinct(indices@, j, k as int);
                lemma_place_in_bucket(indices@, j);
            }
        }
        out_indices.set(dst, segments[k]);
        out_values.set(dst, values[k]);
        cursor.set(c, dst + 1);
        k = k + 1;
    }
    proof {
        assert forall|p: int| 0 <= p < n implies #[trigger] out_indices@[p] < ptrs@.len() - 1 by {
            let j = lemma_regrouped_entry(indices@, m as int, p);
            assert(segments@[j] < ptrs@.len() - 1);
            assert(out_indices@[sorted_place(indices@, j)] == segment_of(ptrs@, j));
        }
    }
    (starts, out_indices, out_values)
}

/// A map of the first `n` numbers into themselves that strictly increases changes
/// nothing.
proof fn lemma_increasing_identity(q: spec_fn(int) -> int, n: int, k: int)
    requires
        forall|i: int| 0 <= i < n ==> 0 <= #[trigger] q(i) < n,
        forall|i: int, j: int| 0 <= i < j < n ==> #[trigger] q(i) < #[trigger] q(j),
        0 <= k < n,
    ensures
        q(k) == k,
{
    lemma_increasing_above(q, n, k);
    lemma_increasing_below(q, n, k);
}

proof fn lemma_increasing_above(q: spec_fn(int) -> int, n: int, k: int)
    requires
        forall|i: int| 0 <= i < n ==> 0 <= #[trigger] q(i) < n,
        forall|i: int, j: int| 0 <= i < j < n ==> #[trigger] q(i) < #[trigger] q(j),
        0 <= k < n,
    ensures
        q(k) >= k,
    decreases k,
{
    if k > 0 {
        lemma_increasing_above(q, n, k - 1);
        assert(q(k - 1) < q(k));
    }
}

proof fn lemma_increasing_below(q: spec_fn(int) -> int, n: int, k: int)
    requires
        forall|i: int| 0 <= i < n ==> 0 <= #[trigger] q(i) < n,
        forall|i: int, j: int| 0 <= i < j < n ==> #[trigger] q(i) < #[trigger] q(j),
        0 <= k < n,
    ensures
        q(k) <= k,
    decreases n - k,
{
    if k < n - 1 {
        lemma_increasing_below(q, n, k + 1);
        assert(q(k) < q(k + 1));
    }
}

/// The pointers of a layout are determined by the segments of its entries.
pub proof fn lemma_segments_determine(a: Seq<usize>, b: Seq<usize>, nnz: int)
    requires
        valid_layout(a, Seq::empty(), nnz, 0),
        valid_layout(b, Seq::empty(), nnz, 0),
        a.len() == b.len(),
        forall|k: int|
            #![trigger segment_of(a, k)]
            0 <= k < nnz ==> segment_of(a, k) == segment_of(b, k),
    ensures
        a == b,
{
    assert forall|i: int| 0 <= i < a.len() implies a[i] == b[i] by {
        if a[i] < b[i] {
            lemma_pointer_split(a, b, nnz, i);
        } else if b[i] < a[i] {
            assert forall|k: int| 0 <= k < nnz implies #[trigger] segment_of(b, k) == segment_of(
                a,
                k,
            ) by {}
            lemma_pointer_split(b, a, nnz, i);
        }
    }
    assert(a =~= b);
}

proof fn lemma_pointer_split(a: Seq<usize>, b: Seq<usize>, nnz: int, i: int)
    requires
        valid_layout(a, Seq::empty(), nnz, 0),
        valid_layout(b, Seq::empty(), nnz, 0),
        a.len() == b.len(),
        0 <= i < a.len(),
        a[i] < b[i],
    ensures
        exists|k: int| 0 <= k < nnz && #[trigger] segment_of(a, k) != segment_of(b, k),
{
    let k = a[i] as int;
    assert(b[i] <= b[b.len() - 1]);
    lemma_segment_exists(a, k);
    lemma_segment_exists(b, k);
    let s = segment_of(a, k);
    let t = segment_of(b, k);
    if s < i {
        assert(a[s + 1] <= a[i]);
    }
    if t >= i {
        assert(b[i] <= b[t]);
    }
    assert(segment_of(a, k) != segment_of(b, k));
}

/// Regrouping twice gives back the layout, where the indices of each segment do not
/// decrease.
pub proof fn lemma_regroup_twice<T>(
    ptrs: Seq<usize>,
    indices: Seq<usize>,
    values: Seq<T>,
    m: int,
    mid_ptrs: Seq<usize>,
    mid_indices: Seq<usize>,
    mid_values: Seq<T>,
    out_ptrs: Seq<usize>,
    out_indices: Seq<usize>,
    out_values: Seq<T>,
)
    requires
        valid_layout(ptrs, indices, values.len() as int, m),
        indices.len() == values.len(),
        forall|j: int, k: int|
            0 <= j < k < indices.len() && segment_of(ptrs, j) == segment_of(ptrs, k)
                ==> #[trigger] indices[j] <= #[trigger] indices[k],
        regrouped(ptrs, indices, values, m, mid_ptrs, mid_indices, mid_values),
        regrouped(
            mid_ptrs,
            mid_indices,
            mid_values,
            ptrs.len() - 1,
            out_ptrs,
            out_indices,
            out_values,
        ),
    ensures
        out_ptrs == ptrs,
        out_indices == indices,
        out_values == values,
{
    let n = indices.len() as int;
    assert forall|p: int| 0 <= p < n implies #[trigger] mid_indices[p] < ptrs.len() - 1 by {
        let j = lemma_regrouped_entry(indices, m, p);
        lemma_segment_exists(ptrs, j);
    }
    let q = |k: int| sorted_place(mid_indices, sorted_place(indices, k));
    assert forall|k: int| 0 <= k < n implies 0 <= #[trigger] q(k) < n by {
        lemma_place_in_bucket(indices, k);
        lemma_place_in_bucket(mid_indices, sorted_place(indices, k));
    }
    assert forall|j: int, k: int| 0 <= j < k < n implies #[trigger] q(j) < #[trigger] q(k) by {
        let pj = sorted_place(indices, j);
        let pk = sorted_place(indices, k);
        lemma_place_in_bucket(indices, j);
        lemma_place_in_bucket(indices, k);
        lemma_places_distinct(indices, j, k);
        assert(mid_indices[pj] == segment_of(ptrs, j));
        assert(mid_indices[pk] == segment_of(ptrs, k));
        lemma_segments_ordered(ptrs, j, k);
        if pj < pk {
            lemma_places_distinct(mid_indices, pj, pk);
        } else {
            lemma_places_distinct(mid_indices, pk, pj);
        }
        if segment_of(ptrs, j) == segment_of(ptrs, k) {
            assert(indices[j] <= indices[k]);
        }
    }
    assert forall|k: int| 0 <= k < n implies {
        &&& #[trigger] out_indices[k] == indices[k]
        &&& out_values[k] == values[k]
        &&& segment_of(out_ptrs, k) == segment_of(ptrs, k)
    } by {
        let p = sorted_place(indices, k);
        lemma_place_in_bucket(indices, k);
        lemma_increasing_identity(q, n, k);
        assert(q(k) == sorted_place(mid_indices, p));
        lemma_regrouped_segment(
            ptrs,
            indices,
            values,
            m,
            mid_ptrs,
            mid_indices,
            mid_values,
            k,
        );
        lemma_regrouped_segment(
            mid_ptrs,
            mid_indices,
            mid_values,
            ptrs.len() - 1,
            out_ptrs,
            out_indices,
            out_values,
            p,
        );
    }
    assert(out_indices =~= indices);
    assert forall|k: int| 0 <= k < n implies out_values[k] == values[k] by {
        assert(out_indices[k] == indices[k]);
    }
    assert(out_values =~= values);
    assert(valid_layout(out_ptrs, Seq::empty(), n, 0)) by {
        lemma_count_bounds(mid_indices, n, 0);
        crate::layout::lemma_count_all(mid_indices, n, ptrs.len() - 1);
        assert(out_ptrs[0] == count_lt(mid_indices, n, 0));
        assert(out_ptrs[ptrs.len() - 1] == count_lt(mid_indices, n, ptrs.len() - 1));
        assert forall|a: int, b: int| 0 <= a <= b < out_ptrs.len() implies #[trigger] out_ptrs[a]
            <= #[trigger] out_ptrs[b] by {
            lemma_count_lt_monotone(mid_indices, n, a, b);
        }
    }
    assert forall|k: int| 0 <= k < n implies #[trigger] segment_of(out_ptrs, k) == segment_of(
        ptrs,
        k,
    ) by {
        assert(out_indices[k] == indices[k]);
    }
    lemma_segments_determine(out_ptrs, ptrs, n);
}

/// Segments do not decrease along a layout.
pub proof fn lemma_segments_ordered(ptrs: Seq<usize>, j: int, k: int)
    requires
        ptrs.len() > 0,
        ptrs[0] == 0,
        forall|a: int, b: int|
            0 <= a <= b < ptrs.len() ==> #[trigger] ptrs[a] <= #[trigger] ptrs[b],
        0 <= j <= k < ptrs[ptrs.len() - 1],
    ensures
        0 <= segment_of(ptrs, j) <= segment_of(ptrs, k) < ptrs.len() - 1,
{
    lemma_segment_exists(ptrs, j);
    lemma_segment_exists(ptrs, k);
    let s = segment_of(ptrs, j);
    let t = segment_of(ptrs, k);
    if t < s {
        assert(ptrs[t + 1] <= ptrs[s]);
    }
}

} // verus!
