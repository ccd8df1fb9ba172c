//! Gradients that touch some rows of a parameter only.

use crate::autograd::{Context, Plan};
use crate::dtype::Float;
use crate::error::{CudaGap, FerrotorchError, FerrotorchResult, Reason};
use crate::scatter::{copied, distinct, filled};
use crate::shape;
use crate::sparse_tensor::lemma_matrix_position;
use crate::storage::TensorStorage;
use crate::stride_tricks::same_shape;
use crate::tensor::Tensor;
use crate::transfer::{DeviceSource, TransferJob};
use crate::update::{scatter_kernel, scatter_kernel_spec, ScatterKernel};
use vstd::prelude::*;

verus! {

/// A gradient as a list of rows along the leading dimension of a parameter: for each
/// index a slab of values of the shape of the other dimensions.
#[derive(Debug)]
pub struct SparseGrad<T: Float> {
    pub indices: Vec<usize>,
    pub values: Vec<T>,
    pub slab_shape: Vec<usize>,
}

impl<T: Float> Clone for SparseGrad<T> {
    fn clone(&self) -> (r: Self)
        ensures
            r.indices@ == self.indices@,
            r.values@ == self.values@,
            r.slab_shape@ == self.slab_shape@,
            self.wf() ==> r.wf(),
    {
        SparseGrad {
            indices: copied(self.indices.as_slice()),
            values: copied(self.values.as_slice()),
            slab_shape: copied(self.slab_shape.as_slice()),
        }
    }
}

/// What has to be done for an update step.
#[derive(Debug)]
pub enum SgdJob<T: Float> {
    /// Sum the slabs by row on the device, scale the sums and subtract them from the
    /// parameter; then replace its storage by the result.
    Update(SgdUpdate<T>),
    /// Read the parameter back; its new elements are then [`SparseGrad::updated_data`].
    Read(TransferJob<T>),
}

/// An update step on a CUDA device.
#[derive(Debug)]
pub struct SgdUpdate<T: Float> {
    pub param: DeviceSource,
    pub values: Vec<T>,
    pub indices: Vec<i64>,
    pub slab_size: usize,
    pub leading: usize,
    pub lr: T,
    pub kernel: ScatterKernel,
}

/// Element `j` of the sum, from zero on, of those of the first `n` slabs whose index
/// is `idx`.
pub open spec fn slab_sum<T: Float>(
    indices: Seq<usize>,
    values: Seq<T>,
    slab: int,
    n: int,
    idx: usize,
    j: int,
) -> T
    decreases n,
{
    if n <= 0 {
        T::zero_spec()
    } else if indices[n - 1] == idx {
        slab_sum(indices, values, slab, n - 1, idx, j).plus(values[(n - 1) * slab + j])
    } else {
        slab_sum(indices, values, slab, n - 1, idx, j)
    }
}

/// One of the first `n` indices is `idx`.
pub open spec fn lists(indices: Seq<usize>, n: int, idx: usize) -> bool {
    exists|k: int| 0 <= k < n && #[trigger] indices[k] == idx
}

/// The indices strictly increase.
pub open spec fn increasing(indices: Seq<usize>) -> bool {
    forall|a: int, b: int|
        0 <= a < b < indices.len() ==> #[trigger] indices[a] < #[trigger] indices[b]
}

/// `out` lists the first `n` indices once each, in increasing order, and `slabs` has
/// the sum of the slabs of each.
pub open spec fn summed<T: Float>(
    indices: Seq<usize>,
    values: Seq<T>,
    slab: int,
    n: int,
    out: Seq<usize>,
    slabs: Seq<Seq<T>>,
) -> bool {
    &&& out.len() == slabs.len()
    &&& increasing(out)
    &&& forall|q: int| 0 <= q < out.len() ==> lists(indices, n, #[trigger] out[q])
    &&& forall|k: int| 0 <= k < n ==> lists(out, out.len() as int, #[trigger] indices[k])
    &&& forall|q: int| 0 <= q < slabs.len() ==> (#[trigger] slabs[q]).len() == slab
    &&& forall|q: int, j: int|
        0 <= q < out.len() && 0 <= j < slab ==> #[trigger] slabs[q][j] == slab_sum(
            indices,
            values,
            slab,
            n,
            out[q],
            j,
        )
}

/// What stands at position `p` of a parameter with rows of `slab` elements after the
/// first `n` slabs, times `lr`, have been subtracted from their rows, in order.
pub open spec fn sgd_cell<T: Float>(
    init: T,
    indices: Seq<usize>,
    values: Seq<T>,
    slab: int,
    lr: T,
    n: int,
    p: int,
) -> T
    decreases n,
{
    if n <= 0 {
        init
    } else if indices[n - 1] == p / slab {
        sgd_cell(init, indices, values, slab, lr, n - 1, p).minus(
            lr.times(values[(n - 1) * slab + p % slab]),
        )
    } else {
        sgd_cell(init, indices, values, slab, lr, n - 1, p)
    }
}

/// The elements of a parameter after an update step.
pub open spec fn sgd_elements<T: Float>(
    data: Seq<T>,
    indices: Seq<usize>,
    values: Seq<T>,
    slab: int,
    lr: T,
) -> Seq<T> {
    Seq::new(
        data.len(),
        |p: int| sgd_cell(data[p], indices, values, slab, lr, indices.len() as int, p),
    )
}

/// An update step leaves every row alone that the gradient does not list.
pub proof fn lemma_sgd_untouched<T: Float>(
    data: Seq<T>,
    indices: Seq<usize>,
    values: Seq<T>,
    slab: int,
    lr: T,
    p: int,
)
    requires
        0 <= p < data.len(),
        forall|k: int| 0 <= k < indices.len() ==> #[trigger] indices[k] != p / slab,
    ensures
        sgd_elements(data, indices, values, slab, lr)[p] == data[p],
{
    lemma_sgd_prefix(data[p], indices, values, slab, lr, indices.len() as int, p);
}

proof fn lemma_sgd_prefix<T: Float>(
    init: T,
    indices: Seq<usize>,
    values: Seq<T>,
    slab: int,
    lr: T,
    n: int,
    p: int,
)
    requires
        0 <= n <= indices.len(),
        forall|k: int| 0 <= k < indices.len() ==> #[trigger] indices[k] != p / slab,
    ensures
        sgd_cell(init, indices, values, slab, lr, n, p) == init,
    decreases n,
{
    if n > 0 {
        lemma_sgd_prefix(init, indices, values, slab, lr, n - 1, p);
        assert(indices[n - 1] != p / slab);
    }
}

/// An update step with a gradient of one row subtracts `lr` times its slab from that
/// row.
pub proof fn lemma_sgd_single<T: Float>(
    data: Seq<T>,
    indices: Seq<usize>,
    values: Seq<T>,
    slab: int,
    lr: T,
    j: int,
)
    requires
        indices.len() == 1,
        0 <= j < slab,
        values.len() == slab,
        indices[0] * slab + j < data.len(),
    ensures
        sgd_elements(data, indices, values, slab, lr)[indices[0] * slab + j]
            == data[indices[0] * slab + j].minus(lr.times(values[j])),
{
    reveal_with_fuel(sgd_cell, 2);
    lemma_matrix_position(indices[0] as int, j, slab, indices[0] + 1);
    assert(0 * slab == 0);
}

proof fn lemma_sgd_longer<T: Float>(
    init: T,
    indices: Seq<usize>,
    values: Seq<T>,
    k: usize,
    row: Seq<T>,
    slab: int,
    lr: T,
    n: int,
    p: int,
)
    requires
        0 < slab,
        0 <= n <= indices.len(),
        values.len() == indices.len() * slab,
    ensures
        sgd_cell(init, indices.push(k), values + row, slab, lr, n, p) == sgd_cell(
            init,
            indices,
            values,
            slab,
            lr,
            n,
            p,
        ),
    decreases n,
{
    if n > 0 {
        lemma_sgd_longer(init, indices, values, k, row, slab, lr, n - 1, p);
        assert(indices.push(k)[n - 1] == indices[n - 1]);
        vstd::arithmetic::div_mod::lemma_fundamental_div_mod(p, slab);
        assert(0 <= (n - 1) * slab + p % slab < values.len()) by (nonlinear_arith)
            requires
                0 < n <= indices.len(),
                0 < slab,
                0 <= p % slab < slab,
                values.len() == indices.len() * slab,
        ;
    }
}

/// An update step with no rows leaves every element alone.
pub proof fn lemma_sgd_empty<T: Float>(data: Seq<T>, slab: int, lr: T)
    ensures
        sgd_elements(data, Seq::empty(), Seq::empty(), slab, lr) == data,
{
    assert(sgd_elements(data, Seq::empty(), Seq::empty(), slab, lr) =~= data);
}

/// One more row in the gradient: the step subtracts `lr` times its slab from that row,
/// behind what the rows before it did, and does nothing more to any other row.
pub proof fn lemma_sgd_appended<T: Float>(
    data: Seq<T>,
    indices: Seq<usize>,
    values: Seq<T>,
    k: usize,
    row: Seq<T>,
    slab: int,
    lr: T,
    p: int,
)
    requires
        0 < slab,
        values.len() == indices.len() * slab,
        row.len() == slab,
        0 <= p < data.len(),
    ensures
        p / slab == k ==> sgd_elements(data, indices.push(k), values + row, slab, lr)[p]
            == sgd_elements(data, indices, values, slab, lr)[p].minus(lr.times(row[p % slab])),
        p / slab != k ==> sgd_elements(data, indices.push(k), values + row, slab, lr)[p]
            == sgd_elements(data, indices, values, slab, lr)[p],
{
    let n = indices.len() as int;
    lemma_sgd_longer(data[p], indices, values, k, row, slab, lr, n, p);
    vstd::arithmetic::div_mod::lemma_fundamental_div_mod(p, slab);
    assert(indices.push(k)[n] == k);
    assert((values + row)[n * slab + p % slab] == row[p % slab]);
}

proof fn lemma_sgd_distinct_prefix<T: Float>(
    init: T,
    indices: Seq<usize>,
    values: Seq<T>,
    slab: int,
    lr: T,
    k: int,
    n: int,
    p: int,
)
    requires
        distinct(indices, indices.len() as int),
        0 <= k < indices.len(),
        0 <= n <= indices.len(),
        indices[k] == p / slab,
    ensures
        n <= k ==> sgd_cell(init, indices, values, slab, lr, n, p) == init,
        n > k ==> sgd_cell(init, indices, values, slab, lr, n, p) == init.minus(
            lr.times(values[k * slab + p % slab]),
        ),
    decreases n,
{
    if n > 0 {
        lemma_sgd_distinct_prefix(init, indices, values, slab, lr, k, n - 1, p);
        if n - 1 < k {
            assert(indices[n - 1] != indices[k]);
        } else if n - 1 > k {
            assert(indices[k] != indices[n - 1]);
        }
    }
}

/// Where no row is listed twice, an update step subtracts `lr` times the slab of every
/// slot from the row that the slot lists.
pub proof fn lemma_sgd_distinct<T: Float>(
    data: Seq<T>,
    indices: Seq<usize>,
    values: Seq<T>,
    slab: int,
    lr: T,
    k: int,
    j: int,
)
    requires
        distinct(indices, indices.len() as int),
        0 <= k < indices.len(),
        0 <= j < slab,
        indices[k] * slab + j < data.len(),
    ensures
        sgd_elements(data, indices, values, slab, lr)[indices[k] * slab + j]
            == data[indices[k] * slab + j].minus(lr.times(values[k * slab + j])),
{
    let p = indices[k] * slab + j;
    lemma_matrix_position(indices[k] as int, j, slab, indices[k] + 1);
    lemma_sgd_distinct_prefix(
        data[p],
        indices,
        values,
        slab,
        lr,
        k,
        indices.len() as int,
        p,
    );
}

/// A slab that is summed over no rows is zero everywhere.
pub proof fn lemma_slab_sum_empty<T: Float>(slab: int, idx: usize, j: int)
    ensures
        slab_sum(Seq::empty(), Seq::<T>::empty(), slab, 0, idx, j) == T::zero_spec(),
{
}

proof fn lemma_slab_sum_longer<T: Float>(
    indices: Seq<usize>,
    values: Seq<T>,
    k: usize,
    row: Seq<T>,
    slab: int,
    n: int,
    idx: usize,
    j: int,
)
    requires
        0 <= j < slab,
        0 <= n <= indices.len(),
        values.len() == indices.len() * slab,
    ensures
        slab_sum(indices.push(k), values + row, slab, n, idx, j) == slab_sum(
            indices,
            values,
            slab,
            n,
            idx,
            j,
        ),
    decreases n,
{
    if n > 0 {
        lemma_slab_sum_longer(indices, values, k, row, slab, n - 1, idx, j);
        assert(indices.push(k)[n - 1] == indices[n - 1]);
        assert(0 <= (n - 1) * slab + j < values.len()) by (nonlinear_arith)
            requires
                0 < n <= indices.len(),
                0 <= j < slab,
                values.len() == indices.len() * slab,
        ;
    }
}

/// One more row in the gradient is added to the sum of the rows before it with the same
/// index, and to no other.
pub proof fn lemma_slab_sum_appended<T: Float>(
    indices: Seq<usize>,
    values: Seq<T>,
    k: usize,
    row: Seq<T>,
    slab: int,
    idx: usize,
    j: int,
)
    requires
        0 <= j < slab,
        values.len() == indices.len() * slab,
        row.len() == slab,
    ensures
        ({
            let n = indices.len() as int;
            let before = slab_sum(indices, values, slab, n, idx, j);
            let now = slab_sum(indices.push(k), values + row, slab, n + 1, idx, j);
            &&& k == idx ==> now == before.plus(row[j])
            &&& k != idx ==> now == before
        }),
{
    let n = indices.len() as int;
    lemma_slab_sum_longer(indices, values, k, row, slab, n, idx, j);
    assert(indices.push(k)[n] == k);
    assert((values + row)[n * slab + j] == row[j]);
}

/// The sum for a row that one slot lists is that slot's slab, added to zero.
pub proof fn lemma_slab_sum_once<T: Float>(
    indices: Seq<usize>,
    values: Seq<T>,
    slab: int,
    n: int,
    k: int,
    j: int,
)
    requires
        0 <= k < n <= indices.len(),
        forall|i: int| 0 <= i < n && i != k ==> #[trigger] indices[i] != indices[k],
    ensures
        slab_sum(indices, values, slab, n, indices[k], j) == T::zero_spec().plus(
            values[k * slab + j],
        ),
    decreases n,
{
    if n - 1 > k {
        assert(indices[n - 1] != indices[k]);
        lemma_slab_sum_once(indices, values, slab, n - 1, k, j);
    } else {
        lemma_slab_sum_none(indices, values, slab, k, indices[k], j);
    }
}

/// The sum for a row that two slots list is the slab of the first added to zero, plus that
/// of the second.
pub proof fn lemma_slab_sum_twice<T: Float>(
    indices: Seq<usize>,
    values: Seq<T>,
    slab: int,
    n: int,
    a: int,
    b: int,
    j: int,
)
    requires
        0 <= a < b < n <= indices.len(),
        indices[a] == indices[b],
        forall|i: int| 0 <= i < n && i != a && i != b ==> #[trigger] indices[i] != indices[a],
    ensures
        slab_sum(indices, values, slab, n, indices[a], j) == T::zero_spec().plus(
            values[a * slab + j],
        ).plus(values[b * slab + j]),
    decreases n,
{
    if n - 1 > b {
        assert(indices[n - 1] != indices[a]);
        lemma_slab_sum_twice(indices, values, slab, n - 1, a, b, j);
    } else {
        lemma_slab_sum_once(indices, values, slab, n - 1, a, j);
    }
}

proof fn lemma_slab_sum_none<T: Float>(
    indices: Seq<usize>,
    values: Seq<T>,
    slab: int,
    n: int,
    idx: usize,
    j: int,
)
    requires
        0 <= n <= indices.len(),
        forall|i: int| 0 <= i < n ==> #[trigger] indices[i] != idx,
    ensures
        slab_sum(indices, values, slab, n, idx, j) == T::zero_spec(),
    decreases n,
{
    if n > 0 {
        assert(indices[n - 1] != idx);
        lemma_slab_sum_none(indices, values, slab, n - 1, idx, j);
    }
}

/// The place of `idx` in a list that strictly increases, and whether it is there.
fn find_index(indices: &Vec<usize>, idx: usize) -> (r: (usize, bool))
    requires
        increasing(indices@),
    ensures
        r.0 <= indices@.len(),
        r.1 ==> r.0 < indices@.len() && indices@[r.0 as int] == idx,
        forall|a: int| 0 <= a < r.0 ==> #[trigger] indices@[a] < idx,
        !r.1 ==> forall|a: int| r.0 <= a < indices@.len() ==> #[trigger] indices@[a] > idx,
{
    let mut lo: usize = 0;
    let mut hi: usize = indices.len();
    while lo < hi
        invariant
            lo <= hi <= indices@.len(),
            increasing(indices@),
            forall|a: int| 0 <= a < lo ==> #[trigger] indices@[a] < idx,
            forall|a: int| hi <= a < indices@.len() ==> #[trigger] indices@[a] > idx,
        decreases hi - lo,
    {
        let mid: usize = lo + (hi - lo) / 2;
        if indices[mid] == idx {
            proof {
                assert forall|a: int| 0 <= a < mid implies #[trigger] indices@[a] < idx by {
                    assert(indices@[a] < indices@[mid as int]);
                }
            }
            return (mid, true);
        } else if indices[mid] < idx {
            proof {
                assert forall|a: int| 0 <= a < mid + 1 implies #[trigger] indices@[a] < idx by {
                    if a < mid {
                        assert(indices@[a] < indices@[mid as int]);
                    }
                }
            }
            lo = mid + 1;
        } else {
            proof {
                assert forall|a: int| mid <= a < indices@.len() implies #[trigger] indices@[a]
                    > idx by {
                    if a > mid {
                        assert(indices@[mid as int] < indices@[a]);
                    }
                }
            }
            hi = mid;
        }
    }
    (lo, false)
}

/// The views of a list of rows.
pub open spec fn rows_view<T>(rows: Seq<Vec<T>>) -> Seq<Seq<T>> {
    Seq::new(rows.len(), |i: int| rows[i]@)
}

/// A row plus a slab.
fn row_plus<T: Float>(row: &[T], values: &[T], start: usize) -> (r: Vec<T>)
    requires
        start + row@.len() <= values@.len(),
    ensures
        r@.len() == row@.len(),
        forall|j: int| 0 <= j < row@.len() ==> #[trigger] r@[j] == row@[j].plus(values@[start + j]),
{
    let n: usize = values.len();
    let mut out: Vec<T> = Vec::new();
    let mut j: usize = 0;
    while j < row.len()
        invariant
            j <= row@.len(),
            n == values@.len(),
            start + row@.len() <= n,
            out@.len() == j,
            forall|i: int| 0 <= i < j ==> #[trigger] out@[i] == row@[i].plus(values@[start + i]),
        decreases row.len() - j,
    {
        out.push(row[j].add(values[start + j]));
        j = j + 1;
    }
    out
}

/// Summing an index that was not listed yet starts from zero.
proof fn lemma_unlisted<T: Float>(
    indices: Seq<usize>,
    values: Seq<T>,
    slab: int,
    n: int,
    idx: usize,
    j: int,
)
    requires
        0 <= n <= indices.len(),
        !lists(indices, n, idx),
    ensures
        slab_sum(indices, values, slab, n, idx, j) == T::zero_spec(),
    decreases n,
{
    if n > 0 {
        assert(indices[n - 1] != idx);
        assert(!lists(indices, n - 1, idx)) by {
            if lists(indices, n - 1, idx) {
                let k = choose|k: int| 0 <= k < n - 1 && #[trigger] indices[k] == idx;
                assert(indices[k] == idx);
            }
        }
        lemma_unlisted(indices, values, slab, n - 1, idx, j);
    }
}

/// One more slab summed.
proof fn lemma_summed_step<T: Float>(
    indices: Seq<usize>,
    values: Seq<T>,
    slab: int,
    n: int,
    out: Seq<usize>,
    slabs: Seq<Seq<T>>,
    p: int,
    found: bool,
    row: Seq<T>,
)
    requires
        0 <= n < indices.len(),
        summed(indices, values, slab, n, out, slabs),
        0 <= p <= out.len(),
        found ==> p < out.len() && out[p] == indices[n],
        forall|a: int| 0 <= a < p ==> #[trigger] out[a] < indices[n],
        !found ==> forall|a: int| p <= a < out.len() ==> #[trigger] out[a] > indices[n],
        row.len() == slab,
        forall|j: int|
            0 <= j < slab ==> #[trigger] row[j] == (if found {
                slabs[p][j]
            } else {
                T::zero_spec()
            }).plus(values[n * slab + j]),
    ensures
        found ==> summed(indices, values, slab, n + 1, out, slabs.update(p, row)),
        !found ==> summed(
            indices,
            values,
            slab,
            n + 1,
            out.insert(p, indices[n]),
            slabs.insert(p, row),
        ),
{
    let idx = indices[n];
    let out2 = if found {
        out
    } else {
        out.insert(p, idx)
    };
    let slabs2 = if found {
        slabs.update(p, row)
    } else {
        slabs.insert(p, row)
    };
    assert(out2[p] == idx);
    assert(increasing(out2)) by {
        assert forall|a: int, b: int| 0 <= a < b < out2.len() implies #[trigger] out2[a]
            < #[trigger] out2[b] by {
            if !found {
                if a == p {
                    assert(out[b - 1] > idx);
                } else if b == p {
                    assert(out[a] < idx);
                } else {
                    let oa = if a < p {
                        a
                    } else {
                        a - 1
                    };
                    let ob = if b < p {
                        b
                    } else {
                        b - 1
                    };
                    assert(out[oa] < out[ob]);
                }
            }
        }
    }
    assert forall|q: int| 0 <= q < out2.len() implies lists(indices, n + 1, #[trigger] out2[q]) by {
        if q == p {
            assert(indices[n] == out2[q]);
        } else {
            let o = if found || q < p {
                q
            } else {
                q - 1
            };
            assert(lists(indices, n, out[o]));
            let k = choose|k: int| 0 <= k < n && #[trigger] indices[k] == out[o];
            assert(indices[k] == out2[q]);
        }
    }
    assert forall|k: int| 0 <= k < n + 1 implies lists(
        out2,
        out2.len() as int,
        #[trigger] indices[k],
    ) by {
        if k == n {
            assert(out2[p] == indices[k]);
        } else {
            assert(lists(out, out.len() as int, indices[k]));
            let o = choose|o: int| 0 <= o < out.len() && #[trigger] out[o] == indices[k];
            if found || o < p {
                assert(out2[o] == indices[k]);
            } else {
                assert(out2[o + 1] == indices[k]);
            }
        }
    }
    assert forall|q: int, j: int| 0 <= q < out2.len() && 0 <= j < slab implies
        #[trigger] slabs2[q][j] == slab_sum(indices, values, slab, n + 1, out2[q], j) by {
        if q == p {
            if found {
                assert(slabs[p][j] == slab_sum(indices, values, slab, n, idx, j));
            } else {
                assert(!lists(indices, n, idx)) by {
                    if lists(indices, n, idx) {
                        let k = choose|k: int| 0 <= k < n && #[trigger] indices[k] == idx;
                        assert(lists(out, out.len() as int, indices[k]));
                        let o = choose|o: int| 0 <= o < out.len() && #[trigger] out[o] == idx;
                        assert(out[o] == idx);
                    }
                }
                lemma_unlisted(indices, values, slab, n, idx, j);
            }
            assert(row[j] == slabs2[q][j]);
        } else {
            let o = if found || q < p {
                q
            } else {
                q - 1
            };
            assert(slabs[o][j] == slab_sum(indices, values, slab, n, out[o], j));
            assert(out[o] != idx) by {
                if found {
                    if o < p {
                        assert(out[o] < out[p]);
                    } else {
                        assert(out[p] < out[o]);
                    }
                }
            }
        }
    }
    assert forall|q: int| 0 <= q < slabs2.len() implies (#[trigger] slabs2[q]).len() == slab by {
        if q != p {
            let o = if found || q < p {
                q
            } else {
                q - 1
            };
            assert(slabs[o].len() == slab);
        }
    }
}

impl<T: Float> SparseGrad<T> {
    /// As many values as the slabs of all indices have.
    pub open spec fn wf(&self) -> bool {
        &&& shape::prods_fit(self.slab_shape@)
        &&& self.values@.len() == self.indices@.len() * self.slab()
    }

    /// The number of elements of a slab.
    pub open spec fn slab(&self) -> int {
        shape::prod(self.slab_shape@) as int
    }

    /// A gradient of these rows.
    pub fn new(indices: Vec<usize>, values: Vec<T>, slab_shape: Vec<usize>) -> (r: FerrotorchResult<
        Self,
    >)
        requires
            shape::prods_fit(slab_shape@),
        ensures
            if values@.len() == indices@.len() * shape::prod(slab_shape@) {
                r matches Ok(g) && g.wf() && g.indices@ == indices@ && g.values@ == values@
                    && g.slab_shape@ == slab_shape@
            } else {
                r matches Err(e) && e == (FerrotorchError::ShapeMismatch {
                    reason: Reason::SlabCount {
                        values: values@.len() as usize,
                        indices: indices@.len() as usize,
                        slab_size: shape::prod(slab_shape@) as usize,
                    },
                })
            },
    {
        let slab_size: usize = shape::numel(slab_shape.as_slice());
        let fits: bool = if slab_size == 0 {
            values.len() == 0
        } else {
            values.len() % slab_size == 0 && values.len() / slab_size == indices.len()
        };
        proof {
            let v = values@.len() as int;
            let n = indices@.len() as int;
            let s = slab_size as int;
            if s > 0 {
                vstd::arithmetic::div_mod::lemma_fundamental_div_mod(v, s);
                assert(s * n == n * s) by (nonlinear_arith);
                if v == n * s {
                    vstd::arithmetic::div_mod::lemma_fundamental_div_mod_converse(v, s, n, 0);
                }
            } else {
                assert(n * 0 == 0);
            }
            assert(fits == (v == n * s));
        }
        if !fits {
            return Err(
                FerrotorchError::ShapeMismatch {
                    reason: Reason::SlabCount {
                        values: values.len(),
                        indices: indices.len(),
                        slab_size,
                    },
                },
            );
        }
        Ok(SparseGrad { indices, values, slab_shape })
    }

    /// Number of listed rows.
    pub fn nnz(&self) -> (r: usize)
        ensures
            r == self.indices@.len(),
    {
        self.indices.len()
    }

    /// The listed rows.
    pub fn indices(&self) -> (r: &[usize])
        ensures
            r@ == self.indices@,
    {
        self.indices.as_slice()
    }

    /// The values, slab after slab.
    pub fn values(&self) -> (r: &[T])
        ensures
            r@ == self.values@,
    {
        self.values.as_slice()
    }

    /// The shape of a slab.
    pub fn slab_shape(&self) -> (r: &[usize])
        ensures
            r@ == self.slab_shape@,
    {
        self.slab_shape.as_slice()
    }

    /// The number of elements of a slab: one for the empty shape, none for a shape
    /// with a zero.
    pub fn slab_size(&self) -> (r: usize)
        requires
            shape::prods_fit(self.slab_shape@),
        ensures
            r == self.slab(),
    {
        shape::numel(self.slab_shape.as_slice())
    }

    /// Whether the gradient has a sparse layout: always.
    pub fn is_sparse(&self) -> (r: bool)
        ensures
            r,
    {
        true
    }

    /// `r` lists the rows of this gradient, each once, with the sums of their slabs.
    pub open spec fn coalesces_to(&self, r: &SparseGrad<T>) -> bool {
        let n = self.indices@.len() as int;
        &&& r.slab_shape@ == self.slab_shape@
        &&& increasing(r.indices@)
        &&& forall|q: int| 0 <= q < r.indices@.len() ==> lists(self.indices@, n, #[trigger] r.indices@[q])
        &&& forall|k: int|
            0 <= k < n ==> lists(r.indices@, r.indices@.len() as int, #[trigger] self.indices@[k])
        &&& forall|q: int, j: int|
            #![trigger r.values@[q * self.slab() + j]]
            0 <= q < r.indices@.len() && 0 <= j < self.slab() ==> r.values@[q * self.slab() + j]
                == slab_sum(self.indices@, self.values@, self.slab(), n, r.indices@[q], j)
    }

    /// Coalescing keeps a row that one slot lists: its slab is that slot's, added to zero.
    pub proof fn lemma_coalesced_once(&self, r: &SparseGrad<T>, k: int, j: int)
        requires
            self.coalesces_to(r),
            0 <= k < self.indices@.len(),
            0 <= j < self.slab(),
            forall|i: int|
                0 <= i < self.indices@.len() && i != k ==> #[trigger] self.indices@[i]
                    != self.indices@[k],
        ensures
            exists|q: int|
                0 <= q < r.indices@.len() && #[trigger] r.indices@[q] == self.indices@[k]
                    && r.values@[q * self.slab() + j] == T::zero_spec().plus(
                    self.values@[k * self.slab() + j],
                ),
    {
        let n = self.indices@.len() as int;
        assert(lists(r.indices@, r.indices@.len() as int, self.indices@[k]));
        let q = choose|q: int| 0 <= q < r.indices@.len() && #[trigger] r.indices@[q]
            == self.indices@[k];
        lemma_slab_sum_once(self.indices@, self.values@, self.slab(), n, k, j);
        assert(r.values@[q * self.slab() + j] == slab_sum(
            self.indices@,
            self.values@,
            self.slab(),
            n,
            r.indices@[q],
            j,
        ));
    }

    /// Coalescing sums a row that two slots list: the slab of the first added to zero, plus
    /// that of the second.
    pub proof fn lemma_coalesced_twice(&self, r: &SparseGrad<T>, a: int, b: int, j: int)
        requires
            self.coalesces_to(r),
            0 <= a < b < self.indices@.len(),
            self.indices@[a] == self.indices@[b],
            0 <= j < self.slab(),
            forall|i: int|
                0 <= i < self.indices@.len() && i != a && i != b ==> #[trigger] self.indices@[i]
                    != self.indices@[a],
        ensures
            exists|q: int|
                0 <= q < r.indices@.len() && #[trigger] r.indices@[q] == self.indices@[a]
                    && r.values@[q * self.slab() + j] == T::zero_spec().plus(
                    self.values@[a * self.slab() + j],
                ).plus(self.values@[b * self.slab() + j]),
    {
        let n = self.indices@.len() as int;
        assert(lists(r.indices@, r.indices@.len() as int, self.indices@[a]));
        let q = choose|q: int| 0 <= q < r.indices@.len() && #[trigger] r.indices@[q]
            == self.indices@[a];
        lemma_slab_sum_twice(self.indices@, self.values@, self.slab(), n, a, b, j);
        assert(r.values@[q * self.slab() + j] == slab_sum(
            self.indices@,
            self.values@,
            self.slab(),
            n,
            r.indices@[q],
            j,
        ));
    }

    /// Coalescing lists rows of the gradient alone, each once, in increasing order.
    pub proof fn lemma_coalesced_rows(&self, r: &SparseGrad<T>, p: int, q: int)
        requires
            self.coalesces_to(r),
            0 <= p < q < r.indices@.len(),
        ensures
            r.slab_shape@ == self.slab_shape@,
            r.indices@[p] < r.indices@[q],
            exists|k: int|
                0 <= k < self.indices@.len() && #[trigger] self.indices@[k] == r.indices@[p],
    {
        assert(lists(self.indices@, self.indices@.len() as int, r.indices@[p]));
    }

    /// The gradient with every index once, in increasing order.
    pub fn coalesce(&self) -> (r: Self)
        requires
            self.wf(),
        ensures
            r.wf(),
            r.slab_shape@ == self.slab_shape@,
            increasing(r.indices@),
            forall|q: int|
                0 <= q < r.indices@.len() ==> lists(
                    self.indices@,
                    self.indices@.len() as int,
                    #[trigger] r.indices@[q],
                ),
            forall|k: int|
                0 <= k < self.indices@.len() ==> lists(
                    r.indices@,
                    r.indices@.len() as int,
                    #[trigger] self.indices@[k],
                ),
            forall|q: int, j: int|
                #![trigger r.values@[q * self.slab() + j]]
                0 <= q < r.indices@.len() && 0 <= j < self.slab() ==> r.values@[q * self.slab() + j]
                    == slab_sum(
                    self.indices@,
                    self.values@,
                    self.slab(),
                    self.indices@.len() as int,
                    r.indices@[q],
                    j,
                ),
            self.coalesces_to(&r),
    {
        let slab: usize = self.slab_size();
        let total: usize = self.values.len();
        let mut out: Vec<usize> = Vec::new();
        let mut rows: Vec<Vec<T>> = Vec::new();
        let mut k: usize = 0;
        while k < self.indices.len()
            invariant
                k <= self.indices@.len(),
                self.wf(),
                slab == self.slab(),
                total == self.values@.len(),
                summed(
                    self.indices@,
                    self.values@,
                    slab as int,
                    k as int,
                    out@,
                    rows_view(rows@),
                ),
            decreases self.indices.len() - k,
        {
            let idx: usize = self.indices[k];
            let (p, found): (usize, bool) = find_index(&out, idx);
            let ghost before = rows_view(rows@);
            proof {
                assert(k * slab + slab <= total) by (nonlinear_arith)
                    requires
                        k < self.indices@.len(),
                        total == self.indices@.len() * slab,
                        0 <= slab,
                ;
                assert(0 <= k * slab) by (nonlinear_arith);
            }
            let start: usize = k * slab;
            if found {
                proof {
                    assert(before[p as int].len() == slab);
                }
                let row: Vec<T> = row_plus(rows[p].as_slice(), self.values.as_slice(), start);
                let ghost row_view = row@;
                rows.set(p, row);
                proof {
                    lemma_summed_step(
                        self.indices@,
                        self.values@,
                        slab as int,
                        k as int,
                        out@,
                        before,
                        p as int,
                        true,
                        row_view,
                    );
                    assert(rows_view(rows@) =~= before.update(p as int, row_view));
                }
            } else {
                let zeros: Vec<T> = filled(T::zero(), slab);
                let row: Vec<T> = row_plus(zeros.as_slice(), self.values.as_slice(), start);
                let ghost row_view = row@;
                let ghost old_out = out@;
                rows.insert(p, row);
                out.insert(p, idx);
                proof {
                    lemma_summed_step(
                        self.indices@,
                        self.values@,
                        slab as int,
                        k as int,
                        old_out,
                        before,
                        p as int,
                        false,
                        row_view,
                    );
                    assert(rows_view(rows@) =~= before.insert(p as int, row_view));
                }
            }
            k = k + 1;
        }
        let values: Vec<T> = flattened(&rows, slab);
        let r = SparseGrad {
            indices: out,
            values,
            slab_shape: copied(self.slab_shape.as_slice()),
        };
        proof {
            assert forall|q: int, j: int|
                #![trigger r.values@[q * self.slab() + j]]
                0 <= q < r.indices@.len() && 0 <= j < self.slab() implies r.values@[q * self.slab()
                + j] == slab_sum(
                self.indices@,
                self.values@,
                self.slab(),
                self.indices@.len() as int,
                r.indices@[q],
                j,
            ) by {
                assert(rows_view(rows@)[q][j] == rows@[q]@[j]);
            }
        }
        r
    }

    /// Why an update of `param` is refused, if it is.
    pub open spec fn sgd_error(&self, param: &Tensor<T>, e: FerrotorchError) -> bool {
        let sh = param.inner.shape@;
        if sh.len() != 1 + self.slab_shape@.len() || sh.subrange(1, sh.len() as int)
            != self.slab_shape@ {
            e == (FerrotorchError::ShapeMismatch { reason: Reason::ShapesDiffer })
        } else {
            exists|k: int|
                {
                    &&& 0 <= k < self.indices@.len()
                    &&& #[trigger] self.indices@[k] >= sh[0]
                    &&& forall|i: int| 0 <= i < k ==> #[trigger] self.indices@[i] < sh[0]
                    &&& e == (FerrotorchError::InvalidArgument {
                        reason: Reason::LeadingIndex {
                            slot: k as usize,
                            index: self.indices@[k],
                            size: sh[0],
                        },
                    })
                }
        }
    }

    /// The gradient lists rows of `param`.
    pub open spec fn fits(&self, param: &Tensor<T>) -> bool {
        let sh = param.inner.shape@;
        &&& sh.len() == 1 + self.slab_shape@.len()
        &&& sh.subrange(1, sh.len() as int) == self.slab_shape@
        &&& forall|k: int| 0 <= k < self.indices@.len() ==> #[trigger] self.indices@[k] < sh[0]
    }

    /// Whether the gradient lists rows of `param`.
    fn check_fits(&self, param: &Tensor<T>) -> (r: FerrotorchResult<()>)
        requires
            self.wf(),
        ensures
            match r {
                Ok(_) => self.fits(param),
                Err(e) => !self.fits(param) && self.sgd_error(param, e),
            },
    {
        let sh: &[usize] = param.shape();
        if sh.len() == 0 || sh.len() - 1 != self.slab_shape.len() {
            return Err(FerrotorchError::ShapeMismatch { reason: Reason::ShapesDiffer });
        }
        let rest: &[usize] = vstd::slice::slice_subrange(sh, 1, sh.len());
        if !same_shape(rest, self.slab_shape.as_slice()) {
            return Err(FerrotorchError::ShapeMismatch { reason: Reason::ShapesDiffer });
        }
        let leading: usize = sh[0];
        let mut k: usize = 0;
        while k < self.indices.len()
            invariant
                k <= self.indices@.len(),
                sh@ == param.inner.shape@,
                sh@.len() > 0,
                leading == sh@[0],
                sh@.len() == 1 + self.slab_shape@.len(),
                sh@.subrange(1, sh@.len() as int) == self.slab_shape@,
                forall|i: int| 0 <= i < k ==> #[trigger] self.indices@[i] < leading,
            decreases self.indices.len() - k,
        {
            if self.indices[k] >= leading {
                return Err(
                    FerrotorchError::InvalidArgument {
                        reason: Reason::LeadingIndex {
                            slot: k,
                            index: self.indices[k],
                            size: leading,
                        },
                    },
                );
            }
            k = k + 1;
        }
        Ok(())
    }

    /// The elements of a parameter after an update step.
    pub fn updated_data(&self, data: Vec<T>, leading: usize, lr: T) -> (r: Vec<T>)
        requires
            self.wf(),
            self.slab() > 0,
            data@.len() == leading * self.slab(),
            forall|k: int| 0 <= k < self.indices@.len() ==> #[trigger] self.indices@[k] < leading,
        ensures
            r@ == sgd_elements(data@, self.indices@, self.values@, self.slab(), lr),
    {
        let slab: usize = self.slab_size();
        let total: usize = self.values.len();
        let n: usize = data.len();
        let mut out: Vec<T> = data;
        let mut k: usize = 0;
        while k < self.indices.len()
            invariant
                k <= self.indices@.len(),
                self.wf(),
                slab == self.slab(),
                slab > 0,
                total == self.values@.len(),
                n == leading * slab,
                data@.len() == n,
                out@.len() == n,
                forall|i: int| 0 <= i < self.indices@.len() ==> #[trigger] self.indices@[i] < leading,
                forall|p: int|
                    0 <= p < n ==> #[trigger] out@[p] == sgd_cell(
                        data@[p],
                        self.indices@,
                        self.values@,
                        slab as int,
                        lr,
                        k as int,
                        p,
                    ),
            decreases self.indices.len() - k,
        {
            let idx: usize = self.indices[k];
            proof {
                assert(k * slab + slab <= total) by (nonlinear_arith)
                    requires
                        k < self.indices@.len(),
                        total == self.indices@.len() * slab,
                        0 <= slab,
                ;
                assert(0 <= k * slab) by (nonlinear_arith);
                assert(idx * slab + slab <= n) by (nonlinear_arith)
                    requires
                        idx < leading,
                        n == leading * slab,
                        0 <= slab,
                ;
                assert(0 <= idx * slab) by (nonlinear_arith);
            }
            let row: usize = idx * slab;
            let start: usize = k * slab;
            let ghost before = out@;
            let mut j: usize = 0;
            while j < slab
                invariant
                    j <= slab,
                    row == idx * slab,
                    start == k * slab,
                    row + slab <= n,
                    start + slab <= total,
                    total == self.values@.len(),
                    out@.len() == n,
                    before.len() == n,
                    forall|p: int|
                        0 <= p < n ==> #[trigger] out@[p] == if row <= p < row + j {
                            before[p].minus(lr.times(self.values@[start + (p - row)]))
                        } else {
                            before[p]
                        },
                decreases slab - j,
            {
                let new: T = out[row + j].sub(lr.mul(self.values[start + j]));
                out.set(row + j, new);
                j = j + 1;
            }
            proof {
                assert forall|p: int| 0 <= p < n implies #[trigger] out@[p] == sgd_cell(
                    data@[p],
                    self.indices@,
                    self.values@,
                    slab as int,
                    lr,
                    k + 1,
                    p,
                ) by {
                    let q = p / slab as int;
                    let i = p % slab as int;
                    vstd::arithmetic::div_mod::lemma_fundamental_div_mod(p, slab as int);
                    assert(p == q * slab + i && 0 <= i < slab) by (nonlinear_arith)
                        requires
                            p == slab * q + i,
                            i == p % (slab as int),
                            slab > 0,
                    ;
                    if row <= p < row + slab {
                        lemma_matrix_position(idx as int, p - row, slab as int, idx + 1);
                    } else {
                        assert(q != idx);
                    }
                }
            }
            k = k + 1;
        }
        proof {
            assert(out@ =~= sgd_elements(data@, self.indices@, self.values@, self.slab(), lr));
        }
        out
    }

    /// The outcome of an update step that the gradient fits.
    pub open spec fn sgd_outcome(
        &self,
        param: &Tensor<T>,
        before: TensorStorage<T>,
        lr: T,
        ctx: Context,
        after: TensorStorage<T>,
        r: FerrotorchResult<Plan<(), SgdJob<T>>>,
    ) -> bool {
        if self.slab() == 0 {
            r matches Ok(Plan::Ready(_)) && after == before
        } else if before.device is Cuda && ctx.backend {
            &&& after == before
            &&& if self.indices@.len() == 0 {
                r matches Ok(Plan::Ready(_))
            } else {
                match scatter_kernel_spec(T::dtype_spec()) {
                    None => r matches Err(e) && e == (FerrotorchError::NotImplementedOnCuda {
                        op: CudaGap::SparseSgd,
                    }),
                    Some(k) => r matches Ok(Plan::Device(SgdJob::Update(u))) && param.is_source(
                        u.param,
                    ) && u.values@ == self.values@ && u.indices@.len()
                        == self.indices@.len() && (forall|i: int|
                        0 <= i < self.indices@.len() ==> #[trigger] u.indices@[i]
                            == self.indices@[i]) && u.slab_size == self.slab() && u.leading
                        == param.inner.shape@[0] && u.lr == lr && u.kernel == k,
                }
            }
        } else if before.on_host() && param.readable() {
            exists|s: TensorStorage<T>|
                {
                    &&& #[trigger] s.is_cpu_of(
                        sgd_elements(
                            param.logical(),
                            self.indices@,
                            self.values@,
                            self.slab(),
                            lr,
                        ),
                    )
                    &&& match r {
                        Ok(Plan::Ready(_)) => param.update_storage_outcome(
                            before,
                            s,
                            ctx,
                            after,
                            Ok(Plan::Ready(())),
                        ),
                        Ok(Plan::Device(_)) => false,
                        Err(e) => param.update_storage_outcome(before, s, ctx, after, Err(e)),
                    }
                }
        } else {
            &&& after == before
            &&& match r {
                Ok(Plan::Device(SgdJob::Read(j))) => param.data_vec_outcome(
                    ctx,
                    Ok(Plan::Device(j)),
                ),
                Ok(_) => false,
                Err(e) => param.data_vec_outcome(ctx, Err(e)),
            }
        }
    }

    /// Subtracts `lr` times each slab from its row of `param`, whose storage is
    /// `target`: it holds what `param` reads.
    pub fn apply_sgd(
        &self,
        param: &Tensor<T>,
        target: &mut TensorStorage<T>,
        lr: T,
        ctx: Context,
    ) -> (r: FerrotorchResult<Plan<(), SgdJob<T>>>)
        requires
            self.wf(),
            param.wf(),
            param.in_bounds(),
            param.inner.storage.same_contents(old(target)),
        ensures
            if self.fits(param) {
                self.sgd_outcome(param, *old(target), lr, ctx, *final(target), r)
            } else {
                &&& r matches Err(e) && self.sgd_error(param, e)
                &&& *final(target) == *old(target)
            },
    {
        self.check_fits(param)?;
        let slab: usize = self.slab_size();
        if slab == 0 {
            return Ok(Plan::Ready(()));
        }
        let leading: usize = param.shape()[0];
        proof {
            let sh = param.inner.shape@;
            shape::lemma_prod_cons(sh);
            assert(sh.subrange(0, sh.len() as int) =~= sh);
            assert(shape::suffix_prod(sh, 0) == shape::prod(sh));
            assert(leading <= leading * slab) by (nonlinear_arith)
                requires
                    slab >= 1,
                    0 <= leading,
            ;
        }
        if param.is_cuda() && ctx.backend {
            if self.indices.len() == 0 {
                return Ok(Plan::Ready(()));
            }
            return match scatter_kernel(T::dtype()) {
                None => Err(FerrotorchError::NotImplementedOnCuda { op: CudaGap::SparseSgd }),
                Some(kernel) => Ok(
                    Plan::Device(
                        SgdJob::Update(
                            SgdUpdate {
                                param: param.source_in(*param.gpu_handle()?),
                                values: copied(self.values.as_slice()),
                                indices: signed(self.indices.as_slice()),
                                slab_size: slab,
                                leading,
                                lr,
                                kernel,
                            },
                        ),
                    ),
                ),
            };
        }
        match param.data_vec(ctx)? {
            Plan::Device(j) => Ok(Plan::Device(SgdJob::Read(j))),
            Plan::Ready(data) => {
                let new_data: Vec<T> = self.updated_data(data, leading, lr);
                let s: TensorStorage<T> = TensorStorage::cpu(new_data);
                match param.update_storage(target, s, ctx) {
                    Ok(Plan::Ready(_)) => Ok(Plan::Ready(())),
                    Ok(Plan::Device(_)) => {
                        proof {
                            assert(false);
                        }
                        vstd::pervasive::unreached()
                    },
                    Err(e) => Err(e),
                }
            },
        }
    }

    /// After an update step in host memory the parameter reads its elements with `lr`
    /// times each slab subtracted from its row.
    pub proof fn lemma_sgd_is_read(
        &self,
        param: &Tensor<T>,
        before: TensorStorage<T>,
        lr: T,
        ctx: Context,
        after: TensorStorage<T>,
        now: &Tensor<T>,
    )
        requires
            self.wf(),
            self.fits(param),
            param.wf(),
            param.in_bounds(),
            param.readable(),
            param.stands_apart(),
            param.inner.storage.same_contents(&before),
            before.on_host(),
            self.sgd_outcome(param, before, lr, ctx, after, Ok(Plan::Ready(()))),
            now.is_over(param, after),
        ensures
            self.slab() == 0 ==> now.logical() == param.logical(),
            self.slab() != 0 ==> now.logical() == sgd_elements(
                param.logical(),
                self.indices@,
                self.values@,
                self.slab(),
                lr,
            ),
    {
        if self.slab() == 0 {
            assert(now.logical() =~= param.logical());
        } else {
            let elements = sgd_elements(
                param.logical(),
                self.indices@,
                self.values@,
                self.slab(),
                lr,
            );
            let s = choose|s: TensorStorage<T>|
                #[trigger] s.is_cpu_of(elements) && param.update_storage_outcome(
                    before,
                    s,
                    ctx,
                    after,
                    Ok(Plan::Ready(())),
                );
            param.lemma_update_storage_wrote(before, s, ctx, after);
            param.lemma_written_is_read(before, s.elements(), after, now);
        }
    }

    /// After an update step in host memory with no row listed twice, the parameter reads
    /// every listed row less `lr` times its slab, and every other row as before.
    pub proof fn lemma_sgd_rows_are_read(
        &self,
        param: &Tensor<T>,
        before: TensorStorage<T>,
        lr: T,
        ctx: Context,
        after: TensorStorage<T>,
        now: &Tensor<T>,
    )
        requires
            self.wf(),
            self.fits(param),
            param.wf(),
            param.in_bounds(),
            param.readable(),
            param.stands_apart(),
            param.inner.storage.same_contents(&before),
            before.on_host(),
            self.sgd_outcome(param, before, lr, ctx, after, Ok(Plan::Ready(()))),
            now.is_over(param, after),
            distinct(self.indices@, self.indices@.len() as int),
        ensures
            now.logical().len() == param.logical().len(),
            forall|k: int, j: int|
                #![trigger self.values@[k * self.slab() + j]]
                0 <= k < self.indices@.len() && 0 <= j < self.slab() ==> {
                    let p = self.indices@[k] * self.slab() + j;
                    now.logical()[p] == param.logical()[p].minus(
                        lr.times(self.values@[k * self.slab() + j]),
                    )
                },
            forall|i: int, j: int|
                #![trigger now.logical()[i * self.slab() + j]]
                0 <= i < param.inner.shape@[0] && 0 <= j < self.slab() && !lists(
                    self.indices@,
                    self.indices@.len() as int,
                    i as usize,
                ) ==> now.logical()[i * self.slab() + j] == param.logical()[i * self.slab() + j],
    {
        self.lemma_sgd_is_read(param, before, lr, ctx, after, now);
        let data = param.logical();
        let sh = param.inner.shape@;
        shape::lemma_prod_cons(sh);
        assert(data.len() == sh[0] * self.slab());
        assert forall|k: int, j: int|
            #![trigger self.values@[k * self.slab() + j]]
            0 <= k < self.indices@.len() && 0 <= j < self.slab() implies ({
            let p = self.indices@[k] * self.slab() + j;
            now.logical()[p] == data[p].minus(lr.times(self.values@[k * self.slab() + j]))
        }) by {
            lemma_matrix_position(self.indices@[k] as int, j, self.slab(), sh[0] as int);
            lemma_sgd_distinct(data, self.indices@, self.values@, self.slab(), lr, k, j);
        }
        assert forall|i: int, j: int|
            #![trigger now.logical()[i * self.slab() + j]]
            0 <= i < sh[0] && 0 <= j < self.slab() && !lists(
                self.indices@,
                self.indices@.len() as int,
                i as usize,
            ) implies now.logical()[i * self.slab() + j] == data[i * self.slab() + j] by {
            lemma_matrix_position(i, j, self.slab(), sh[0] as int);
            lemma_sgd_untouched(
                data,
                self.indices@,
                self.values@,
                self.slab(),
                lr,
                i * self.slab() + j,
            );
        }
    }
}

/// The rows of equal length one behind the other.
fn flattened<T: Float>(rows: &Vec<Vec<T>>, slab: usize) -> (r: Vec<T>)
    requires
        forall|q: int| 0 <= q < rows@.len() ==> (#[trigger] rows_view(rows@)[q]).len() == slab,
    ensures
        r@.len() == rows@.len() * slab,
        forall|q: int, j: int|
            #![trigger r@[q * slab + j]]
            0 <= q < rows@.len() && 0 <= j < slab ==> r@[q * slab + j] == rows@[q]@[j],
{
    let mut out: Vec<T> = Vec::new();
    let mut q: usize = 0;
    proof {
        assert(0 * slab == 0);
    }
    while q < rows.len()
        invariant
            q <= rows@.len(),
            forall|i: int| 0 <= i < rows@.len() ==> (#[trigger] rows_view(rows@)[i]).len() == slab,
            out@.len() == q * slab,
            forall|i: int, j: int|
                #![trigger out@[i * slab + j]]
                0 <= i < q && 0 <= j < slab ==> out@[i * slab + j] == rows@[i]@[j],
        decreases rows.len() - q,
    {
        proof {
            assert(rows_view(rows@)[q as int].len() == slab);
        }
        let mut row: Vec<T> = copied(rows[q].as_slice());
        let ghost row_view = row@;
        let ghost before = out@;
        out.append(&mut row);
        proof {
            assert(q * slab + slab == (q + 1) * slab) by (nonlinear_arith);
            assert forall|i: int, j: int|
                #![trigger out@[i * slab + j]]
                0 <= i < q + 1 && 0 <= j < slab implies out@[i * slab + j] == rows@[i]@[j] by {
                if i < q {
                    lemma_matrix_position(i, j, slab as int, q as int);
                    assert(before[i * slab + j] == rows@[i]@[j]);
                } else {
                    assert(out@[q * slab + j] == row_view[j]);
                }
            }
        }
        q = q + 1;
    }
    out
}

/// The indices as signed numbers.
fn signed(indices: &[usize]) -> (r: Vec<i64>)
    requires
        forall|k: int| 0 <= k < indices@.len() ==> #[trigger] indices@[k] <= isize::MAX,
    ensures
        r@.len() == indices@.len(),
        forall|k: int| 0 <= k < indices@.len() ==> #[trigger] r@[k] == indices@[k],
{
    let mut out: Vec<i64> = Vec::new();
    let mut k: usize = 0;
    while k < indices.len()
        invariant
            k <= indices@.len(),
            forall|i: int| 0 <= i < indices@.len() ==> #[trigger] indices@[i] <= isize::MAX,
            out@.len() == k,
            forall|i: int| 0 <= i < k ==> #[trigger] out@[i] == indices@[i],
        decreases indices.len() - k,
    {
        out.push(indices[k] as i64);
        k = k + 1;
    }
    out
}

} // verus!
