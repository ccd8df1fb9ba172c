//! What is copied or handed over, element by element and entry by entry.

use crate::autograd::{Context, Plan};
use crate::csc::CscTensor;
use crate::device::Device;
use crate::dtype::Float;
use crate::entries::{lemma_merged_once, merged};
use crate::error::FerrotorchError;
use crate::layout::lemma_segment_exists;
use crate::matrix::{is_dense_matrix, moved_matrix, narrowed, CooTensor};
use crate::sparse_tensor::{columns_of, rows_of, CompressedArrays, DenseJob, EntryArrays};
use crate::storage::TensorStorage;
use crate::stride_tricks::{exact_outcome, BackwardJob};
use crate::tensor::Tensor;
use crate::transfer::{all_some, UnpackJob};
use vstd::prelude::*;

verus! {

/// Arrays of entries have the row, the column and the value of every entry.
pub proof fn lemma_entry_arrays<T: Float>(
    a: EntryArrays<T>,
    ks: Seq<Seq<usize>>,
    vals: Seq<T>,
    nrows: usize,
    ncols: usize,
    ordinal: usize,
    e: int,
)
    requires
        a.holds(ks, vals, nrows, ncols, ordinal),
        0 <= e < ks.len(),
    ensures
        a.rows@.len() == ks.len(),
        a.cols@.len() == ks.len(),
        a.rows@[e] == ks[e][0],
        a.cols@[e] == ks[e][1],
        a.values@ == vals,
        a.nrows == nrows && a.ncols == ncols && a.ordinal == ordinal,
{
    assert(rows_of(ks)[e] == ks[e][0]);
    assert(columns_of(ks)[e] == ks[e][1]);
}

/// The entries of a matrix that are handed to a device: one that alone has its row and
/// column, and is not zero, is among them with zero plus its value.
pub proof fn lemma_entries_on_device<T: Float>(
    coo: &CooTensor<T>,
    ordinal: usize,
    a: EntryArrays<T>,
    i: int,
)
    requires
        coo.wf(),
        coo.entry_outcome(ordinal, Ok(a)),
        0 <= i < coo.values@.len(),
        forall|j: int|
            0 <= j < coo.values@.len() && j != i ==> coo.row_indices@[j] != coo.row_indices@[i]
                || #[trigger] coo.col_indices@[j] != coo.col_indices@[i],
        !T::zero_spec().plus(coo.values@[i]).same(T::zero_spec()),
    ensures
        exists|e: int|
            {
                &&& 0 <= e < a.rows@.len()
                &&& #[trigger] a.rows@[e] == coo.row_indices@[i]
                &&& a.cols@[e] == coo.col_indices@[i]
                &&& a.values@[e] == T::zero_spec().plus(coo.values@[i])
            },
{
    let c = choose|c: CooTensor<T>|
        #[trigger] merged(coo.coords(), coo.values@, true, c.coords(), c.values@) && a.holds(
            c.coords(),
            c.values@,
            coo.nrows,
            coo.ncols,
            ordinal,
        );
    let ks = coo.coords();
    assert forall|j: int| 0 <= j < ks.len() && j != i implies #[trigger] ks[j] != ks[i] by {
        assert(ks[j][0] == coo.row_indices@[j] && ks[j][1] == coo.col_indices@[j]);
        assert(ks[i][0] == coo.row_indices@[i] && ks[i][1] == coo.col_indices@[i]);
        assert(coo.row_indices@[j] != coo.row_indices@[i] || coo.col_indices@[j]
            != coo.col_indices@[i]);
    }
    lemma_merged_once(ks, coo.values@, true, c.coords(), c.values@, i);
    let e = choose|q: int|
        0 <= q < c.coords().len() && #[trigger] c.coords()[q] == ks[i] && c.values@[q]
            == T::zero_spec().plus(coo.values@[i]);
    lemma_entry_arrays(a, c.coords(), c.values@, coo.nrows, coo.ncols, ordinal, e);
    assert(a.rows@[e] == coo.row_indices@[i]);
}

/// Pointers and indices in the width of the device: number for number the same, wherever
/// all of them have that width.
pub proof fn lemma_narrowed<T: Float>(
    ptrs: Seq<usize>,
    indices: Seq<usize>,
    values: Seq<T>,
    nrows: usize,
    ncols: usize,
    ordinal: usize,
    r: Result<CompressedArrays<T>, FerrotorchError>,
)
    requires
        narrowed(ptrs, indices, values, nrows, ncols, ordinal, r),
    ensures
        r is Ok <==> (forall|i: int| 0 <= i < ptrs.len() ==> #[trigger] ptrs[i] <= u32::MAX) && (
        forall|i: int| 0 <= i < indices.len() ==> #[trigger] indices[i] <= u32::MAX),
        r matches Ok(a) ==> {
            &&& a.pointers@.len() == ptrs.len()
            &&& a.indices@.len() == indices.len()
            &&& forall|i: int| 0 <= i < ptrs.len() ==> #[trigger] a.pointers@[i] == ptrs[i]
            &&& forall|i: int| 0 <= i < indices.len() ==> #[trigger] a.indices@[i] == indices[i]
            &&& a.values@ == values
            &&& a.nrows == nrows
            &&& a.ncols == ncols
            &&& a.ordinal == ordinal
        },
{
    if r is Ok {
        let a = r->Ok_0;
        assert forall|i: int| 0 <= i < ptrs.len() implies #[trigger] ptrs[i] <= u32::MAX by {
            assert(a.pointers@[i] == ptrs[i]);
        }
        assert forall|i: int| 0 <= i < indices.len() implies #[trigger] indices[i] <= u32::MAX by {
            assert(a.indices@[i] == indices[i]);
        }
    }
}

/// A matrix compressed by columns that is handed to a device: an entry that alone has its
/// row and column is among those of its column with its row and zero plus its value.
pub proof fn lemma_columns_on_device<T: Float>(
    csc: &CscTensor<T>,
    ordinal: usize,
    a: CompressedArrays<T>,
    i: int,
)
    requires
        csc.wf(),
        csc.expand_outcome(ordinal, Ok(a)),
        0 <= i < csc.values@.len(),
        forall|j: int|
            0 <= j < csc.values@.len() && j != i ==> csc.entry_cols()[j] != csc.entry_cols()[i]
                || #[trigger] csc.row_indices@[j] != csc.row_indices@[i],
    ensures
        exists|e: int|
            {
                &&& a.pointers@[csc.entry_cols()[i] as int] <= e
                &&& e < a.pointers@[csc.entry_cols()[i] + 1]
                &&& #[trigger] a.indices@[e] == csc.row_indices@[i]
                &&& a.values@[e] == T::zero_spec().plus(csc.values@[i])
            },
{
    let c = choose|c: CscTensor<T>|
        #[trigger] merged(csc.column_keys(), csc.values@, false, c.column_keys(), c.values@)
            && c.wf() && c.ncols == csc.ncols && narrowed(
            c.col_ptrs@,
            c.row_indices@,
            c.values@,
            csc.nrows,
            csc.ncols,
            ordinal,
            Ok(a),
        );
    let ks = csc.column_keys();
    let out = c.column_keys();
    assert forall|j: int| 0 <= j < ks.len() && j != i implies #[trigger] ks[j] != ks[i] by {
        assert(ks[j][0] == csc.entry_cols()[j] && ks[j][1] == csc.row_indices@[j]);
        assert(ks[i][0] == csc.entry_cols()[i] && ks[i][1] == csc.row_indices@[i]);
        assert(csc.entry_cols()[j] != csc.entry_cols()[i] || csc.row_indices@[j]
            != csc.row_indices@[i]);
    }
    lemma_merged_once(ks, csc.values@, false, out, c.values@, i);
    let e = choose|q: int|
        0 <= q < out.len() && #[trigger] out[q] == ks[i] && c.values@[q] == T::zero_spec().plus(
            csc.values@[i],
        );
    assert(out[e][0] == c.entry_cols()[e] && out[e][1] == c.row_indices@[e]);
    assert(ks[i][0] == csc.entry_cols()[i] && ks[i][1] == csc.row_indices@[i]);
    lemma_segment_exists(c.col_ptrs@, e);
    assert(a.indices@[e] == csc.row_indices@[i]);
}

/// A matrix whose dense form stays on the host is that dense form.
pub proof fn lemma_dense_on_host<T: Float>(
    ks: Seq<Seq<usize>>,
    vals: Seq<T>,
    m: usize,
    n: usize,
    ctx: Context,
    r: Result<Plan<Tensor<T>, DenseJob<T>>, FerrotorchError>,
)
    requires
        moved_matrix(ks, vals, m, n, Device::Cpu, ctx, r),
    ensures
        r matches Ok(Plan::Ready(t)) && is_dense_matrix(t, ks, vals, m, n, ctx.fresh),
{
}

/// A copy of a host storage has its elements and its device.
pub proof fn lemma_cloned_elements<T: Float>(
    s: &TensorStorage<T>,
    ctx: Context,
    r: TensorStorage<T>,
)
    requires
        s.on_host(),
        s.cloned_as(ctx, Ok(Plan::Ready(r))),
    ensures
        r.on_host(),
        r.elements() == s.elements(),
        r.device == s.device,
{
}

/// A copy of the elements of a host tensor has them in row-major order.
pub proof fn lemma_copied_out<T: Float>(t: &Tensor<T>, ctx: Context, s: TensorStorage<T>)
    requires
        t.wf(),
        t.inner.storage.on_host(),
        t.elements_copy_outcome(ctx, Ok(Plan::<TensorStorage<T>, UnpackJob>::Ready(s))),
    ensures
        s.on_host(),
        s.elements() == t.logical(),
{
    if t.contiguous_spec() {
        assert(t.count() as usize == t.count()) by {
            let sh = t.inner.shape@;
            assert(sh.take(sh.len() as int) =~= sh);
            assert(crate::shape::prod(sh.take(sh.len() as int)) <= usize::MAX);
        }
        t.lemma_contiguous_run();
        assert(s.elements() =~= t.logical());
    }
}

/// The contiguous form of a host tensor has its shape and its elements.
pub proof fn lemma_exact_elements<T: Float>(t: &Tensor<T>, ctx: Context, x: Tensor<T>)
    requires
        t.wf(),
        t.inner.storage.on_host(),
        exact_outcome(t, ctx, Ok(Plan::<Tensor<T>, BackwardJob>::Ready(x))),
    ensures
        x.inner.shape@ == t.inner.shape@,
        x.logical() == t.logical(),
{
    if t.needs_gather() {
        x.lemma_dense();
        assert(x.logical() =~= t.logical());
    }
}

/// The values of a list of options that are all there, one for one.
pub proof fn lemma_all_some<U>(s: Seq<Option<U>>, i: int)
    requires
        0 <= i < s.len(),
        s[i] is Some,
    ensures
        all_some(s).len() == s.len(),
        s[i] == Some(all_some(s)[i]),
{
}

} // verus!
