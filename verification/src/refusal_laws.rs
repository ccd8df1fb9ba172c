//! Which operands are accepted and which are refused, by their shapes and places, and what
//! is handed to a device.

use crate::autograd::{Context, Plan};
use crate::dtype::Float;
use crate::entries::{lemma_merged_entry, lemma_merged_once, merged};
use crate::error::{Axis, FerrotorchError, LayoutFault, Reason};
use crate::layout::{layout_fault, too_wide, valid_layout};
use crate::matmul24::matmul_24_error;
use crate::matrix::parts_fault;
use crate::semi24::SemiStructuredSparseTensor;
use crate::shape;
use crate::sparse_grad::{SgdJob, SparseGrad};
use crate::sparse_tensor::{coordinate_fault, not_matrix, SparseTensor, SpmmJob};
use crate::storage::TensorStorage;
use crate::tensor::{too_small, Tensor};
use crate::tensor_laws::lemma_compressed_entry;
use crate::transfer::grad_mismatch;
use vstd::prelude::*;

verus! {

/// A host tensor can be read in place exactly where it is contiguous and, unless it has
/// no elements, ends within its storage.
pub proof fn lemma_data_accepted<T: Float>(t: &Tensor<T>)
    ensures
        t.data_error() is None <==> t.inner.storage.on_host() && t.contiguous_spec() && (t.count()
            == 0 || t.inner.offset + t.count() <= t.inner.storage.spec_len()),
        t.inner.storage.on_host() ==> (t.readable() <==> !t.contiguous_spec() || t.count() == 0
            || t.inner.offset + t.count() <= t.inner.storage.spec_len()),
{
}

/// A product of a sparse and a dense matrix in host memory is computed exactly where both
/// are matrices and the columns of the one are as many as the rows of the other.
pub proof fn lemma_product_accepted<T: Float>(
    s: &SparseTensor<T>,
    dense: &Tensor<T>,
    ctx: Context,
    r: Result<Plan<Tensor<T>, SpmmJob<T>>, FerrotorchError>,
)
    requires
        dense.wf(),
        dense.inner.storage.on_host(),
        dense.contiguous_spec(),
        dense.inner.offset + dense.count() <= dense.inner.storage.spec_len(),
        s.spmm_outcome(dense, ctx, r),
    ensures
        r is Ok <==> s.shape@.len() == 2 && dense.inner.shape@.len() == 2 && s.shape@[1]
            == dense.inner.shape@[0],
        r is Ok ==> r matches Ok(Plan::Ready(_)),
        s.shape@.len() != 2 ==> r == Err::<Plan<Tensor<T>, SpmmJob<T>>, _>(
            FerrotorchError::InvalidArgument {
                reason: Reason::NotMatrix { ndim: s.shape@.len() as usize },
            },
        ),
        s.shape@.len() == 2 && dense.inner.shape@.len() == 2 && s.shape@[1]
            != dense.inner.shape@[0] ==> r == Err::<Plan<Tensor<T>, SpmmJob<T>>, _>(
            FerrotorchError::ShapeMismatch {
                reason: Reason::InnerSizes { left: s.shape@[1], right: dense.inner.shape@[0] },
            },
        ),
{
}

/// A product with a two-of-four matrix is refused unless both are matrices, the columns of
/// the one are as many as the rows of the other and the columns of the other come in
/// fours.
pub proof fn lemma_matmul_24_accepted<T: Float>(
    a: &Tensor<T>,
    b: &SemiStructuredSparseTensor<T>,
)
    ensures
        matmul_24_error(a, b) is None <==> a.inner.shape@.len() == 2 && b.shape@.len() == 2
            && a.inner.shape@[1] == b.shape@[0] && b.shape@[1] % 4 == 0,
{
}

/// A tensor is compressed unless it tracks gradients, has no axis or its last axis does
/// not come in fours.
pub proof fn lemma_compress_accepted<T: Float>(dense: &Tensor<T>, ctx: Context)
    ensures
        SemiStructuredSparseTensor::compress_error(dense, ctx) is None <==> !(ctx.grad_enabled
            && dense.inner.requires_grad) && dense.inner.shape@.len() > 0
            && dense.inner.shape@.last() % 4 == 0,
{
}

/// A coordinate that is found at fault does not lie within the shape, and the fault names
/// the first index that is too large.
pub proof fn lemma_coordinate_refused(
    i: usize,
    key: Seq<usize>,
    sh: Seq<usize>,
    e: FerrotorchError,
)
    requires
        coordinate_fault(i, key, sh, e),
        sh.len() <= usize::MAX,
    ensures
        !shape::in_shape(key, sh),
        key.len() == sh.len() ==> (e matches FerrotorchError::IndexOutOfBounds {
            index,
            axis,
            size,
        } && axis < sh.len() && index == key[axis as int] && size == sh[axis as int] && index
            >= size),
{
}

/// Pointers and indices that are found at fault are no valid layout.
pub proof fn lemma_layout_refused(
    ptrs: Seq<usize>,
    indices: Seq<usize>,
    nnz: usize,
    bound: usize,
    fault: LayoutFault,
)
    requires
        layout_fault(ptrs, indices, nnz, bound, fault),
    ensures
        !(ptrs.len() > 0 && ptrs[0] == 0 && ptrs[ptrs.len() - 1] == nnz && (forall|i: int, j: int|
            0 <= i <= j < ptrs.len() ==> #[trigger] ptrs[i] <= #[trigger] ptrs[j]) && (forall|
            i: int,
        |
            0 <= i < indices.len() ==> #[trigger] indices[i] < bound)),
        !valid_layout(ptrs, indices, nnz as int, bound as int),
{
    if let LayoutFault::Decreasing { at } = fault {
        assert(ptrs[at + 1] < ptrs[at as int]);
    }
}

/// An update step is refused where the slabs are not the parameter's rows, or an index is
/// no row of it.
pub proof fn lemma_sgd_refused<T: Float>(
    g: &SparseGrad<T>,
    param: &Tensor<T>,
    e: FerrotorchError,
)
    requires
        g.sgd_error(param, e),
    ensures
        !g.fits(param),
        e matches FerrotorchError::InvalidArgument { reason } ==> (reason matches Reason::LeadingIndex {
            slot,
            index,
            size,
        } && slot < g.indices@.len() && index == g.indices@[slot as int] && size
            == param.inner.shape@[0] && index >= size),
{
    assert(g.indices.len() == g.indices@.len());
}

/// What the device gets for an update step: all rows of the gradient with their values,
/// the size of a slab, the rows of the parameter and the rate.
pub proof fn lemma_sgd_on_device<T: Float>(
    g: &SparseGrad<T>,
    param: &Tensor<T>,
    before: TensorStorage<T>,
    lr: T,
    ctx: Context,
    after: TensorStorage<T>,
    job: SgdJob<T>,
    k: int,
)
    requires
        g.wf(),
        g.sgd_outcome(param, before, lr, ctx, after, Ok(Plan::Device(job))),
        before.device is Cuda && ctx.backend,
        0 <= k < g.indices@.len(),
    ensures
        after == before,
        job matches SgdJob::Update(u) && u.lr == lr && u.values@ == g.values@ && u.indices@.len()
            == g.indices@.len() && u.indices@[k] == g.indices@[k] && u.slab_size == shape::prod(
            g.slab_shape@,
        ) && u.leading == param.inner.shape@[0],
{
}

/// What the device gets for a product: arrays compressed by rows in which an entry that
/// alone has its coordinate, and is not zero, stands among those of its row with its
/// column and zero plus its value.
pub proof fn lemma_product_on_device<T: Float>(
    s: &SparseTensor<T>,
    dense: &Tensor<T>,
    ctx: Context,
    job: SpmmJob<T>,
    i: int,
)
    requires
        s.wf(),
        s.spmm_error(dense) is None,
        dense.inner.storage.device is Cuda,
        ctx.backend,
        !dense.needs_gather(),
        s.spmm_outcome(dense, ctx, Ok(Plan::Device(job))),
        0 <= i < s.coords().len(),
        forall|j: int| 0 <= j < s.coords().len() && j != i ==> #[trigger] s.coords()[j]
            != s.coords()[i],
        !T::zero_spec().plus(s.values@[i]).same(T::zero_spec()),
    ensures
        job matches SpmmJob::Multiply { sparse, dense: d, n } && n == dense.inner.shape@[1] && d
            == dense.inner.storage.data->Gpu_0 && exists|e: int|
            {
                &&& sparse.pointers@[s.coords()[i][0] as int] <= e
                &&& e < sparse.pointers@[s.coords()[i][0] + 1]
                &&& #[trigger] sparse.indices@[e] == s.coords()[i][1]
                &&& sparse.values@[e] == T::zero_spec().plus(s.values@[i])
            },
{
    let sparse = job->sparse;
    let ordinal = sparse.ordinal;
    let c = choose|c: SparseTensor<T>|
        #[trigger] merged(s.coords(), s.values@, true, c.coords(), c.values@) && sparse.holds_rows(
            c.coords(),
            c.values@,
            s.shape@[0],
            s.shape@[1],
            ordinal,
        );
    let ks = c.coords();
    lemma_merged_once(s.coords(), s.values@, true, ks, c.values@, i);
    let q = choose|q: int|
        0 <= q < ks.len() && #[trigger] ks[q] == s.coords()[i] && c.values@[q]
            == T::zero_spec().plus(s.values@[i]);
    lemma_rows_in_order(s, ks, c.values@);
    assert(shape::in_shape(s.coords()[i], s.shape@));
    assert(s.coords()[i][0] < s.shape@[0]);
    lemma_compressed_entry(sparse, ks, c.values@, s.shape@[0], s.shape@[1], ordinal, q);
    assert(sparse.indices@[q] == s.coords()[i][1]);
}

proof fn lemma_rows_in_order<T: Float>(s: &SparseTensor<T>, ks: Seq<Seq<usize>>, sums: Seq<T>)
    requires
        s.wf(),
        s.shape@.len() == 2,
        merged(s.coords(), s.values@, true, ks, sums),
    ensures
        forall|i: int, j: int|
            0 <= i <= j < ks.len() ==> #[trigger] ks[i][0] <= #[trigger] ks[j][0],
{
    assert forall|i: int, j: int| 0 <= i <= j < ks.len() implies #[trigger] ks[i][0]
        <= #[trigger] ks[j][0] by {
        if i < j {
            lemma_merged_entry(s.coords(), s.values@, true, ks, sums, i);
            lemma_merged_entry(s.coords(), s.values@, true, ks, sums, j);
            let a = choose|a: int| 0 <= a < s.coords().len() && #[trigger] s.coords()[a] == ks[i];
            let b = choose|b: int| 0 <= b < s.coords().len() && #[trigger] s.coords()[b] == ks[j];
            assert(shape::in_shape(s.coords()[a], s.shape@));
            assert(shape::in_shape(s.coords()[b], s.shape@));
            assert(crate::entries::key_before(ks[i], ks[j]));
            crate::entries::lemma_key_before_first_difference(ks[i], ks[j]);
            let d = choose|d: int|
                0 <= d < ks[i].len() && #[trigger] ks[i][d] < ks[j][d] && forall|e: int|
                    0 <= e < d ==> #[trigger] ks[i][e] == ks[j][e];
            if d > 0 {
                assert(ks[i][0] == ks[j][0]);
            }
        }
    }
}

/// What the errors for a shape say: the number of axes; the number of elements that are
/// asked for and that there are; the region and the length of the buffer; the two element
/// counts of gradients; the number that is too wide.
pub proof fn lemma_refusals_named<T: Float>(
    ndim: usize,
    sh: Seq<usize>,
    storage: TensorStorage<T>,
    offset: usize,
    numel: usize,
    len: usize,
    value: usize,
)
    ensures
        not_matrix(ndim as nat) == (FerrotorchError::InvalidArgument {
            reason: Reason::NotMatrix { ndim },
        }),
        shape::prod(sh) <= usize::MAX && storage.spec_len() <= usize::MAX ==> (too_small(sh, storage)
            matches FerrotorchError::ShapeMismatch { reason } && (reason matches Reason::StorageTooSmall {
            numel: n,
            len: l,
        } && n == shape::prod(sh) && l == storage.spec_len())),
        TensorStorage::<T>::region_error(offset, numel, len as nat) == (
        FerrotorchError::InvalidArgument {
            reason: Reason::RegionBeyondBuffer { offset, count: numel, len },
        }),
        grad_mismatch(numel as nat, len as nat) == (FerrotorchError::ShapeMismatch {
            reason: Reason::NumelMismatch { got: numel, expected: len },
        }),
        too_wide(value) == (FerrotorchError::InvalidArgument {
            reason: Reason::IndexWidth { value },
        }),
{
}

/// Compressed parts that are refused: the pointers are not one more than the rows or
/// columns, or the indices are not as many as the values, or they are no valid layout; and
/// the error names the counts.
pub proof fn lemma_parts_refused(
    ptrs: Seq<usize>,
    indices: Seq<usize>,
    nnz: usize,
    size: usize,
    bound: usize,
    axis: Axis,
    e: FerrotorchError,
)
    requires
        parts_fault(ptrs, indices, nnz as nat, size, bound, axis, e),
        ptrs.len() <= usize::MAX,
        indices.len() <= usize::MAX,
    ensures
        ptrs.len() != size + 1 || indices.len() != nnz || !valid_layout(
            ptrs,
            indices,
            nnz as int,
            bound as int,
        ),
        ptrs.len() != size + 1 ==> e == (FerrotorchError::InvalidArgument {
            reason: Reason::PointerCount { axis, got: ptrs.len() as usize, size },
        }),
        ptrs.len() == size + 1 && indices.len() != nnz ==> e == (FerrotorchError::InvalidArgument {
            reason: Reason::LengthMismatch { left: indices.len() as usize, right: nnz },
        }),
{
    if ptrs.len() == size + 1 && indices.len() == nnz {
        let reason = e->InvalidArgument_reason;
        let fault = reason->fault;
        lemma_layout_refused(ptrs, indices, nnz, bound, fault);
    }
}

} // verus!
