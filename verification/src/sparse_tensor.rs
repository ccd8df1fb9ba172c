//! Sparse tensors of any rank: a list of coordinates and values.

use crate::autograd::{Context, Plan, TensorId};
use crate::device::{Device, GpuBufferHandle};
use crate::dtype::{is_nan_spec, is_zero, is_zero_spec, Float};
use crate::entries::{
    has_key, key_before, key_sum, keys, lemma_merged_len, lemma_merged_unique, merge_entries, merged,
    sorted_keys,
};
use crate::error::{CudaGap, FerrotorchError, FerrotorchResult, Reason};
use crate::layout::{
    bucket_starts, count_lt, first_too_wide, lemma_count_bounds, same_numbers, to_u32_checked,
    to_u32_vec_checked, too_wide,
};
use crate::scatter::{cell_sum, copied, filled, scatter_add};
use crate::shape;
use crate::storage::TensorStorage;
use crate::stride_tricks::same_shape;
use crate::tensor::{GradFn, Tensor};
use crate::transfer::{StridedCopy, TransferJob};
use crate::update::{scatter_kernel, scatter_kernel_spec};
use vstd::prelude::*;

verus! {

/// A sparse tensor as a list of coordinates and values. A coordinate may occur more
/// than once: the values at a coordinate are summed.
#[derive(Debug)]
pub struct SparseTensor<T: Float> {
    pub indices: Vec<Vec<usize>>,
    pub values: Vec<T>,
    pub shape: Vec<usize>,
    pub nnz: usize,
}

/// A copy of a list of coordinates.
pub fn copied_indices(indices: &Vec<Vec<usize>>) -> (r: Vec<Vec<usize>>)
    ensures
        r@.len() == indices@.len(),
        keys(r@) == keys(indices@),
{
    let mut out: Vec<Vec<usize>> = Vec::new();
    let mut i: usize = 0;
    while i < indices.len()
        invariant
            i <= indices@.len(),
            out@.len() == i,
            forall|j: int| 0 <= j < i ==> (#[trigger] out@[j])@ == indices@[j]@,
        decreases indices.len() - i,
    {
        out.push(copied(indices[i].as_slice()));
        i = i + 1;
    }
    proof {
        assert(keys(out@) =~= keys(indices@));
    }
    out
}

/// The row-major positions of a list of coordinates.
pub open spec fn flat_positions(ks: Seq<Seq<usize>>, sh: Seq<usize>) -> Seq<usize> {
    Seq::new(ks.len(), |i: int| shape::ravel(ks[i], sh) as usize)
}

/// The elements of the dense tensor that a list of entries stands for.
pub open spec fn dense_elements<T: Float>(
    ks: Seq<Seq<usize>>,
    vals: Seq<T>,
    sh: Seq<usize>,
) -> Seq<T> {
    Seq::new(
        shape::prod(sh),
        |p: int| cell_sum(T::zero_spec(), flat_positions(ks, sh), vals, ks.len() as int, p),
    )
}

/// The coordinates of a list all lie within a shape.
pub open spec fn all_in_shape(ks: Seq<Seq<usize>>, sh: Seq<usize>) -> bool {
    forall|i: int| 0 <= i < ks.len() ==> shape::in_shape(#[trigger] ks[i], sh)
}

/// The element of the dense tensor at a coordinate is the sum of the values there.
pub proof fn lemma_dense_is_key_sum<T: Float>(
    ks: Seq<Seq<usize>>,
    vals: Seq<T>,
    sh: Seq<usize>,
    key: Seq<usize>,
    n: int,
)
    requires
        all_in_shape(ks, sh),
        shape::in_shape(key, sh),
        shape::prod(sh) <= usize::MAX,
        0 <= n <= ks.len(),
    ensures
        cell_sum(T::zero_spec(), flat_positions(ks, sh), vals, n, shape::ravel(key, sh))
            == key_sum(ks, vals, n, key),
    decreases n,
{
    if n > 0 {
        lemma_dense_is_key_sum(ks, vals, sh, key, n - 1);
        let k = ks[n - 1];
        assert(shape::in_shape(k, sh));
        shape::lemma_ravel_bound(k, sh);
        shape::lemma_ravel_bound(key, sh);
        shape::lemma_ravel_unravel(k, sh);
        shape::lemma_ravel_unravel(key, sh);
    }
}

/// Merging keeps what a list stands for: at each coordinate the merged list gives
/// zero where the sum compares equal to zero or nothing is stored, and else zero plus
/// the sum.
pub proof fn lemma_merge_keeps_dense<T: Float>(
    ks: Seq<Seq<usize>>,
    vals: Seq<T>,
    sh: Seq<usize>,
    out: Seq<Seq<usize>>,
    sums: Seq<T>,
    key: Seq<usize>,
)
    requires
        all_in_shape(ks, sh),
        merged(ks, vals, true, out, sums),
        shape::in_shape(key, sh),
        shape::prod(sh) <= usize::MAX,
    ensures
        ({
            let p = shape::ravel(key, sh);
            let total = dense_elements(ks, vals, sh)[p];
            dense_elements(out, sums, sh)[p] == if has_key(ks, ks.len() as int, key)
                && !is_zero_spec(total) {
                T::zero_spec().plus(total)
            } else {
                T::zero_spec()
            }
        }),
{
    let n = ks.len() as int;
    let m = out.len() as int;
    assert(all_in_shape(out, sh)) by {
        assert forall|i: int| 0 <= i < out.len() implies shape::in_shape(#[trigger] out[i], sh) by {
            assert(has_key(ks, n, out[i]));
            let j = choose|j: int| 0 <= j < n && #[trigger] ks[j] == out[i];
            assert(shape::in_shape(ks[j], sh));
        }
    }
    shape::lemma_ravel_bound(key, sh);
    lemma_dense_is_key_sum(ks, vals, sh, key, n);
    lemma_dense_is_key_sum(out, sums, sh, key, m);
    if has_key(out, m, key) {
        let i = choose|i: int| 0 <= i < m && #[trigger] out[i] == key;
        assert(has_key(ks, n, out[i]));
        lemma_single_key(out, sums, m, i);
    } else {
        lemma_absent_key(out, sums, m, key);
    }
}

/// In a strictly increasing list the sum at a key is zero plus its one value.
proof fn lemma_single_key<T: Float>(out: Seq<Seq<usize>>, sums: Seq<T>, n: int, i: int)
    requires
        sorted_keys(out),
        0 <= i < n <= out.len(),
    ensures
        key_sum(out, sums, n, out[i]) == T::zero_spec().plus(sums[i]),
    decreases n,
{
    if i == n - 1 {
        assert forall|j: int| 0 <= j < n - 1 implies #[trigger] out[j] != out[i] by {
            assert(key_before(out[j], out[i]));
            crate::entries::lemma_order_total(out[j], out[i]);
        }
        lemma_absent_key(out, sums, n - 1, out[i]);
    } else {
        assert(key_before(out[i], out[n - 1]));
        crate::entries::lemma_order_total(out[i], out[n - 1]);
        lemma_single_key(out, sums, n - 1, i);
    }
}

proof fn lemma_absent_key<T: Float>(out: Seq<Seq<usize>>, sums: Seq<T>, n: int, key: Seq<usize>)
    requires
        forall|j: int| 0 <= j < n ==> #[trigger] out[j] != key,
    ensures
        key_sum(out, sums, n, key) == T::zero_spec(),
    decreases n,
{
    if n > 0 {
        assert(out[n - 1] != key);
        lemma_absent_key(out, sums, n - 1, key);
    }
}

/// The row-major position of a coordinate.
fn flat_position(idx: &[usize], sh: &[usize]) -> (r: usize)
    requires
        shape::in_shape(idx@, sh@),
        shape::prods_fit(sh@),
    ensures
        r == shape::ravel(idx@, sh@),
        r < shape::prod(sh@),
{
    let mut flat: usize = 0;
    let mut d: usize = 0;
    while d < sh.len()
        invariant
            d <= sh@.len(),
            shape::in_shape(idx@, sh@),
            shape::prods_fit(sh@),
            flat == shape::ravel(idx@.take(d as int), sh@.take(d as int)),
        decreases sh.len() - d,
    {
        proof {
            let i = idx@.take(d + 1);
            let s = sh@.take(d + 1);
            assert(i.drop_last() =~= idx@.take(d as int));
            assert(s.drop_last() =~= sh@.take(d as int));
            assert forall|e: int| 0 <= e < s.len() implies #[trigger] i[e] < s[e] by {
                assert(idx@[e] < sh@[e]);
            }
            shape::lemma_ravel_bound(i, s);
            assert(shape::prod(s) <= usize::MAX);
            assert(0 <= flat * sh@[d as int]) by (nonlinear_arith)
                requires
                    0 <= flat,
            ;
        }
        flat = flat * sh[d] + idx[d];
        d = d + 1;
    }
    proof {
        assert(idx@.take(d as int) =~= idx@);
        assert(sh@.take(d as int) =~= sh@);
        shape::lemma_ravel_bound(idx@, sh@);
    }
    flat
}

/// The row-major coordinate at a position.
fn coordinate_at(k: usize, sh: &[usize]) -> (r: Vec<usize>)
    requires
        k < shape::prod(sh@),
    ensures
        r@ == shape::unravel(k as int, sh@),
{
    let n: usize = sh.len();
    let mut coord: Vec<usize> = filled(0usize, n);
    let mut rest: usize = k;
    let mut d: usize = n;
    let ghost full = shape::unravel(k as int, sh@);
    proof {
        shape::lemma_unravel_ravel(k as int, sh@);
        shape::lemma_in_shape_positive(full, sh@);
        assert(sh@.take(n as int) =~= sh@);
        assert(full.take(n as int) =~= full);
    }
    while d > 0
        invariant
            d <= n,
            n == sh@.len(),
            full.len() == n,
            coord@.len() == n,
            forall|e: int| 0 <= e < n ==> #[trigger] sh@[e] > 0,
            shape::unravel(rest as int, sh@.take(d as int)) == full.take(d as int),
            forall|e: int| d <= e < n ==> #[trigger] coord@[e] == full[e],
        decreases d,
    {
        proof {
            let s = sh@.take(d as int);
            assert(s.last() == sh@[d - 1]);
            assert(s.drop_last() =~= sh@.take(d - 1));
            let u = shape::unravel(rest as int, s);
            assert(u.last() == full[d - 1]);
            assert(u.drop_last() =~= full.take(d - 1));
            assert(sh@[d - 1] > 0);
            let m = sh@[d - 1] as int;
            assert(u.drop_last() =~= shape::unravel(rest as int / m, s.drop_last()));
            assert(0 <= rest as int % m < m);
        }
        d = d - 1;
        coord.set(d, rest % sh[d]);
        rest = rest / sh[d];
    }
    proof {
        assert(coord@ =~= full);
    }
    coord
}

/// A matrix in compressed-row form with 32-bit indices, for the sparse backend.
#[derive(Debug)]
pub struct CompressedArrays<T> {
    pub pointers: Vec<u32>,
    pub indices: Vec<u32>,
    pub values: Vec<T>,
    pub ordinal: usize,
    pub nrows: usize,
    pub ncols: usize,
}

/// The rows of a list of matrix coordinates.
pub open spec fn rows_of(ks: Seq<Seq<usize>>) -> Seq<usize> {
    Seq::new(ks.len(), |i: int| ks[i][0])
}

/// The columns of a list of matrix coordinates.
pub open spec fn columns_of(ks: Seq<Seq<usize>>) -> Seq<usize> {
    Seq::new(ks.len(), |i: int| ks[i][1])
}

impl<T> CompressedArrays<T> {
    /// The compressed-row form of a list of entries that is sorted by row.
    pub open spec fn holds_rows(
        &self,
        ks: Seq<Seq<usize>>,
        vals: Seq<T>,
        nrows: usize,
        ncols: usize,
        ordinal: usize,
    ) -> bool {
        &&& self.nrows == nrows
        &&& self.ncols == ncols
        &&& self.ordinal == ordinal
        &&& self.values@ == vals
        &&& same_numbers(self.indices@, columns_of(ks))
        &&& self.pointers@.len() == nrows + 1
        &&& forall|r: int|
            0 <= r <= nrows ==> #[trigger] self.pointers@[r] == count_lt(
                rows_of(ks),
                ks.len() as int,
                r,
            )
    }
}

/// The entries of a matrix with 32-bit indices, for the sparse backend.
#[derive(Debug)]
pub struct EntryArrays<T> {
    pub rows: Vec<u32>,
    pub cols: Vec<u32>,
    pub values: Vec<T>,
    pub ordinal: usize,
    pub nrows: usize,
    pub ncols: usize,
}

impl<T> EntryArrays<T> {
    /// The arrays hold these entries.
    pub open spec fn holds(
        &self,
        ks: Seq<Seq<usize>>,
        vals: Seq<T>,
        nrows: usize,
        ncols: usize,
        ordinal: usize,
    ) -> bool {
        &&& same_numbers(self.rows@, rows_of(ks))
        &&& same_numbers(self.cols@, columns_of(ks))
        &&& self.values@ == vals
        &&& self.nrows == nrows
        &&& self.ncols == ncols
        &&& self.ordinal == ordinal
    }
}

/// What has to be done to make a sparse matrix dense on a device.
#[derive(Debug)]
pub enum DenseJob<T> {
    /// Expand the compressed-row form on the CUDA device.
    Expand(CompressedArrays<T>),
    /// Compress the entries by rows on the CUDA device, then expand them.
    ExpandEntries(EntryArrays<T>),
    /// Expand the compressed-column form on the CUDA device.
    ExpandColumns(CompressedArrays<T>),
    /// Move the dense host tensor.
    Move(TransferJob<T>),
}

/// What has to be done to multiply a sparse matrix by a CUDA matrix.
#[derive(Debug)]
pub enum SpmmJob<T> {
    /// Gather the elements of the dense matrix on their device, then multiply by the
    /// matrix that [`Tensor::packed`] makes of them.
    MakeContiguous(StridedCopy),
    /// Multiply on the CUDA device by the matrix in this buffer, which has `n` columns.
    Multiply { sparse: CompressedArrays<T>, dense: GpuBufferHandle, n: usize },
}

/// What has to be done to extract the entries of a CUDA matrix.
#[derive(Debug)]
pub enum ExtractJob {
    /// Gather the elements on their device, then extract the entries of the matrix that
    /// [`Tensor::packed`] makes of them.
    MakeContiguous(StridedCopy),
    /// Extract the compressed-row form of the `m` by `n` matrix in this buffer.
    Extract { dense: GpuBufferHandle, m: usize, n: usize },
}

/// The gradient of a sparse-dense product.
#[derive(Debug)]
pub struct SpmmBackward<T: Float> {
    pub sparse_t: SparseTensor<T>,
    pub dense: Tensor<T>,
}

/// The positions below `n` whose elements exceed the threshold in magnitude.
pub open spec fn kept_positions<T: Float>(data: Seq<T>, threshold: T, n: int) -> Seq<int>
    decreases n,
{
    if n <= 0 {
        Seq::empty()
    } else if threshold.below(data[n - 1].magnitude()) {
        kept_positions(data, threshold, n - 1).push(n - 1)
    } else {
        kept_positions(data, threshold, n - 1)
    }
}

/// Element `(i, col)` of the product of the first `n` entries with a dense matrix of
/// `width` columns.
pub open spec fn spmm_cell<T: Float>(
    ks: Seq<Seq<usize>>,
    vals: Seq<T>,
    dense: Seq<T>,
    width: int,
    n: int,
    i: int,
    col: int,
) -> T
    decreases n,
{
    if n <= 0 {
        T::zero_spec()
    } else {
        let before = spmm_cell(ks, vals, dense, width, n - 1, i, col);
        if ks[n - 1][0] == i {
            before.plus(vals[n - 1].times(dense[ks[n - 1][1] * width + col]))
        } else {
            before
        }
    }
}

/// The product of a list of matrix entries with a dense matrix, in row-major order.
pub open spec fn spmm_elements<T: Float>(
    ks: Seq<Seq<usize>>,
    vals: Seq<T>,
    dense: Seq<T>,
    m: int,
    width: int,
) -> Seq<T> {
    Seq::new(
        (m * width) as nat,
        |p: int| spmm_cell(ks, vals, dense, width, ks.len() as int, p / width, p % width),
    )
}

impl<T: Float> SparseTensor<T> {
    /// As many coordinates as values, all within the shape.
    pub open spec fn wf(&self) -> bool {
        &&& self.indices@.len() == self.values@.len()
        &&& self.nnz == self.values@.len()
        &&& all_in_shape(keys(self.indices@), self.shape@)
    }

    /// The coordinates.
    pub open spec fn coords(&self) -> Seq<Seq<usize>> {
        keys(self.indices@)
    }

    /// The tensor holds these entries.
    pub open spec fn holds(&self, ks: Seq<Seq<usize>>, vals: Seq<T>, sh: Seq<usize>) -> bool {
        &&& self.coords() == ks
        &&& self.values@ == vals
        &&& self.shape@ == sh
        &&& self.nnz == vals.len()
    }

    /// A sparse tensor of these entries.
    pub fn new(indices: Vec<Vec<usize>>, values: Vec<T>, sh: Vec<usize>) -> (r: FerrotorchResult<
        Self,
    >)
        ensures
            match r {
                Ok(t) => t.wf() && t.holds(keys(indices@), values@, sh@),
                Err(e) => if indices@.len() != values@.len() {
                    e == (FerrotorchError::InvalidArgument {
                        reason: Reason::LengthMismatch {
                            left: indices@.len() as usize,
                            right: values@.len() as usize,
                        },
                    })
                } else {
                    exists|i: int|
                        {
                            &&& 0 <= i < indices@.len()
                            &&& forall|j: int|
                                0 <= j < i ==> shape::in_shape(#[trigger] keys(indices@)[j], sh@)
                            &&& #[trigger] coordinate_fault(i as usize, keys(indices@)[i], sh@, e)
                        }
                },
            },
    {
        if indices.len() != values.len() {
            return Err(
                FerrotorchError::InvalidArgument {
                    reason: Reason::LengthMismatch { left: indices.len(), right: values.len() },
                },
            );
        }
        let ghost ks = keys(indices@);
        let n: usize = sh.len();
        let mut i: usize = 0;
        while i < indices.len()
            invariant
                i <= indices@.len(),
                n == sh@.len(),
                ks == keys(indices@),
                indices@.len() == values@.len(),
                forall|j: int| 0 <= j < i ==> shape::in_shape(#[trigger] ks[j], sh@),
            decreases indices.len() - i,
        {
            let idx: &Vec<usize> = &indices[i];
            proof {
                assert(ks[i as int] == idx@);
            }
            if idx.len() != n {
                let e = FerrotorchError::InvalidArgument {
                    reason: Reason::IndexRank { entry: i, got: idx.len(), expected: n },
                };
                proof {
                    let w = i as int;
                    assert(coordinate_fault(w as usize, keys(indices@)[w], sh@, e));
                }
                return Err(e);
            }
            let mut axis: usize = 0;
            while axis < n
                invariant
                    axis <= n,
                    n == sh@.len(),
                    i < indices@.len(),
                    indices@.len() == values@.len(),
                    ks == keys(indices@),
                    idx@ == ks[i as int],
                    idx@.len() == n,
                    forall|j: int| 0 <= j < i ==> shape::in_shape(#[trigger] ks[j], sh@),
                    forall|d: int| 0 <= d < axis ==> #[trigger] idx@[d] < sh@[d],
                decreases n - axis,
            {
                if idx[axis] >= sh[axis] {
                    let e = FerrotorchError::IndexOutOfBounds {
                        index: idx[axis],
                        axis,
                        size: sh[axis],
                    };
                    proof {
                        assert(ks[i as int][axis as int] >= sh@[axis as int]);
                        let w = i as int;
                        assert(coordinate_fault(w as usize, keys(indices@)[w], sh@, e));
                    }
                    return Err(e);
                }
                axis = axis + 1;
            }
            i = i + 1;
        }
        let nnz: usize = values.len();
        Ok(SparseTensor { indices, values, shape: sh, nnz })
    }

    /// Number of stored entries.
    pub fn nnz(&self) -> (r: usize)
        ensures
            r == self.nnz,
    {
        self.nnz
    }

    /// The shape of the dense tensor.
    pub fn shape(&self) -> (r: &[usize])
        ensures
            r@ == self.shape@,
    {
        self.shape.as_slice()
    }

    /// Number of dimensions.
    pub fn ndim(&self) -> (r: usize)
        ensures
            r == self.shape@.len(),
    {
        self.shape.len()
    }

    /// The stored values.
    pub fn values(&self) -> (r: &[T])
        ensures
            r@ == self.values@,
    {
        self.values.as_slice()
    }

    /// The coordinates of the stored entries.
    pub fn indices(&self) -> (r: &[Vec<usize>])
        ensures
            r@ == self.indices@,
    {
        self.indices.as_slice()
    }

    /// `r` has the entries of this tensor with their values times a scalar.
    pub open spec fn is_scaled(&self, scalar: T, r: &SparseTensor<T>) -> bool {
        &&& r.shape@ == self.shape@
        &&& r.coords() == self.coords()
        &&& r.values@.len() == self.values@.len()
        &&& forall|i: int|
            0 <= i < self.values@.len() ==> #[trigger] r.values@[i] == self.values@[i].times(scalar)
    }

    /// Every stored value times a scalar.
    pub fn mul_scalar(&self, scalar: T) -> (r: Self)
        requires
            self.wf(),
        ensures
            r.wf(),
            r.holds(
                self.coords(),
                Seq::new(self.values@.len(), |i: int| self.values@[i].times(scalar)),
                self.shape@,
            ),
            self.is_scaled(scalar, &r),
    {
        let mut out: Vec<T> = Vec::new();
        let mut i: usize = 0;
        while i < self.values.len()
            invariant
                i <= self.values@.len(),
                out@.len() == i,
                forall|j: int| 0 <= j < i ==> #[trigger] out@[j] == self.values@[j].times(scalar),
            decreases self.values.len() - i,
        {
            out.push(self.values[i].mul(scalar));
            i = i + 1;
        }
        proof {
            assert(out@ =~= Seq::new(
                self.values@.len(),
                |j: int| self.values@[j].times(scalar),
            ));
        }
        SparseTensor {
            indices: copied_indices(&self.indices),
            values: out,
            shape: copied(self.shape.as_slice()),
            nnz: self.nnz,
        }
    }

    /// The sum of two sparse tensors of the same shape: the entries of both, those of
    /// the first in front.
    pub fn add(&self, other: &SparseTensor<T>) -> (r: FerrotorchResult<SparseTensor<T>>)
        requires
            self.wf(),
            other.wf(),
        ensures
            match r {
                Ok(t) => {
                    &&& self.shape@ == other.shape@
                    &&& t.wf()
                    &&& t.holds(
                        self.coords() + other.coords(),
                        self.values@ + other.values@,
                        self.shape@,
                    )
                },
                Err(e) => self.shape@ != other.shape@ && e == (FerrotorchError::ShapeMismatch {
                    reason: Reason::ShapesDiffer,
                }),
            },
    {
        if !same_shape(self.shape.as_slice(), other.shape.as_slice()) {
            return Err(FerrotorchError::ShapeMismatch { reason: Reason::ShapesDiffer });
        }
        let mut indices: Vec<Vec<usize>> = copied_indices(&self.indices);
        let mut more: Vec<Vec<usize>> = copied_indices(&other.indices);
        let ghost first = keys(indices@);
        let ghost second = keys(more@);
        indices.append(&mut more);
        let mut values: Vec<T> = copied(self.values.as_slice());
        let mut more_values: Vec<T> = copied(other.values.as_slice());
        values.append(&mut more_values);
        let nnz: usize = values.len();
        let t = SparseTensor { indices, values, shape: copied(self.shape.as_slice()), nnz };
        proof {
            assert(t.coords() =~= first + second);
            assert forall|i: int| 0 <= i < t.coords().len() implies shape::in_shape(
                #[trigger] t.coords()[i],
                t.shape@,
            ) by {
                if i < first.len() {
                    assert(shape::in_shape(self.coords()[i], self.shape@));
                } else {
                    assert(shape::in_shape(other.coords()[i - first.len()], other.shape@));
                }
            }
        }
        Ok(t)
    }

    /// The canonical form: every coordinate at most once, in lexicographic order,
    /// without entries whose sum compares equal to zero.
    pub fn coalesce(&self) -> (r: SparseTensor<T>)
        requires
            self.wf(),
        ensures
            r.wf(),
            r.shape@ == self.shape@,
            merged(self.coords(), self.values@, true, r.coords(), r.values@),
            r.nnz <= self.nnz,
    {
        let (indices, values): (Vec<Vec<usize>>, Vec<T>) = merge_entries(
            &self.indices,
            &self.values,
            true,
        );
        let nnz: usize = values.len();
        let t = SparseTensor { indices, values, shape: copied(self.shape.as_slice()), nnz };
        proof {
            let n = self.coords().len() as int;
            assert forall|i: int| 0 <= i < t.coords().len() implies shape::in_shape(
                #[trigger] t.coords()[i],
                t.shape@,
            ) by {
                assert(has_key(self.coords(), n, t.coords()[i]));
                let j = choose|j: int|
                    0 <= j < n && #[trigger] self.coords()[j] == t.coords()[i];
                assert(shape::in_shape(self.coords()[j], self.shape@));
            }
            lemma_merged_len(self.coords(), self.values@, true, t.coords(), t.values@);
        }
        t
    }

    /// The transpose of a matrix.
    pub fn t(&self) -> (r: FerrotorchResult<SparseTensor<T>>)
        requires
            self.wf(),
        ensures
            match r {
                Ok(x) => {
                    &&& self.shape@.len() == 2
                    &&& x.wf()
                    &&& x.holds(
                        transposed(self.coords()),
                        self.values@,
                        seq![self.shape@[1], self.shape@[0]],
                    )
                },
                Err(e) => self.shape@.len() != 2 && e == not_matrix(self.shape@.len()),
            },
    {
        if self.shape.len() != 2 {
            return Err(
                FerrotorchError::InvalidArgument {
                    reason: Reason::NotMatrix { ndim: self.shape.len() },
                },
            );
        }
        let mut indices: Vec<Vec<usize>> = Vec::new();
        let mut i: usize = 0;
        while i < self.indices.len()
            invariant
                i <= self.indices@.len(),
                self.wf(),
                self.shape@.len() == 2,
                indices@.len() == i,
                forall|j: int|
                    0 <= j < i ==> (#[trigger] indices@[j])@ == transposed(self.coords())[j],
            decreases self.indices.len() - i,
        {
            proof {
                assert(shape::in_shape(self.coords()[i as int], self.shape@));
            }
            let mut pair: Vec<usize> = Vec::new();
            pair.push(self.indices[i][1]);
            pair.push(self.indices[i][0]);
            proof {
                assert(pair@ =~= transposed(self.coords())[i as int]);
            }
            indices.push(pair);
            i = i + 1;
        }
        let mut sh: Vec<usize> = Vec::new();
        sh.push(self.shape[1]);
        sh.push(self.shape[0]);
        let t = SparseTensor {
            indices,
            values: copied(self.values.as_slice()),
            shape: sh,
            nnz: self.nnz,
        };
        proof {
            assert(t.coords() =~= transposed(self.coords()));
            assert(t.shape@ =~= seq![self.shape@[1], self.shape@[0]]);
            assert forall|j: int| 0 <= j < t.coords().len() implies shape::in_shape(
                #[trigger] t.coords()[j],
                t.shape@,
            ) by {
                let k = self.coords()[j];
                assert(shape::in_shape(k, self.shape@));
                assert(k[0] < self.shape@[0] && k[1] < self.shape@[1]);
                assert forall|d: int| 0 <= d < 2 implies #[trigger] t.coords()[j][d]
                    < t.shape@[d] by {}
            }
        }
        Ok(t)
    }

    /// A copy.
    pub fn copy(&self) -> (r: Self)
        ensures
            r.coords() == self.coords(),
            r.values@ == self.values@,
            r.shape@ == self.shape@,
            r.nnz == self.nnz,
    {
        SparseTensor {
            indices: copied_indices(&self.indices),
            values: copied(self.values.as_slice()),
            shape: copied(self.shape.as_slice()),
            nnz: self.nnz,
        }
    }
}

impl<T: Float> Clone for SparseTensor<T> {
    fn clone(&self) -> (r: Self)
        ensures
            r.coords() == self.coords(),
            r.values@ == self.values@,
            r.shape@ == self.shape@,
            r.nnz == self.nnz,
    {
        self.copy()
    }
}

/// The error for a tensor that is not a matrix.
pub open spec fn not_matrix(ndim: nat) -> FerrotorchError {
    FerrotorchError::InvalidArgument { reason: Reason::NotMatrix { ndim: ndim as usize } }
}

/// The matrix coordinates with row and column exchanged.
pub open spec fn transposed(ks: Seq<Seq<usize>>) -> Seq<Seq<usize>> {
    Seq::new(ks.len(), |i: int| seq![ks[i][1], ks[i][0]])
}

/// Transposing twice gives the coordinates back.
pub proof fn lemma_transpose_twice(ks: Seq<Seq<usize>>)
    requires
        forall|i: int| 0 <= i < ks.len() ==> (#[trigger] ks[i]).len() == 2,
    ensures
        transposed(transposed(ks)) == ks,
{
    assert forall|i: int| 0 <= i < ks.len() implies transposed(transposed(ks))[i] == ks[i] by {
        assert(ks[i].len() == 2);
        assert(transposed(transposed(ks))[i] =~= ks[i]);
    }
    assert(transposed(transposed(ks)) =~= ks);
}

/// The sum at a coordinate is that of the transpose at the exchanged coordinate.
pub proof fn lemma_transpose_sum<T: Float>(
    ks: Seq<Seq<usize>>,
    vals: Seq<T>,
    n: int,
    row: usize,
    col: usize,
)
    requires
        0 <= n <= ks.len(),
        forall|i: int| 0 <= i < ks.len() ==> (#[trigger] ks[i]).len() == 2,
    ensures
        key_sum(transposed(ks), vals, n, seq![col, row]) == key_sum(ks, vals, n, seq![row, col]),
    decreases n,
{
    if n > 0 {
        lemma_transpose_sum(ks, vals, n - 1, row, col);
        let k = ks[n - 1];
        let t = transposed(ks)[n - 1];
        assert(k.len() == 2);
        if k == seq![row, col] {
            assert(t =~= seq![col, row]);
        }
        if t == seq![col, row] {
            assert(t[0] == col && t[1] == row);
            assert(k =~= seq![row, col]);
        }
    }
}

/// The sum of the concatenation of two lists goes on from that of the first.
pub proof fn lemma_added_dense<T: Float>(
    a: Seq<Seq<usize>>,
    va: Seq<T>,
    b: Seq<Seq<usize>>,
    vb: Seq<T>,
    sh: Seq<usize>,
    n: int,
    p: int,
)
    requires
        a.len() == va.len(),
        b.len() == vb.len(),
        0 <= n <= b.len(),
    ensures
        cell_sum(T::zero_spec(), flat_positions(a + b, sh), va + vb, a.len() + n, p) == cell_sum(
            cell_sum(T::zero_spec(), flat_positions(a, sh), va, a.len() as int, p),
            flat_positions(b, sh),
            vb,
            n,
            p,
        ),
    decreases n,
{
    if n > 0 {
        lemma_added_dense(a, va, b, vb, sh, n - 1, p);
        assert((a + b)[a.len() + n - 1] == b[n - 1]);
        assert((va + vb)[a.len() + n - 1] == vb[n - 1]);
    } else {
        lemma_prefix_dense(a, va, b, vb, sh, a.len() as int, p);
    }
}

proof fn lemma_prefix_dense<T: Float>(
    a: Seq<Seq<usize>>,
    va: Seq<T>,
    b: Seq<Seq<usize>>,
    vb: Seq<T>,
    sh: Seq<usize>,
    n: int,
    p: int,
)
    requires
        a.len() == va.len(),
        b.len() == vb.len(),
        0 <= n <= a.len(),
    ensures
        cell_sum(T::zero_spec(), flat_positions(a + b, sh), va + vb, n, p) == cell_sum(
            T::zero_spec(),
            flat_positions(a, sh),
            va,
            n,
            p,
        ),
    decreases n,
{
    if n > 0 {
        lemma_prefix_dense(a, va, b, vb, sh, n - 1, p);
        assert((a + b)[n - 1] == a[n - 1]);
        assert((va + vb)[n - 1] == va[n - 1]);
    }
}

/// Entry `i` has a coordinate that does not fit the shape, and `e` says why: another
/// rank, or the first entry of it that is out of bounds.
pub open spec fn coordinate_fault(
    i: usize,
    key: Seq<usize>,
    sh: Seq<usize>,
    e: FerrotorchError,
) -> bool {
    if key.len() != sh.len() {
        e == (FerrotorchError::InvalidArgument {
            reason: Reason::IndexRank {
                entry: i,
                got: key.len() as usize,
                expected: sh.len() as usize,
            },
        })
    } else {
        exists|d: int|
            {
                &&& 0 <= d < sh.len()
                &&& #[trigger] key[d] >= sh[d]
                &&& forall|c: int| 0 <= c < d ==> #[trigger] key[c] < sh[c]
                &&& e == (FerrotorchError::IndexOutOfBounds {
                    index: key[d],
                    axis: d as usize,
                    size: sh[d],
                })
            }
    }
}

/// The coordinates of the first `m` rows of a compressed-row form.
pub open spec fn expanded_rows(pointers: Seq<u32>, indices: Seq<u32>, m: int) -> Seq<Seq<usize>>
    decreases m,
{
    if m <= 0 {
        Seq::empty()
    } else {
        let start = pointers[m - 1] as int;
        let end = pointers[m] as int;
        expanded_rows(pointers, indices, m - 1) + Seq::new(
            (if end > start {
                end - start
            } else {
                0
            }) as nat,
            |j: int| seq![(m - 1) as usize, indices[start + j] as usize],
        )
    }
}

/// The entries of a compressed-row form with 32-bit indices.
pub fn csr_to_coo_t<T: Float>(pointers: &[u32], indices: &[u32], values: Vec<T>) -> (r:
    FerrotorchResult<(Vec<Vec<usize>>, Vec<T>)>)
    requires
        forall|row: int|
            0 <= row && row + 1 < pointers@.len() && #[trigger] pointers@[row] < pointers@[row + 1]
                ==> pointers@[row + 1] <= indices@.len(),
    ensures
        match r {
            Ok((idx, vals)) => {
                &&& pointers@.len() > 0 ==> indices@.len() == values@.len()
                &&& keys(idx@) == expanded_rows(pointers@, indices@, pointers@.len() - 1)
                &&& vals@ == values@
            },
            Err(e) => pointers@.len() > 0 && indices@.len() != values@.len() && e == (
            FerrotorchError::InvalidArgument {
                reason: Reason::LengthMismatch {
                    left: indices@.len() as usize,
                    right: values@.len() as usize,
                },
            }),
        },
{
    let mut out: Vec<Vec<usize>> = Vec::new();
    if pointers.len() == 0 {
        proof {
            assert(keys(out@) =~= Seq::<Seq<usize>>::empty());
        }
        return Ok((out, values));
    }
    if indices.len() != values.len() {
        return Err(
            FerrotorchError::InvalidArgument {
                reason: Reason::LengthMismatch { left: indices.len(), right: values.len() },
            },
        );
    }
    let m: usize = pointers.len() - 1;
    let mut row: usize = 0;
    proof {
        assert(keys(out@) =~= expanded_rows(pointers@, indices@, 0));
    }
    while row < m
        invariant
            row <= m,
            m + 1 == pointers@.len(),
            keys(out@) == expanded_rows(pointers@, indices@, row as int),
            forall|q: int|
                0 <= q && q + 1 < pointers@.len() && #[trigger] pointers@[q] < pointers@[q + 1]
                    ==> pointers@[q + 1] <= indices@.len(),
        decreases m - row,
    {
        let start: usize = pointers[row] as usize;
        let end: usize = pointers[row + 1] as usize;
        let ghost before = keys(out@);
        let ghost len = (if end > start {
            end - start
        } else {
            0
        }) as nat;
        let ghost seg = Seq::new(
            len,
            |j: int| seq![row, indices@[start + j] as usize],
        );
        let mut j: usize = start;
        proof {
            assert(seg.take(0) =~= Seq::<Seq<usize>>::empty());
            assert(before + seg.take(0) =~= before);
            assert(pointers@[row as int] == start);
        }
        while j < end
            invariant
                start <= j,
                start < end ==> j <= end && end <= indices@.len(),
                start >= end ==> j == start,
                len == (if end > start {
                    end - start
                } else {
                    0
                }),
                seg == Seq::new(len, |i: int| seq![row, indices@[start + i] as usize]),
                keys(out@) == before + seg.take(j - start),
            decreases end - j,
        {
            let mut pair: Vec<usize> = Vec::new();
            pair.push(row);
            pair.push(indices[j] as usize);
            proof {
                assert(pair@ =~= seg[j - start]);
            }
            let ghost so_far = keys(out@);
            out.push(pair);
            proof {
                assert(keys(out@) =~= so_far.push(seg[j - start]));
                assert(seg.take(j - start).push(seg[j - start]) =~= seg.take(j + 1 - start));
                assert(keys(out@) =~= before + seg.take(j + 1 - start));
            }
            j = j + 1;
        }
        proof {
            assert(seg.take(j - start) =~= seg);
            assert(expanded_rows(pointers@, indices@, row + 1) =~= before + seg);
        }
        row = row + 1;
    }
    Ok((out, values))
}

impl<T: Float> SparseTensor<T> {
    /// The entries of a dense tensor that exceed `threshold` in magnitude, in
    /// row-major order.
    pub fn from_dense(tensor: &Tensor<T>, threshold: T, ctx: Context) -> (r: FerrotorchResult<
        Plan<Self, ExtractJob>,
    >)
        requires
            tensor.wf(),
        ensures
            ({
                let device_path = tensor.inner.storage.device is Cuda && is_zero_spec(threshold)
                    && tensor.inner.shape@.len() == 2 && ctx.backend && scatter_kernel_spec(
                    T::dtype_spec(),
                ) is Some;
                if device_path {
                    if tensor.needs_gather() {
                        r matches Ok(Plan::Device(ExtractJob::MakeContiguous(c)))
                            && tensor.is_gather(c)
                    } else {
                        r matches Ok(Plan::Device(ExtractJob::Extract { dense, m, n })) && dense
                            == tensor.inner.storage.data->Gpu_0 && m == tensor.inner.shape@[0] && n
                            == tensor.inner.shape@[1]
                    }
                } else {
                    match r {
                        Ok(Plan::Ready(t)) => {
                            let kept = kept_positions(
                                tensor.logical(),
                                threshold,
                                tensor.count() as int,
                            );
                            &&& tensor.data_error() is None
                            &&& t.wf()
                            &&& t.holds(
                                Seq::new(
                                    kept.len(),
                                    |i: int| shape::unravel(kept[i], tensor.inner.shape@),
                                ),
                                Seq::new(kept.len(), |i: int| tensor.logical()[kept[i]]),
                                tensor.inner.shape@,
                            )
                        },
                        Ok(Plan::Device(_)) => false,
                        Err(e) => tensor.data_error() == Some(e),
                    }
                }
            }),
    {
        if tensor.is_cuda() && is_zero(threshold) && tensor.ndim() == 2 && ctx.backend {
            if let Some(_) = scatter_kernel(T::dtype()) {
                let dense: GpuBufferHandle = *tensor.gpu_handle()?;
                if !tensor.is_whole_buffer() {
                    return Ok(Plan::Device(ExtractJob::MakeContiguous(tensor.gather_from(dense))));
                }
                let m: usize = tensor.shape()[0];
                let n: usize = tensor.shape()[1];
                return Ok(Plan::Device(ExtractJob::Extract { dense, m, n }));
            }
        }
        let data: &[T] = tensor.data()?;
        let ghost sh = tensor.inner.shape@;
        let mut indices: Vec<Vec<usize>> = Vec::new();
        let mut values: Vec<T> = Vec::new();
        let ghost mut kept: Seq<int> = Seq::empty();
        let mut k: usize = 0;
        while k < data.len()
            invariant
                k <= data@.len(),
                sh == tensor.inner.shape@,
                data@.len() == shape::prod(sh),
                kept == kept_positions(data@, threshold, k as int),
                indices@.len() == kept.len(),
                values@.len() == kept.len(),
                forall|i: int| 0 <= i < kept.len() ==> 0 <= #[trigger] kept[i] < k,
                forall|i: int|
                    0 <= i < kept.len() ==> (#[trigger] indices@[i])@ == shape::unravel(
                        kept[i],
                        sh,
                    ),
                forall|i: int|
                    0 <= i < kept.len() ==> #[trigger] values@[i] == data@[kept[i]],
            decreases data.len() - k,
        {
            let v: T = data[k];
            if threshold.is_below(v.abs()) {
                let coord: Vec<usize> = coordinate_at(k, tensor.inner.shape.as_slice());
                indices.push(coord);
                values.push(v);
                proof {
                    kept = kept.push(k as int);
                }
            }
            k = k + 1;
        }
        let nnz: usize = values.len();
        let t = SparseTensor {
            indices,
            values,
            shape: copied(tensor.inner.shape.as_slice()),
            nnz,
        };
        proof {
            assert forall|i: int| 0 <= i < t.coords().len() implies shape::in_shape(
                #[trigger] t.coords()[i],
                t.shape@,
            ) by {
                assert(t.indices@[i]@ == shape::unravel(kept[i], sh));
                shape::lemma_unravel_ravel(kept[i], sh);
            }
            assert(t.coords() =~= Seq::new(kept.len(), |i: int| shape::unravel(kept[i], sh)));
            assert(t.values@ =~= Seq::new(kept.len(), |i: int| data@[kept[i]]));
        }
        Ok(Plan::Ready(t))
    }

    /// The sparse tensor of the compressed-row form that a device extracted.
    pub fn finish_from_dense(
        pointers: &[u32],
        indices: &[u32],
        values: Vec<T>,
        m: usize,
        n: usize,
    ) -> (r: FerrotorchResult<Self>)
        requires
            forall|row: int|
                0 <= row && row + 1 < pointers@.len() && #[trigger] pointers@[row]
                    < pointers@[row + 1] ==> pointers@[row + 1] <= indices@.len(),
        ensures
            match r {
                Ok(t) => {
                    &&& pointers@.len() > 0 ==> indices@.len() == values@.len()
                    &&& t.holds(
                        expanded_rows(pointers@, indices@, pointers@.len() - 1),
                        values@,
                        seq![m, n],
                    )
                },
                Err(e) => pointers@.len() > 0 && indices@.len() != values@.len() && e == (
                FerrotorchError::InvalidArgument {
                    reason: Reason::LengthMismatch {
                        left: indices@.len() as usize,
                        right: values@.len() as usize,
                    },
                }),
            },
    {
        let (idx, vals): (Vec<Vec<usize>>, Vec<T>) = csr_to_coo_t(pointers, indices, values)?;
        let nnz: usize = vals.len();
        Ok(SparseTensor { indices: idx, values: vals, shape: matrix_shape(m, n), nnz })
    }

    /// The dense host tensor: at each coordinate the sum of the values there.
    fn to_dense_cpu(&self, id: TensorId) -> (r: FerrotorchResult<Tensor<T>>)
        requires
            self.wf(),
            shape::shape_fits(self.shape@),
        ensures
            r matches Ok(t) && self.is_dense_form(t, id),
    {
        let n: usize = shape::numel(self.shape.as_slice());
        let mut data: Vec<T> = filled(T::zero(), n);
        let mut at: Vec<usize> = Vec::new();
        let mut i: usize = 0;
        while i < self.indices.len()
            invariant
                i <= self.indices@.len(),
                self.wf(),
                shape::shape_fits(self.shape@),
                n == shape::prod(self.shape@),
                at@.len() == i,
                forall|j: int|
                    0 <= j < i ==> #[trigger] at@[j] == shape::ravel(
                        self.coords()[j],
                        self.shape@,
                    ) && at@[j] < n,
            decreases self.indices.len() - i,
        {
            proof {
                assert(shape::in_shape(self.coords()[i as int], self.shape@));
            }
            at.push(flat_position(self.indices[i].as_slice(), self.shape.as_slice()));
            i = i + 1;
        }
        scatter_add(&mut data, at.as_slice(), self.values.as_slice());
        proof {
            assert(at@ =~= flat_positions(self.coords(), self.shape@));
            assert(data@ =~= dense_elements(self.coords(), self.values@, self.shape@));
        }
        Tensor::from_storage(
            TensorStorage::cpu(data),
            copied(self.shape.as_slice()),
            false,
            id,
        )
    }

    /// The dense host tensor that the sparse tensor stands for.
    pub open spec fn is_dense_form(&self, t: Tensor<T>, id: TensorId) -> bool {
        &&& t.is_dense_cpu(
            id,
            dense_elements(self.coords(), self.values@, self.shape@),
            self.shape@,
        )
        &&& t.is_plain(false)
        &&& t.wf()
        &&& t.in_bounds()
    }

    /// The dense host tensor.
    pub fn to_dense(&self, id: TensorId) -> (r: FerrotorchResult<Tensor<T>>)
        requires
            self.wf(),
            shape::shape_fits(self.shape@),
        ensures
            r matches Ok(t) && self.is_dense_form(t, id),
    {
        self.to_dense_cpu(id)
    }

    /// The compressed-row form of the canonical form of a matrix.
    pub open spec fn compressed_outcome(
        &self,
        ordinal: usize,
        r: FerrotorchResult<CompressedArrays<T>>,
    ) -> bool {
        exists|c: SparseTensor<T>|
            {
                &&& #[trigger] merged(
                    self.coords(),
                    self.values@,
                    true,
                    c.coords(),
                    c.values@,
                )
                &&& match r {
                    Ok(a) => a.holds_rows(
                        c.coords(),
                        c.values@,
                        self.shape@[0],
                        self.shape@[1],
                        ordinal,
                    ),
                    Err(e) => if c.values@.len() > u32::MAX {
                        e == too_wide(c.values@.len() as usize)
                    } else {
                        first_too_wide(columns_of(c.coords()), e)
                    },
                }
            }
    }

    /// The canonical form has an entry count or a column that is no 32-bit number.
    pub open spec fn is_too_wide(&self) -> bool {
        exists|c: SparseTensor<T>|
            {
                &&& #[trigger] merged(
                    self.coords(),
                    self.values@,
                    true,
                    c.coords(),
                    c.values@,
                )
                &&& c.values@.len() > u32::MAX || exists|i: int|
                    0 <= i < c.coords().len() && #[trigger] columns_of(c.coords())[i] > u32::MAX
            }
    }

    /// There is only one canonical form: where its entry count and columns are 32-bit
    /// numbers, the tensor is not too wide.
    proof fn lemma_canonical(&self, c: &SparseTensor<T>)
        requires
            merged(self.coords(), self.values@, true, c.coords(), c.values@),
            c.values@.len() <= u32::MAX,
            forall|i: int|
                0 <= i < c.coords().len() ==> #[trigger] columns_of(c.coords())[i] <= u32::MAX,
        ensures
            !self.is_too_wide(),
    {
        assert forall|d: SparseTensor<T>| #[trigger]
            merged(self.coords(), self.values@, true, d.coords(), d.values@) implies d.coords()
            == c.coords() && d.values@ == c.values@ by {
            lemma_merged_unique(
                self.coords(),
                self.values@,
                true,
                d.coords(),
                d.values@,
                c.coords(),
                c.values@,
            );
        }
    }

    fn compressed(&self, ordinal: usize) -> (r: FerrotorchResult<CompressedArrays<T>>)
        requires
            self.wf(),
            self.shape@.len() == 2,
            self.shape@[0] < usize::MAX,
        ensures
            self.compressed_outcome(ordinal, r),
            r is Err == self.is_too_wide(),
    {
        let c: SparseTensor<T> = self.coalesce();
        let m: usize = self.shape[0];
        let n: usize = self.shape[1];
        match to_u32_checked(c.nnz) {
            Ok(_) => {},
            Err(e) => return Err(e),
        }
        let mut rows: Vec<usize> = Vec::new();
        let mut cols: Vec<usize> = Vec::new();
        let mut i: usize = 0;
        while i < c.indices.len()
            invariant
                i <= c.indices@.len(),
                c.wf(),
                c.shape@ == self.shape@,
                self.shape@.len() == 2,
                m == self.shape@[0],
                rows@.len() == i,
                cols@.len() == i,
                forall|j: int| 0 <= j < i ==> #[trigger] rows@[j] == c.coords()[j][0],
                forall|j: int| 0 <= j < i ==> #[trigger] rows@[j] < m,
                forall|j: int| 0 <= j < i ==> #[trigger] cols@[j] == c.coords()[j][1],
            decreases c.indices.len() - i,
        {
            proof {
                assert(shape::in_shape(c.coords()[i as int], c.shape@));
                assert(c.coords()[i as int][0] < c.shape@[0]);
            }
            rows.push(c.indices[i][0]);
            cols.push(c.indices[i][1]);
            i = i + 1;
        }
        proof {
            assert(rows@ =~= rows_of(c.coords()));
            assert(cols@ =~= columns_of(c.coords()));
        }
        let starts: Vec<usize> = bucket_starts(rows.as_slice(), m);
        proof {
            assert forall|r: int| 0 <= r < starts@.len() implies #[trigger] starts@[r]
                <= u32::MAX by {
                lemma_count_bounds(rows@, rows@.len() as int, r);
            }
        }
        let pointers: Vec<u32> = match to_u32_vec_checked(starts.as_slice()) {
            Ok(p) => p,
            Err(e) => {
                proof {
                    assert(false);
                }
                return Err(e);
            },
        };
        match to_u32_vec_checked(cols.as_slice()) {
            Ok(indices) => {
                let values: Vec<T> = copied(c.values.as_slice());
                let a = CompressedArrays {
                    pointers,
                    indices,
                    values,
                    ordinal,
                    nrows: m,
                    ncols: n,
                };
                proof {
                    assert(a.holds_rows(
                        c.coords(),
                        c.values@,
                        self.shape@[0],
                        self.shape@[1],
                        ordinal,
                    ));
                    assert forall|i: int| 0 <= i < c.coords().len() implies #[trigger] columns_of(
                        c.coords(),
                    )[i] <= u32::MAX by {
                        assert(a.indices@[i] == cols@[i]);
                    }
                    self.lemma_canonical(&c);
                }
                Ok(a)
            },
            Err(e) => {
                proof {
                    assert(first_too_wide(columns_of(c.coords()), e));
                }
                Err(e)
            },
        }
    }

    /// The dense tensor on a device. On a CUDA device a matrix is expanded there, and a
    /// tensor of another rank is made on the host and moved; an element type without
    /// kernels is refused. For any other device the result is a host tensor.
    pub fn to_dense_on(&self, device: Device, ctx: Context) -> (r: FerrotorchResult<
        Plan<Tensor<T>, DenseJob<T>>,
    >)
        requires
            self.wf(),
            shape::shape_fits(self.shape@),
            self.shape@.len() == 2 ==> self.shape@[0] < usize::MAX,
        ensures
            match device {
                Device::Cuda(ordinal) => if self.shape@.len() == 2 && ctx.backend
                    && scatter_kernel_spec(T::dtype_spec()) is Some {
                    match r {
                        Ok(Plan::Device(DenseJob::Expand(a))) => !self.is_too_wide()
                            && self.compressed_outcome(ordinal, Ok(a)),
                        Ok(_) => false,
                        Err(e) => self.is_too_wide() && self.compressed_outcome(ordinal, Err(e)),
                    }
                } else if !ctx.backend {
                    r matches Err(e) && e == FerrotorchError::DeviceUnavailable
                } else if scatter_kernel_spec(T::dtype_spec()) is None {
                    r matches Err(e) && e == (FerrotorchError::NotImplementedOnCuda {
                        op: CudaGap::SparseToDense,
                    })
                } else {
                    r matches Ok(
                        Plan::Device(DenseJob::Move(TransferJob::Upload { data, ordinal: o, dtype })),
                    ) && data@ == dense_elements(self.coords(), self.values@, self.shape@) && o
                        == ordinal && dtype == T::dtype_spec()
                },
                _ => r matches Ok(Plan::Ready(t)) && self.is_dense_form(t, ctx.fresh),
            },
    {
        match device {
            Device::Cuda(ordinal) => {
                if !ctx.backend {
                    return Err(FerrotorchError::DeviceUnavailable);
                }
                if let None = scatter_kernel(T::dtype()) {
                    return Err(
                        FerrotorchError::NotImplementedOnCuda { op: CudaGap::SparseToDense },
                    );
                }
                if self.shape.len() == 2 {
                    return match self.compressed(ordinal) {
                        Ok(a) => Ok(Plan::Device(DenseJob::Expand(a))),
                        Err(e) => Err(e),
                    };
                }
                let t: Tensor<T> = self.to_dense_cpu(ctx.fresh)?;
                proof {
                    t.lemma_dense();
                    assert(t.logical() =~= dense_elements(
                        self.coords(),
                        self.values@,
                        self.shape@,
                    ));
                }
                match t.to(device, ctx)? {
                    Plan::Device(j) => Ok(Plan::Device(DenseJob::Move(j))),
                    Plan::Ready(x) => Ok(Plan::Ready(x)),
                }
            },
            _ => Ok(Plan::Ready(self.to_dense_cpu(ctx.fresh)?)),
        }
    }
}

/// The shape of a matrix.
pub fn matrix_shape(m: usize, n: usize) -> (r: Vec<usize>)
    ensures
        r@ == seq![m, n],
{
    let mut sh: Vec<usize> = Vec::new();
    sh.push(m);
    sh.push(n);
    proof {
        assert(sh@ =~= seq![m, n]);
    }
    sh
}

/// The dense form of the entries that exceed a threshold in magnitude keeps those
/// elements, on top of zero, and is zero elsewhere.
pub proof fn lemma_from_dense_to_dense<T: Float>(
    data: Seq<T>,
    threshold: T,
    sh: Seq<usize>,
    p: int,
)
    requires
        data.len() == shape::prod(sh),
        shape::prod(sh) <= usize::MAX,
        0 <= p < data.len(),
    ensures
        ({
            let kept = kept_positions(data, threshold, data.len() as int);
            dense_elements(
                Seq::new(kept.len(), |i: int| shape::unravel(kept[i], sh)),
                Seq::new(kept.len(), |i: int| data[kept[i]]),
                sh,
            )[p] == if threshold.below(data[p].magnitude()) {
                T::zero_spec().plus(data[p])
            } else {
                T::zero_spec()
            }
        }),
{
    let n = data.len() as int;
    let kept = kept_positions(data, threshold, n);
    lemma_kept(data, threshold, n);
    let ks = Seq::new(kept.len(), |i: int| shape::unravel(kept[i], sh));
    let vals = Seq::new(kept.len(), |i: int| data[kept[i]]);
    let at = flat_positions(ks, sh);
    assert forall|i: int| 0 <= i < kept.len() implies #[trigger] at[i] == kept[i] by {
        shape::lemma_unravel_ravel(kept[i], sh);
    }
    assert(crate::scatter::distinct(at, kept.len() as int)) by {
        assert forall|i: int, j: int| 0 <= i < j < kept.len() implies #[trigger] at[i]
            != #[trigger] at[j] by {
            assert(kept[i] < kept[j]);
        }
    }
    if threshold.below(data[p].magnitude()) {
        let i = choose|i: int| 0 <= i < kept.len() && #[trigger] kept[i] == p;
        crate::scatter::lemma_cell_sum_distinct(T::zero_spec(), at, vals, kept.len() as int, i);
        assert(at[i] == p);
    } else {
        assert forall|i: int| 0 <= i < kept.len() implies #[trigger] at[i] != p by {
            assert(threshold.below(data[kept[i]].magnitude()));
        }
        crate::scatter::lemma_cell_sum_untouched(
            T::zero_spec(),
            at,
            vals,
            kept.len() as int,
            p,
        );
    }
}

/// The dense form of the entries of a dense tensor is that tensor again, where its
/// elements are numbers and the threshold is not above zero: a zero may come back with
/// the other sign.
pub proof fn lemma_dense_round_trip<T: Float>(
    tensor: &Tensor<T>,
    threshold: T,
    sparse: &SparseTensor<T>,
    dense: &Tensor<T>,
    id: TensorId,
)
    requires
        tensor.wf(),
        ({
            let kept = kept_positions(tensor.logical(), threshold, tensor.count() as int);
            sparse.holds(
                Seq::new(kept.len(), |i: int| shape::unravel(kept[i], tensor.inner.shape@)),
                Seq::new(kept.len(), |i: int| tensor.logical()[kept[i]]),
                tensor.inner.shape@,
            )
        }),
        sparse.is_dense_form(*dense, id),
        !is_nan_spec(threshold),
        !T::zero_spec().below(threshold),
        forall|p: int| 0 <= p < tensor.count() ==> !is_nan_spec(#[trigger] tensor.logical()[p]),
    ensures
        dense.inner.shape@ == tensor.inner.shape@,
        dense.logical().len() == tensor.logical().len(),
        forall|p: int|
            0 <= p < tensor.count() ==> (#[trigger] dense.logical()[p]).same(tensor.logical()[p]),
{
    let data = tensor.logical();
    let sh = tensor.inner.shape@;
    assert(sh.take(sh.len() as int) =~= sh);
    assert(shape::prod(sh.take(sh.len() as int)) <= usize::MAX);
    dense.lemma_dense();
    assert forall|p: int| 0 <= p < data.len() implies (#[trigger] dense.logical()[p]).same(
        data[p],
    ) by {
        let x = data[p];
        assert(!is_nan_spec(x));
        lemma_from_dense_to_dense(data, threshold, sh, p);
        T::lemma_zero_plus(x);
        T::lemma_magnitude(x);
        T::lemma_order(T::zero_spec(), threshold, x.magnitude());
    }
}

/// The kept positions increase and are exactly those that exceed the threshold.
pub proof fn lemma_kept<T: Float>(data: Seq<T>, threshold: T, n: int)
    requires
        0 <= n,
    ensures
        ({
            let kept = kept_positions(data, threshold, n);
            &&& forall|i: int|
                0 <= i < kept.len() ==> 0 <= #[trigger] kept[i] < n && threshold.below(
                    data[kept[i]].magnitude(),
                )
            &&& forall|i: int, j: int|
                0 <= i < j < kept.len() ==> #[trigger] kept[i] < #[trigger] kept[j]
            &&& forall|p: int|
                0 <= p < n && threshold.below((#[trigger] data[p]).magnitude()) ==> exists|i: int|
                    0 <= i < kept.len() && #[trigger] kept[i] == p
        }),
    decreases n,
{
    if n > 0 {
        lemma_kept(data, threshold, n - 1);
        let before = kept_positions(data, threshold, n - 1);
        let kept = kept_positions(data, threshold, n);
        assert forall|p: int|
            0 <= p < n && threshold.below((#[trigger] data[p]).magnitude()) implies exists|i: int|
            0 <= i < kept.len() && #[trigger] kept[i] == p by {
            if p < n - 1 {
                let i = choose|i: int| 0 <= i < before.len() && #[trigger] before[i] == p;
                assert(kept[i] == p);
            } else {
                assert(kept[kept.len() - 1] == p);
            }
        }
    }
}

/// Row and column of a row-major matrix position.
pub proof fn lemma_matrix_position(i: int, col: int, width: int, m: int)
    requires
        0 <= i < m,
        0 <= col < width,
    ensures
        0 <= i * width + col < m * width,
        (i * width + col) / width == i,
        (i * width + col) % width == col,
{
    assert(0 <= i * width + col < m * width) by (nonlinear_arith)
        requires
            0 <= i < m,
            0 <= col < width,
    ;
    vstd::arithmetic::div_mod::lemma_fundamental_div_mod_converse(
        i * width + col,
        width,
        i,
        col,
    );
}

/// Adds a multiple of a dense row to a row of the result.
fn add_scaled_row<T: Float>(
    out: &mut Vec<T>,
    dense: &[T],
    v: T,
    i: usize,
    j: usize,
    width: usize,
    m: usize,
    k: usize,
)
    requires
        i < m,
        j < k,
        old(out)@.len() == m * width,
        dense@.len() == k * width,
        m * width <= usize::MAX,
        k * width <= usize::MAX,
    ensures
        final(out)@.len() == old(out)@.len(),
        forall|p: int|
            0 <= p < m * width ==> #[trigger] final(out)@[p] == if p / (width as int) == i {
                old(out)@[p].plus(v.times(dense@[j * width + p % (width as int)]))
            } else {
                old(out)@[p]
            },
{
    let mut col: usize = 0;
    while col < width
        invariant
            col <= width,
            i < m,
            j < k,
            out@.len() == m * width,
            old(out)@.len() == m * width,
            dense@.len() == k * width,
            m * width <= usize::MAX,
            k * width <= usize::MAX,
            forall|p: int|
                0 <= p < m * width ==> #[trigger] out@[p] == if p / (width as int) == i && p % (
                width as int) < col {
                    old(out)@[p].plus(v.times(dense@[j * width + p % (width as int)]))
                } else {
                    old(out)@[p]
                },
        decreases width - col,
    {
        proof {
            lemma_matrix_position(i as int, col as int, width as int, m as int);
            lemma_matrix_position(j as int, col as int, width as int, k as int);
            assert(0 <= i * width && 0 <= j * width) by (nonlinear_arith);
        }
        let ghost before = out@;
        let p: usize = i * width + col;
        let term: T = v.mul(dense[j * width + col]);
        let total: T = out[p].add(term);
        out.set(p, total);
        proof {
            assert forall|q: int| 0 <= q < m * width implies #[trigger] out@[q] == if q / (
            width as int) == i && q % (width as int) < col + 1 {
                old(out)@[q].plus(v.times(dense@[j * width + q % (width as int)]))
            } else {
                old(out)@[q]
            } by {
                if q != p {
                    assert(out@[q] == before[q]);
                    vstd::arithmetic::div_mod::lemma_fundamental_div_mod(q, width as int);
                    if q / (width as int) == i && q % (width as int) == col {
                        assert(width as int * (q / (width as int)) == i * width)
                            by (nonlinear_arith)
                            requires
                                q / (width as int) == i,
                        ;
                    }
                }
            }
        }
        col = col + 1;
    }
    proof {
        assert forall|q: int| 0 <= q < m * width implies #[trigger] out@[q] == if q / (width as int)
            == i {
            old(out)@[q].plus(v.times(dense@[j * width + q % (width as int)]))
        } else {
            old(out)@[q]
        } by {
            if width > 0 {
                assert(q % (width as int) < width) by (nonlinear_arith)
                    requires
                        width > 0,
                ;
            } else {
                assert(m * width == 0) by (nonlinear_arith)
                    requires
                        width == 0,
                ;
            }
        }
    }
}

impl<T: Float> SparseTensor<T> {
    /// Why a product with a dense tensor is refused, if it is.
    pub open spec fn spmm_error(&self, dense: &Tensor<T>) -> Option<FerrotorchError> {
        if self.shape@.len() != 2 {
            Some(not_matrix(self.shape@.len()))
        } else if dense.inner.shape@.len() != 2 {
            Some(not_matrix(dense.inner.shape@.len()))
        } else if self.shape@[1] != dense.inner.shape@[0] {
            Some(
                FerrotorchError::ShapeMismatch {
                    reason: Reason::InnerSizes {
                        left: self.shape@[1],
                        right: dense.inner.shape@[0],
                    },
                },
            )
        } else {
            None
        }
    }

    /// The gradient part of a product.
    pub open spec fn spmm_grad(&self, dense: &Tensor<T>, ctx: Context, t: Tensor<T>) -> bool {
        if ctx.grad_enabled && dense.inner.requires_grad && !ctx.inference {
            &&& t.inner.grad_fn matches Some(g) && (*g matches GradFn::Spmm(b) && b.dense == *dense
                && b.sparse_t.wf() && b.sparse_t.holds(
                transposed(self.coords()),
                self.values@,
                seq![self.shape@[1], self.shape@[0]],
            ))
            &&& t.inner.requires_grad
            &&& !t.inner.is_leaf
        } else {
            t.is_plain(false)
        }
    }

    /// The outcome of a product with a dense tensor.
    pub open spec fn spmm_outcome(
        &self,
        dense: &Tensor<T>,
        ctx: Context,
        r: FerrotorchResult<Plan<Tensor<T>, SpmmJob<T>>>,
    ) -> bool {
        let m = self.shape@[0];
        let n = dense.inner.shape@[1];
        if self.spmm_error(dense) is Some {
            r matches Err(e) && self.spmm_error(dense) == Some(e)
        } else if dense.inner.storage.device is Cuda && ctx.backend {
            if dense.needs_gather() {
                r matches Ok(Plan::Device(SpmmJob::MakeContiguous(c))) && dense.is_gather(c)
            } else {
                match r {
                    Ok(Plan::Device(SpmmJob::Multiply { sparse, dense: d, n: w })) => {
                        &&& !self.is_too_wide()
                        &&& scatter_kernel_spec(T::dtype_spec()) is Some
                        &&& d == dense.inner.storage.data->Gpu_0
                        &&& w == n
                        &&& self.compressed_outcome(d.ordinal, Ok(sparse))
                    },
                    Ok(_) => false,
                    Err(e) => if self.is_too_wide() {
                        self.compressed_outcome(dense.inner.storage.data->Gpu_0.ordinal, Err(e))
                    } else {
                        scatter_kernel_spec(T::dtype_spec()) is None && e
                            == FerrotorchError::GpuTensorNotAccessible
                    },
                }
            }
        } else if dense.data_error() is Some {
            r matches Err(e) && dense.data_error() == Some(e)
        } else {
            r matches Ok(Plan::Ready(t)) && t.is_dense_cpu(
                ctx.fresh,
                spmm_elements(self.coords(), self.values@, dense.logical(), m as int, n as int),
                seq![m, n],
            ) && self.spmm_grad(dense, ctx, t) && t.wf() && t.in_bounds()
        }
    }

    /// The product of a sparse matrix and a dense matrix.
    pub fn spmm(&self, dense: &Tensor<T>, ctx: Context) -> (r: FerrotorchResult<
        Plan<Tensor<T>, SpmmJob<T>>,
    >)
        requires
            self.wf(),
            dense.wf(),
            self.spmm_error(dense) is None ==> shape::shape_fits(
                seq![self.shape@[0], dense.inner.shape@[1]],
            ) && self.shape@[0] < usize::MAX,
        ensures
            self.spmm_outcome(dense, ctx, r),
    {
        if self.ndim() != 2 {
            return Err(
                FerrotorchError::InvalidArgument {
                    reason: Reason::NotMatrix { ndim: self.ndim() },
                },
            );
        }
        if dense.ndim() != 2 {
            return Err(
                FerrotorchError::InvalidArgument {
                    reason: Reason::NotMatrix { ndim: dense.ndim() },
                },
            );
        }
        let m: usize = self.shape[0];
        let k: usize = self.shape[1];
        let k_dense: usize = dense.shape()[0];
        let n: usize = dense.shape()[1];
        if k != k_dense {
            return Err(
                FerrotorchError::ShapeMismatch {
                    reason: Reason::InnerSizes { left: k, right: k_dense },
                },
            );
        }
        if dense.is_cuda() && ctx.backend {
            let handle: GpuBufferHandle = *dense.gpu_handle()?;
            if !dense.is_whole_buffer() {
                return Ok(Plan::Device(SpmmJob::MakeContiguous(dense.gather_from(handle))));
            }
            let sparse: CompressedArrays<T> = match self.compressed(handle.ordinal) {
                Ok(a) => a,
                Err(e) => return Err(e),
            };
            if let Some(_) = scatter_kernel(T::dtype()) {
                return Ok(Plan::Device(SpmmJob::Multiply { sparse, dense: handle, n }));
            }
            return Err(FerrotorchError::GpuTensorNotAccessible);
        }
        let data: &[T] = dense.data()?;
        proof {
            assert(self.shape@ =~= seq![m, k]);
            assert(dense.inner.shape@ =~= seq![k, n]);
        }
        let out: Vec<T> = self.spmm_host(data, m, k, n);
        let t: Tensor<T> = self.finish_spmm(dense, TensorStorage::cpu(out), m, n, ctx)?;
        Ok(Plan::Ready(t))
    }

    fn spmm_host(&self, dense: &[T], m: usize, k: usize, n: usize) -> (r: Vec<T>)
        requires
            self.wf(),
            self.shape@ == seq![m, k],
            shape::shape_fits(seq![m, n]),
            shape::shape_fits(seq![k, n]),
            dense@.len() == shape::prod(seq![k, n]),
        ensures
            r@ == spmm_elements(self.coords(), self.values@, dense@, m as int, n as int),
            r@.len() == shape::prod(seq![m, n]),
    {
        proof {
            lemma_matrix_prod(m, n);
            lemma_matrix_prod(k, n);
        }
        let mut out: Vec<T> = filled(T::zero(), m * n);
        let ghost ks = self.coords();
        let mut e: usize = 0;
        while e < self.indices.len()
            invariant
                e <= self.indices@.len(),
                self.wf(),
                ks == self.coords(),
                self.shape@ == seq![m, k],
                out@.len() == m * n,
                dense@.len() == k * n,
                m * n <= usize::MAX,
                k * n <= usize::MAX,
                forall|p: int|
                    0 <= p < m * n ==> #[trigger] out@[p] == spmm_cell(
                        ks,
                        self.values@,
                        dense@,
                        n as int,
                        e as int,
                        p / (n as int),
                        p % (n as int),
                    ),
            decreases self.indices.len() - e,
        {
            proof {
                assert(shape::in_shape(ks[e as int], self.shape@));
                assert(ks[e as int][0] < self.shape@[0] && ks[e as int][1] < self.shape@[1]);
            }
            let i: usize = self.indices[e][0];
            let j: usize = self.indices[e][1];
            add_scaled_row(&mut out, dense, self.values[e], i, j, n, m, k);
            e = e + 1;
        }
        proof {
            assert(out@ =~= spmm_elements(ks, self.values@, dense@, m as int, n as int));
        }
        out
    }

    /// The product over the storage that holds its elements.
    pub fn finish_spmm(
        &self,
        dense: &Tensor<T>,
        storage: TensorStorage<T>,
        m: usize,
        n: usize,
        ctx: Context,
    ) -> (r: FerrotorchResult<Tensor<T>>)
        requires
            self.wf(),
            self.shape@.len() == 2,
            storage.wf(),
            shape::shape_fits(seq![m, n]),
        ensures
            match r {
                Ok(t) => {
                    &&& shape::prod(seq![m, n]) <= storage.spec_len()
                    &&& t.is_dense(ctx.fresh, storage, seq![m, n])
                    &&& self.spmm_grad(dense, ctx, t)
                    &&& t.wf()
                    &&& t.in_bounds()
                },
                Err(e) => {
                    &&& shape::prod(seq![m, n]) > storage.spec_len()
                    &&& e == crate::tensor::too_small(seq![m, n], storage)
                },
            },
    {
        if ctx.grad_enabled && dense.requires_grad() {
            let sparse_t: SparseTensor<T> = self.t()?;
            return Tensor::from_operation(
                storage,
                matrix_shape(m, n),
                GradFn::Spmm(SpmmBackward { sparse_t, dense: dense.clone() }),
                ctx,
            );
        }
        Tensor::from_storage(storage, matrix_shape(m, n), false, ctx.fresh)
    }
}

/// The number of elements of a matrix.
pub proof fn lemma_matrix_prod(m: usize, n: usize)
    ensures
        shape::prod(seq![m, n]) == m * n,
        shape::shape_fits(seq![m, n]) ==> m * n <= isize::MAX,
        shape::suffix_prod(seq![m, n], 1) == n,
{
    reveal_with_fuel(shape::prod, 4);
    let s = seq![m, n];
    assert(s.drop_last() =~= seq![m]);
    assert(seq![m].drop_last() =~= Seq::<usize>::empty());
    assert(shape::prod(seq![m]) == 1 * m as nat);
    assert(1 * m as nat == m);
    assert(s.subrange(0, 2) =~= s);
    assert(shape::suffix_prod(s, 0) == shape::prod(s));
    assert(s.subrange(1, 2) =~= seq![n]);
    assert(seq![n].drop_last() =~= Seq::<usize>::empty());
    assert(1 * n as nat == n);
}

impl<T: Float> SpmmBackward<T> {
    /// The gradient of the dense operand: the transposed sparse matrix times the
    /// upstream gradient.
    pub fn backward(&self, grad_output: &Tensor<T>, ctx: Context) -> (r: FerrotorchResult<
        Plan<Tensor<T>, SpmmJob<T>>,
    >)
        requires
            self.sparse_t.wf(),
            grad_output.wf(),
            self.sparse_t.spmm_error(grad_output) is None ==> shape::shape_fits(
                seq![self.sparse_t.shape@[0], grad_output.inner.shape@[1]],
            ) && self.sparse_t.shape@[0] < usize::MAX,
        ensures
            self.sparse_t.spmm_outcome(grad_output, ctx, r),
    {
        self.sparse_t.spmm(grad_output, ctx)
    }
}

} // verus!
