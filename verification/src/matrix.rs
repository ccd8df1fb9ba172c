//! Sparse matrices: as a list of entries, and compressed by rows.

use crate::autograd::{Context, Plan, TensorId};
use crate::device::{Device, GpuBufferHandle};
use crate::dtype::{is_zero_spec, Float};
use crate::entries::{
    has_key, key_before, key_order_from, keys, lemma_merge_sorted, lemma_merged_len,
    merge_entries, merged, sorted_keys,
};
use crate::error::{Axis, FerrotorchError, FerrotorchResult, Reason};
use crate::layout::{
    bucket_starts, count_lt, expand_segments, first_too_wide, from_u32_vec, layout_fault,
    lemma_segment_exists, lemma_segment_unique, same_numbers, segment_of, to_u32_vec_checked,
    valid_layout, validate_compressed_layout,
};
use crate::regroup::lemma_segments_determine;
use crate::scatter::{copied, filled, scatter_add};
use crate::shape;
use crate::sparse_tensor::{
    columns_of, dense_elements, flat_positions, lemma_matrix_position, lemma_matrix_prod,
    matrix_shape, rows_of, CompressedArrays, DenseJob, EntryArrays,
};
use crate::storage::{StorageBuffer, TensorStorage};
use crate::tensor::Tensor;
use crate::update::{scatter_kernel, scatter_kernel_spec};
use vstd::prelude::*;

verus! {

/// The coordinates with these rows and columns.
pub open spec fn pairs(rows: Seq<usize>, cols: Seq<usize>) -> Seq<Seq<usize>> {
    Seq::new(rows.len(), |i: int| seq![rows[i], cols[i]])
}

/// The row-major position of a matrix coordinate.
pub proof fn lemma_matrix_ravel(i: usize, j: usize, m: usize, n: usize)
    ensures
        shape::ravel(seq![i, j], seq![m, n]) == i * n + j,
        i < m && j < n ==> shape::in_shape(seq![i, j], seq![m, n]),
{
    reveal_with_fuel(shape::ravel, 3);
    let k = seq![i, j];
    let s = seq![m, n];
    assert(k.drop_last() =~= seq![i]);
    assert(s.drop_last() =~= seq![m]);
    assert(seq![i].last() == i);
    assert(seq![m].drop_last().len() == 0);
    assert(shape::ravel(seq![i], seq![m]) == 0 * m + i);
    assert(0 * m == 0);
}

/// The pairs of rows and columns of a list of matrix coordinates are the list.
pub proof fn lemma_pairs_of(ks: Seq<Seq<usize>>)
    requires
        forall|i: int| 0 <= i < ks.len() ==> (#[trigger] ks[i]).len() == 2,
    ensures
        pairs(rows_of(ks), columns_of(ks)) == ks,
{
    assert forall|i: int| 0 <= i < ks.len() implies pairs(rows_of(ks), columns_of(ks))[i]
        == ks[i] by {
        assert(ks[i].len() == 2);
        assert(pairs(rows_of(ks), columns_of(ks))[i] =~= ks[i]);
    }
    assert(pairs(rows_of(ks), columns_of(ks)) =~= ks);
}

/// The dense host matrix that a list of entries stands for.
pub open spec fn is_dense_matrix<T: Float>(
    t: Tensor<T>,
    ks: Seq<Seq<usize>>,
    vals: Seq<T>,
    m: usize,
    n: usize,
    id: TensorId,
) -> bool {
    &&& t.is_dense_cpu(id, dense_elements(ks, vals, seq![m, n]), seq![m, n])
    &&& t.is_plain(false)
    &&& t.wf()
    &&& t.in_bounds()
}

/// The dense host matrix of a list of entries.
pub(crate) fn dense_matrix<T: Float>(
    rows: &[usize],
    cols: &[usize],
    values: &[T],
    m: usize,
    n: usize,
    id: TensorId,
) -> (r: FerrotorchResult<Tensor<T>>)
    requires
        rows@.len() == values@.len(),
        cols@.len() == values@.len(),
        forall|i: int| 0 <= i < rows@.len() ==> #[trigger] rows@[i] < m,
        forall|i: int| 0 <= i < cols@.len() ==> #[trigger] cols@[i] < n,
        shape::shape_fits(seq![m, n]),
    ensures
        r matches Ok(t) && is_dense_matrix(t, pairs(rows@, cols@), values@, m, n, id),
{
    proof {
        lemma_matrix_prod(m, n);
    }
    let total: usize = m * n;
    let mut data: Vec<T> = filled(T::zero(), total);
    let mut at: Vec<usize> = Vec::new();
    let mut i: usize = 0;
    while i < rows.len()
        invariant
            i <= rows@.len(),
            rows@.len() == cols@.len(),
            total == m * n,
            forall|j: int| 0 <= j < rows@.len() ==> #[trigger] rows@[j] < m,
            forall|j: int| 0 <= j < cols@.len() ==> #[trigger] cols@[j] < n,
            at@.len() == i,
            forall|j: int| 0 <= j < i ==> #[trigger] at@[j] == rows@[j] * n + cols@[j],
            forall|j: int| 0 <= j < i ==> #[trigger] at@[j] < total,
        decreases rows.len() - i,
    {
        let row: usize = rows[i];
        let col: usize = cols[i];
        proof {
            lemma_matrix_position(row as int, col as int, n as int, m as int);
            assert(0 <= row * n) by (nonlinear_arith);
        }
        at.push(row * n + col);
        i = i + 1;
    }
    scatter_add(&mut data, at.as_slice(), values);
    proof {
        let ks = pairs(rows@, cols@);
        assert forall|j: int| 0 <= j < at@.len() implies at@[j] == flat_positions(
            ks,
            seq![m, n],
        )[j] by {
            lemma_matrix_ravel(rows@[j], cols@[j], m, n);
        }
        assert(at@ =~= flat_positions(ks, seq![m, n]));
        assert(data@ =~= dense_elements(ks, values@, seq![m, n]));
    }
    Tensor::from_storage(TensorStorage::cpu(data), matrix_shape(m, n), false, id)
}

/// What a dense host matrix comes to on another device.
pub open spec fn moved_matrix<T: Float>(
    ks: Seq<Seq<usize>>,
    vals: Seq<T>,
    m: usize,
    n: usize,
    device: Device,
    ctx: Context,
    r: FerrotorchResult<Plan<Tensor<T>, DenseJob<T>>>,
) -> bool {
    exists|t: Tensor<T>|
        {
            &&& #[trigger] is_dense_matrix(t, ks, vals, m, n, ctx.fresh)
            &&& match r {
                Ok(Plan::Ready(x)) => t.to_outcome(device, ctx, Ok(Plan::Ready(x))),
                Ok(Plan::Device(DenseJob::Move(j))) => t.to_outcome(
                    device,
                    ctx,
                    Ok(Plan::Device(j)),
                ),
                Ok(_) => false,
                Err(e) => t.to_outcome(device, ctx, Err(e)),
            }
        }
}

/// Moves a dense host matrix to a device.
pub(crate) fn move_matrix<T: Float>(
    t: Tensor<T>,
    device: Device,
    ctx: Context,
    Ghost(ks): Ghost<Seq<Seq<usize>>>,
    Ghost(vals): Ghost<Seq<T>>,
    Ghost(m): Ghost<usize>,
    Ghost(n): Ghost<usize>,
) -> (r: FerrotorchResult<Plan<Tensor<T>, DenseJob<T>>>)
    requires
        is_dense_matrix(t, ks, vals, m, n, ctx.fresh),
    ensures
        moved_matrix(ks, vals, m, n, device, ctx, r),
{
    match t.to(device, ctx) {
        Ok(Plan::Ready(x)) => Ok(Plan::Ready(x)),
        Ok(Plan::Device(j)) => Ok(Plan::Device(DenseJob::Move(j))),
        Err(e) => Err(e),
    }
}

/// The dense matrix over the device buffer that holds its elements.
pub fn finish_dense<T: Float>(
    handle: GpuBufferHandle,
    nrows: usize,
    ncols: usize,
    id: TensorId,
) -> (r: FerrotorchResult<Tensor<T>>)
    requires
        shape::shape_fits(seq![nrows, ncols]),
    ensures
        match r {
            Ok(t) => {
                &&& nrows * ncols <= handle.len
                &&& t.inner.storage.data == StorageBuffer::<T>::Gpu(handle)
                &&& t.inner.storage.device == Device::Cuda(handle.ordinal)
                &&& t.inner.id == id
                &&& t.inner.object == id
                &&& t.inner.shape@ == seq![nrows, ncols]
                &&& shape::is_contiguous_strides(t.inner.strides@, seq![nrows, ncols])
                &&& t.inner.offset == 0
                &&& t.is_plain(false)
                &&& t.wf()
                &&& t.in_bounds()
            },
            Err(e) => {
                &&& nrows * ncols > handle.len
                &&& e == (FerrotorchError::ShapeMismatch {
                    reason: Reason::StorageTooSmall {
                        numel: (nrows * ncols) as usize,
                        len: handle.len,
                    },
                })
            },
        },
{
    proof {
        lemma_matrix_prod(nrows, ncols);
    }
    Tensor::from_storage(TensorStorage::gpu(handle), matrix_shape(nrows, ncols), false, id)
}

/// A sparse matrix as a list of entries.
#[derive(Debug)]
pub struct CooTensor<T: Float> {
    pub row_indices: Vec<usize>,
    pub col_indices: Vec<usize>,
    pub values: Vec<T>,
    pub nrows: usize,
    pub ncols: usize,
    pub is_coalesced: bool,
}

impl<T: Float> Clone for CooTensor<T> {
    fn clone(&self) -> (r: Self)
        ensures
            r.row_indices@ == self.row_indices@,
            r.col_indices@ == self.col_indices@,
            r.values@ == self.values@,
            r.nrows == self.nrows,
            r.ncols == self.ncols,
            r.is_coalesced == self.is_coalesced,
            self.wf() ==> r.wf(),
    {
        CooTensor {
            row_indices: copied(self.row_indices.as_slice()),
            col_indices: copied(self.col_indices.as_slice()),
            values: copied(self.values.as_slice()),
            nrows: self.nrows,
            ncols: self.ncols,
            is_coalesced: self.is_coalesced,
        }
    }
}

/// A sparse matrix compressed by rows: the entries of row `r` are those from
/// `row_ptrs[r]` to below `row_ptrs[r + 1]`.
#[derive(Debug)]
pub struct CsrTensor<T: Float> {
    pub row_ptrs: Vec<usize>,
    pub col_indices: Vec<usize>,
    pub values: Vec<T>,
    pub nrows: usize,
    pub ncols: usize,
}

impl<T: Float> Clone for CsrTensor<T> {
    fn clone(&self) -> (r: Self)
        ensures
            r.row_ptrs@ == self.row_ptrs@,
            r.col_indices@ == self.col_indices@,
            r.values@ == self.values@,
            r.nrows == self.nrows,
            r.ncols == self.ncols,
            self.wf() ==> r.wf(),
    {
        CsrTensor {
            row_ptrs: copied(self.row_ptrs.as_slice()),
            col_indices: copied(self.col_indices.as_slice()),
            values: copied(self.values.as_slice()),
            nrows: self.nrows,
            ncols: self.ncols,
        }
    }
}

impl<T: Float> CooTensor<T> {
    /// As many rows and columns as values, all within the matrix; if the entries are in
    /// canonical form, every coordinate occurs once, in order, and no value is zero.
    pub open spec fn wf(&self) -> bool {
        &&& self.row_indices@.len() == self.values@.len()
        &&& self.col_indices@.len() == self.values@.len()
        &&& self.is_coalesced ==> sorted_keys(self.coords()) && forall|i: int|
            0 <= i < self.values@.len() ==> !is_zero_spec(#[trigger] self.values@[i])
        &&& forall|i: int|
            0 <= i < self.row_indices@.len() ==> #[trigger] self.row_indices@[i] < self.nrows
        &&& forall|i: int|
            0 <= i < self.col_indices@.len() ==> #[trigger] self.col_indices@[i] < self.ncols
    }

    /// The coordinates of the entries.
    pub open spec fn coords(&self) -> Seq<Seq<usize>> {
        pairs(self.row_indices@, self.col_indices@)
    }

    /// A sparse matrix of these entries.
    pub fn new(
        row_indices: Vec<usize>,
        col_indices: Vec<usize>,
        values: Vec<T>,
        nrows: usize,
        ncols: usize,
    ) -> (r: FerrotorchResult<Self>)
        ensures
            match r {
                Ok(t) => {
                    &&& t.wf()
                    &&& t.row_indices@ == row_indices@
                    &&& t.col_indices@ == col_indices@
                    &&& t.values@ == values@
                    &&& t.nrows == nrows
                    &&& t.ncols == ncols
                    &&& !t.is_coalesced
                },
                Err(e) => if row_indices@.len() != values@.len() {
                    e == (FerrotorchError::InvalidArgument {
                        reason: Reason::LengthMismatch {
                            left: row_indices@.len() as usize,
                            right: values@.len() as usize,
                        },
                    })
                } else if col_indices@.len() != values@.len() {
                    e == (FerrotorchError::InvalidArgument {
                        reason: Reason::LengthMismatch {
                            left: col_indices@.len() as usize,
                            right: values@.len() as usize,
                        },
                    })
                } else {
                    exists|i: int|
                        {
                            &&& 0 <= i < values@.len()
                            &&& forall|j: int|
                                0 <= j < i ==> #[trigger] row_indices@[j] < nrows && col_indices@[j]
                                    < ncols
                            &&& if #[trigger] row_indices@[i] >= nrows {
                                e == (FerrotorchError::IndexOutOfBounds {
                                    index: row_indices@[i],
                                    axis: 0,
                                    size: nrows,
                                })
                            } else {
                                col_indices@[i] >= ncols && e == (
                                FerrotorchError::IndexOutOfBounds {
                                    index: col_indices@[i],
                                    axis: 1,
                                    size: ncols,
                                })
                            }
                        }
                },
            },
    {
        if row_indices.len() != values.len() {
            return Err(
                FerrotorchError::InvalidArgument {
                    reason: Reason::LengthMismatch {
                        left: row_indices.len(),
                        right: values.len(),
                    },
                },
            );
        }
        if col_indices.len() != values.len() {
            return Err(
                FerrotorchError::InvalidArgument {
                    reason: Reason::LengthMismatch {
                        left: col_indices.len(),
                        right: values.len(),
                    },
                },
            );
        }
        let mut i: usize = 0;
        while i < values.len()
            invariant
                i <= values@.len(),
                row_indices@.len() == values@.len(),
                col_indices@.len() == values@.len(),
                forall|j: int| 0 <= j < i ==> #[trigger] row_indices@[j] < nrows,
                forall|j: int| 0 <= j < i ==> #[trigger] col_indices@[j] < ncols,
            decreases values.len() - i,
        {
            if row_indices[i] >= nrows {
                return Err(
                    FerrotorchError::IndexOutOfBounds {
                        index: row_indices[i],
                        axis: 0,
                        size: nrows,
                    },
                );
            }
            if col_indices[i] >= ncols {
                proof {
                    assert(row_indices@[i as int] < nrows);
                }
                return Err(
                    FerrotorchError::IndexOutOfBounds {
                        index: col_indices[i],
                        axis: 1,
                        size: ncols,
                    },
                );
            }
            i = i + 1;
        }
        Ok(CooTensor { row_indices, col_indices, values, nrows, ncols, is_coalesced: false })
    }

    /// Number of stored entries.
    pub fn nnz(&self) -> (r: usize)
        ensures
            r == self.values@.len(),
    {
        self.values.len()
    }

    /// Whether the entries are in canonical form.
    pub fn is_coalesced(&self) -> (r: bool)
        ensures
            r == self.is_coalesced,
    {
        self.is_coalesced
    }

    /// The rows of the entries.
    pub fn row_indices(&self) -> (r: &[usize])
        ensures
            r@ == self.row_indices@,
    {
        self.row_indices.as_slice()
    }

    /// The columns of the entries.
    pub fn col_indices(&self) -> (r: &[usize])
        ensures
            r@ == self.col_indices@,
    {
        self.col_indices.as_slice()
    }

    /// The values of the entries.
    pub fn values(&self) -> (r: &[T])
        ensures
            r@ == self.values@,
    {
        self.values.as_slice()
    }

    /// Number of rows.
    pub fn nrows(&self) -> (r: usize)
        ensures
            r == self.nrows,
    {
        self.nrows
    }

    /// Number of columns.
    pub fn ncols(&self) -> (r: usize)
        ensures
            r == self.ncols,
    {
        self.ncols
    }

    /// The canonical form: every coordinate at most once, in order of row and column,
    /// without entries whose sum compares equal to zero.
    pub fn coalesce(&self) -> (r: Self)
        requires
            self.wf(),
        ensures
            r.wf(),
            r.nrows == self.nrows,
            r.ncols == self.ncols,
            r.is_coalesced,
            merged(self.coords(), self.values@, true, r.coords(), r.values@),
            r.values@.len() <= self.values@.len(),
    {
        let indices: Vec<Vec<usize>> = pair_up(
            self.row_indices.as_slice(),
            self.col_indices.as_slice(),
        );
        proof {
            assert(keys(indices@).len() == self.values@.len());
        }
        let (out, values): (Vec<Vec<usize>>, Vec<T>) = merge_entries(
            &indices,
            &self.values,
            true,
        );
        proof {
            lemma_merged_in_matrix(
                self.coords(),
                self.values@,
                true,
                keys(out@),
                values@,
                self.nrows,
                self.ncols,
            );
        }
        let (row_indices, col_indices): (Vec<usize>, Vec<usize>) = split_pairs(&out);
        proof {
            lemma_pairs_of(keys(out@));
            lemma_merged_len(self.coords(), self.values@, true, keys(out@), values@);
            assert forall|i: int| 0 <= i < values@.len() implies !is_zero_spec(
                #[trigger] values@[i],
            ) by {
                assert(has_key(self.coords(), self.coords().len() as int, keys(out@)[i]));
            }
        }
        CooTensor {
            row_indices,
            col_indices,
            values,
            nrows: self.nrows,
            ncols: self.ncols,
            is_coalesced: true,
        }
    }

    /// The dense host matrix.
    pub fn to_dense(&self, id: TensorId) -> (r: FerrotorchResult<Tensor<T>>)
        requires
            self.wf(),
            shape::shape_fits(seq![self.nrows, self.ncols]),
        ensures
            r matches Ok(t) && is_dense_matrix(
                t,
                self.coords(),
                self.values@,
                self.nrows,
                self.ncols,
                id,
            ),
    {
        dense_matrix(
            self.row_indices.as_slice(),
            self.col_indices.as_slice(),
            self.values.as_slice(),
            self.nrows,
            self.ncols,
            id,
        )
    }

    /// The canonical entries with 32-bit indices.
    pub open spec fn entry_outcome(
        &self,
        ordinal: usize,
        r: FerrotorchResult<EntryArrays<T>>,
    ) -> bool {
        exists|c: CooTensor<T>|
            {
                &&& #[trigger] merged(
                    self.coords(),
                    self.values@,
                    true,
                    c.coords(),
                    c.values@,
                )
                &&& c.wf()
                &&& match r {
                    Ok(a) => a.holds(c.coords(), c.values@, self.nrows, self.ncols, ordinal),
                    Err(e) => first_too_wide(rows_of(c.coords()), e) || (first_too_wide(
                        columns_of(c.coords()),
                        e,
                    ) && forall|i: int|
                        0 <= i < c.row_indices@.len() ==> #[trigger] c.row_indices@[i] <= u32::MAX),
                }
            }
    }

    fn entry_arrays(&self, ordinal: usize) -> (r: FerrotorchResult<EntryArrays<T>>)
        requires
            self.wf(),
        ensures
            self.entry_outcome(ordinal, r),
    {
        let c: CooTensor<T> = self.coalesce();
        proof {
            assert(rows_of(c.coords()) =~= c.row_indices@);
            assert(columns_of(c.coords()) =~= c.col_indices@);
        }
        let rows: Vec<u32> = match to_u32_vec_checked(c.row_indices.as_slice()) {
            Ok(v) => v,
            Err(e) => return Err(e),
        };
        proof {
            assert forall|k: int| 0 <= k < c.row_indices@.len() implies #[trigger] c.row_indices@[k]
                <= u32::MAX by {
                assert(rows@[k] == c.row_indices@[k]);
            }
        }
        let cols: Vec<u32> = match to_u32_vec_checked(c.col_indices.as_slice()) {
            Ok(v) => v,
            Err(e) => return Err(e),
        };
        let a = EntryArrays {
            rows,
            cols,
            values: copied(c.values.as_slice()),
            ordinal,
            nrows: c.nrows,
            ncols: c.ncols,
        };
        proof {
            assert(a.holds(c.coords(), c.values@, self.nrows, self.ncols, ordinal));
        }
        Ok(a)
    }

    /// The dense matrix on a device.
    pub fn to_dense_on(&self, device: Device, ctx: Context) -> (r: FerrotorchResult<
        Plan<Tensor<T>, DenseJob<T>>,
    >)
        requires
            self.wf(),
            shape::shape_fits(seq![self.nrows, self.ncols]),
        ensures
            match device {
                Device::Cuda(ordinal) if ctx.backend && scatter_kernel_spec(T::dtype_spec()) is Some
                => match r {
                    Ok(Plan::Device(DenseJob::ExpandEntries(a))) => self.entry_outcome(
                        ordinal,
                        Ok(a),
                    ),
                    Ok(_) => false,
                    Err(e) => self.entry_outcome(ordinal, Err(e)),
                },
                _ => moved_matrix(
                    self.coords(),
                    self.values@,
                    self.nrows,
                    self.ncols,
                    device,
                    ctx,
                    r,
                ),
            },
    {
        if let Device::Cuda(ordinal) = device {
            if ctx.backend {
                if let Some(_) = scatter_kernel(T::dtype()) {
                    return match self.entry_arrays(ordinal) {
                        Ok(a) => Ok(Plan::Device(DenseJob::ExpandEntries(a))),
                        Err(e) => Err(e),
                    };
                }
            }
        }
        let t: Tensor<T> = self.to_dense(ctx.fresh)?;
        move_matrix(
            t,
            device,
            ctx,
            Ghost(self.coords()),
            Ghost(self.values@),
            Ghost(self.nrows),
            Ghost(self.ncols),
        )
    }

    /// The entries of a matrix that is compressed by rows, in their order.
    pub fn from_csr(csr: &CsrTensor<T>) -> (r: Self)
        requires
            csr.wf(),
        ensures
            r.wf(),
            r.coords() == csr.coords(),
            r.values@ == csr.values@,
            r.nrows == csr.nrows,
            r.ncols == csr.ncols,
            !r.is_coalesced,
    {
        let rows: Vec<usize> = csr.rows();
        let r = CooTensor {
            row_indices: rows,
            col_indices: copied(csr.col_indices.as_slice()),
            values: copied(csr.values.as_slice()),
            nrows: csr.nrows,
            ncols: csr.ncols,
            is_coalesced: false,
        };
        proof {
            assert(r.coords() =~= csr.coords());
        }
        r
    }
}

/// A list of coordinates from rows and columns.
pub(crate) fn pair_up(rows: &[usize], cols: &[usize]) -> (r: Vec<Vec<usize>>)
    requires
        rows@.len() == cols@.len(),
    ensures
        keys(r@) == pairs(rows@, cols@),
{
    let mut out: Vec<Vec<usize>> = Vec::new();
    let mut i: usize = 0;
    while i < rows.len()
        invariant
            i <= rows@.len(),
            rows@.len() == cols@.len(),
            out@.len() == i,
            forall|j: int| 0 <= j < i ==> (#[trigger] out@[j])@ == pairs(rows@, cols@)[j],
        decreases rows.len() - i,
    {
        out.push(matrix_shape(rows[i], cols[i]));
        i = i + 1;
    }
    proof {
        assert(keys(out@) =~= pairs(rows@, cols@));
    }
    out
}

/// The rows and the columns of a list of matrix coordinates.
pub fn split_pairs(indices: &Vec<Vec<usize>>) -> (r: (Vec<usize>, Vec<usize>))
    requires
        forall|i: int| 0 <= i < indices@.len() ==> (#[trigger] keys(indices@)[i]).len() == 2,
    ensures
        r.0@ == rows_of(keys(indices@)),
        r.1@ == columns_of(keys(indices@)),
{
    let mut rows: Vec<usize> = Vec::new();
    let mut cols: Vec<usize> = Vec::new();
    let mut i: usize = 0;
    while i < indices.len()
        invariant
            i <= indices@.len(),
            forall|j: int| 0 <= j < indices@.len() ==> (#[trigger] keys(indices@)[j]).len() == 2,
            rows@.len() == i,
            cols@.len() == i,
            forall|j: int| 0 <= j < i ==> #[trigger] rows@[j] == keys(indices@)[j][0],
            forall|j: int| 0 <= j < i ==> #[trigger] cols@[j] == keys(indices@)[j][1],
        decreases indices.len() - i,
    {
        proof {
            assert(keys(indices@)[i as int].len() == 2);
        }
        rows.push(indices[i][0]);
        cols.push(indices[i][1]);
        i = i + 1;
    }
    proof {
        assert(rows@ =~= rows_of(keys(indices@)));
        assert(cols@ =~= columns_of(keys(indices@)));
    }
    (rows, cols)
}

/// The merged form of matrix entries stays within the matrix.
pub proof fn lemma_merged_in_matrix<T: Float>(
    ks: Seq<Seq<usize>>,
    vals: Seq<T>,
    drop_zeros: bool,
    out: Seq<Seq<usize>>,
    sums: Seq<T>,
    m: usize,
    n: usize,
)
    requires
        merged(ks, vals, drop_zeros, out, sums),
        forall|i: int|
            0 <= i < ks.len() ==> (#[trigger] ks[i]).len() == 2 && ks[i][0] < m && ks[i][1] < n,
    ensures
        forall|i: int|
            0 <= i < out.len() ==> (#[trigger] out[i]).len() == 2 && out[i][0] < m && out[i][1] < n,
        forall|i: int, j: int| 0 <= i <= j < out.len() ==> (#[trigger] out[i])[0] <= (
        #[trigger] out[j])[0],
{
    assert forall|i: int| 0 <= i < out.len() implies (#[trigger] out[i]).len() == 2 && out[i][0] < m
        && out[i][1] < n by {
        assert(has_key(ks, ks.len() as int, out[i]));
        let j = choose|j: int| 0 <= j < ks.len() && #[trigger] ks[j] == out[i];
        assert(ks[j].len() == 2);
    }
    assert forall|i: int, j: int| 0 <= i <= j < out.len() implies (#[trigger] out[i])[0] <= (
    #[trigger] out[j])[0] by {
        if i < j {
            assert(key_before(out[i], out[j]));
            assert(out[i].len() == 2 && out[j].len() == 2);
            reveal_with_fuel(key_order_from, 2);
        }
    }
}

/// In a list that does not decrease, position `k` lies in the bucket of its number.
pub proof fn lemma_sorted_bucket(s: Seq<usize>, n: int, k: int)
    requires
        0 <= k < n <= s.len(),
        forall|i: int, j: int| 0 <= i <= j < s.len() ==> #[trigger] s[i] <= #[trigger] s[j],
    ensures
        count_lt(s, n, s[k] as int) <= k < count_lt(s, n, s[k] + 1),
    decreases n,
{
    let c = s[k] as int;
    assert(s[k] <= s[n - 1]);
    if n - 1 > k {
        lemma_sorted_bucket(s, n - 1, k);
    } else {
        lemma_sorted_all_below(s, k, c + 1);
        crate::layout::lemma_count_bounds(s, n - 1, c);
    }
}

proof fn lemma_sorted_all_below(s: Seq<usize>, k: int, c: int)
    requires
        0 <= k < s.len(),
        s[k] < c,
        forall|i: int, j: int| 0 <= i <= j < s.len() ==> #[trigger] s[i] <= #[trigger] s[j],
    ensures
        count_lt(s, k, c) == k,
    decreases k,
{
    if k > 0 {
        assert(s[k - 1] <= s[k]);
        lemma_sorted_all_below(s, k - 1, c);
    }
}

impl<T: Float> CsrTensor<T> {
    /// A valid layout of as many columns as values.
    pub open spec fn wf(&self) -> bool {
        &&& self.row_ptrs@.len() == self.nrows + 1
        &&& self.col_indices@.len() == self.values@.len()
        &&& valid_layout(
            self.row_ptrs@,
            self.col_indices@,
            self.values@.len() as int,
            self.ncols as int,
        )
    }

    /// The row of each entry.
    pub open spec fn entry_rows(&self) -> Seq<usize> {
        Seq::new(self.values@.len(), |k: int| segment_of(self.row_ptrs@, k) as usize)
    }

    /// The coordinates of the entries.
    pub open spec fn coords(&self) -> Seq<Seq<usize>> {
        pairs(self.entry_rows(), self.col_indices@)
    }

    /// The rows of the entries lie within the matrix.
    pub proof fn lemma_rows(&self)
        requires
            self.wf(),
        ensures
            forall|k: int|
                0 <= k < self.values@.len() ==> {
                    &&& #[trigger] self.entry_rows()[k] < self.nrows
                    &&& self.entry_rows()[k] == segment_of(self.row_ptrs@, k)
                    &&& self.row_ptrs@[self.entry_rows()[k] as int] <= k
                    &&& k < self.row_ptrs@[self.entry_rows()[k] + 1]
                },
    {
        assert forall|k: int| 0 <= k < self.values@.len() implies {
            &&& #[trigger] self.entry_rows()[k] < self.nrows
            &&& self.entry_rows()[k] == segment_of(self.row_ptrs@, k)
            &&& self.row_ptrs@[self.entry_rows()[k] as int] <= k
            &&& k < self.row_ptrs@[self.entry_rows()[k] + 1]
        } by {
            lemma_segment_exists(self.row_ptrs@, k);
        }
    }

    /// The row of each entry.
    pub fn rows(&self) -> (r: Vec<usize>)
        requires
            self.wf(),
        ensures
            r@ == self.entry_rows(),
            forall|k: int| 0 <= k < r@.len() ==> #[trigger] r@[k] < self.nrows,
    {
        let r: Vec<usize> = expand_segments(self.row_ptrs.as_slice(), self.values.len());
        proof {
            assert(r@ =~= self.entry_rows());
        }
        r
    }

    /// A matrix compressed by rows from its parts.
    pub fn new(
        row_ptrs: Vec<usize>,
        col_indices: Vec<usize>,
        values: Vec<T>,
        nrows: usize,
        ncols: usize,
    ) -> (r: FerrotorchResult<Self>)
        ensures
            match r {
                Ok(t) => {
                    &&& t.wf()
                    &&& t.row_ptrs@ == row_ptrs@
                    &&& t.col_indices@ == col_indices@
                    &&& t.values@ == values@
                    &&& t.nrows == nrows
                    &&& t.ncols == ncols
                },
                Err(e) => parts_fault(
                    row_ptrs@,
                    col_indices@,
                    values@.len(),
                    nrows,
                    ncols,
                    Axis::Rows,
                    e,
                ),
            },
    {
        check_parts(
            row_ptrs.as_slice(),
            col_indices.as_slice(),
            values.len(),
            nrows,
            ncols,
            Axis::Rows,
        )?;
        Ok(CsrTensor { row_ptrs, col_indices, values, nrows, ncols })
    }

    /// The canonical entries of a list, compressed by rows.
    pub fn from_coo(coo: &CooTensor<T>) -> (r: FerrotorchResult<Self>)
        requires
            coo.wf(),
            coo.nrows < usize::MAX,
        ensures
            r matches Ok(t) && t.wf() && t.nrows == coo.nrows && t.ncols == coo.ncols && merged(
                coo.coords(),
                coo.values@,
                true,
                t.coords(),
                t.values@,
            ),
    {
        let c: CooTensor<T> = coo.coalesce();
        let row_ptrs: Vec<usize> = bucket_starts(c.row_indices.as_slice(), coo.nrows);
        let ghost rows = c.row_indices@;
        let t = CsrTensor {
            row_ptrs,
            col_indices: c.col_indices,
            values: c.values,
            nrows: coo.nrows,
            ncols: coo.ncols,
        };
        proof {
            lemma_merged_in_matrix(
                coo.coords(),
                coo.values@,
                true,
                c.coords(),
                c.values@,
                coo.nrows,
                coo.ncols,
            );
            assert forall|i: int, j: int| 0 <= i <= j < rows.len() implies #[trigger] rows[i]
                <= #[trigger] rows[j] by {
                assert(c.coords()[i][0] <= c.coords()[j][0]);
            }
            assert forall|k: int| 0 <= k < rows.len() implies t.entry_rows()[k] == rows[k] by {
                lemma_sorted_bucket(rows, rows.len() as int, k);
                assert(rows[k] < coo.nrows);
                lemma_segment_unique(t.row_ptrs@, rows[k] as int, k);
            }
            assert(t.coords() =~= c.coords());
        }
        Ok(t)
    }

    /// Number of stored entries.
    pub fn nnz(&self) -> (r: usize)
        ensures
            r == self.values@.len(),
    {
        self.values.len()
    }

    /// The row pointers.
    pub fn row_ptrs(&self) -> (r: &[usize])
        ensures
            r@ == self.row_ptrs@,
    {
        self.row_ptrs.as_slice()
    }

    /// The columns of the entries.
    pub fn col_indices(&self) -> (r: &[usize])
        ensures
            r@ == self.col_indices@,
    {
        self.col_indices.as_slice()
    }

    /// The values of the entries.
    pub fn values(&self) -> (r: &[T])
        ensures
            r@ == self.values@,
    {
        self.values.as_slice()
    }

    /// The dense host matrix.
    pub fn to_dense(&self, id: TensorId) -> (r: FerrotorchResult<Tensor<T>>)
        requires
            self.wf(),
            shape::shape_fits(seq![self.nrows, self.ncols]),
        ensures
            r matches Ok(t) && is_dense_matrix(
                t,
                self.coords(),
                self.values@,
                self.nrows,
                self.ncols,
                id,
            ),
    {
        let rows: Vec<usize> = self.rows();
        dense_matrix(
            rows.as_slice(),
            self.col_indices.as_slice(),
            self.values.as_slice(),
            self.nrows,
            self.ncols,
            id,
        )
    }

    /// The dense matrix on a device.
    pub fn to_dense_on(&self, device: Device, ctx: Context) -> (r: FerrotorchResult<
        Plan<Tensor<T>, DenseJob<T>>,
    >)
        requires
            self.wf(),
            shape::shape_fits(seq![self.nrows, self.ncols]),
        ensures
            match device {
                Device::Cuda(ordinal) if ctx.backend && scatter_kernel_spec(T::dtype_spec()) is Some
                => match r {
                    Ok(Plan::Device(DenseJob::Expand(a))) => narrowed(
                        self.row_ptrs@,
                        self.col_indices@,
                        self.values@,
                        self.nrows,
                        self.ncols,
                        ordinal,
                        Ok(a),
                    ),
                    Ok(_) => false,
                    Err(e) => narrowed(
                        self.row_ptrs@,
                        self.col_indices@,
                        self.values@,
                        self.nrows,
                        self.ncols,
                        ordinal,
                        Err(e),
                    ),
                },
                _ => moved_matrix(
                    self.coords(),
                    self.values@,
                    self.nrows,
                    self.ncols,
                    device,
                    ctx,
                    r,
                ),
            },
    {
        if let Device::Cuda(ordinal) = device {
            if ctx.backend {
                if let Some(_) = scatter_kernel(T::dtype()) {
                    return match narrow(
                        self.row_ptrs.as_slice(),
                        self.col_indices.as_slice(),
                        self.values.as_slice(),
                        self.nrows,
                        self.ncols,
                        ordinal,
                    ) {
                        Ok(a) => Ok(Plan::Device(DenseJob::Expand(a))),
                        Err(e) => Err(e),
                    };
                }
            }
        }
        let t: Tensor<T> = self.to_dense(ctx.fresh)?;
        move_matrix(
            t,
            device,
            ctx,
            Ghost(self.coords()),
            Ghost(self.values@),
            Ghost(self.nrows),
            Ghost(self.ncols),
        )
    }

    /// The canonical entries of a list, compressed by rows, on a CUDA device where it
    /// can.
    pub fn from_coo_on(coo: &CooTensor<T>, device: Device, ctx: Context) -> (r: FerrotorchResult<
        Plan<Self, EntryArrays<T>>,
    >)
        requires
            coo.wf(),
            coo.nrows < usize::MAX,
        ensures
            match device {
                Device::Cuda(ordinal) if ctx.backend && scatter_kernel_spec(T::dtype_spec()) is Some
                => match r {
                    Ok(Plan::Device(a)) => coo.entry_outcome(ordinal, Ok(a)),
                    Ok(_) => false,
                    Err(e) => coo.entry_outcome(ordinal, Err(e)),
                },
                _ => r matches Ok(Plan::Ready(t)) && t.wf() && t.nrows == coo.nrows && t.ncols
                    == coo.ncols && merged(
                    coo.coords(),
                    coo.values@,
                    true,
                    t.coords(),
                    t.values@,
                ),
            },
    {
        if let Device::Cuda(ordinal) = device {
            if ctx.backend {
                if let Some(_) = scatter_kernel(T::dtype()) {
                    return match coo.entry_arrays(ordinal) {
                        Ok(a) => Ok(Plan::Device(a)),
                        Err(e) => Err(e),
                    };
                }
            }
        }
        Ok(Plan::Ready(Self::from_coo(coo)?))
    }

    /// The matrix whose parts, with 32-bit indices, came back from a device.
    pub fn from_device_parts(
        pointers: &[u32],
        indices: &[u32],
        values: Vec<T>,
        nrows: usize,
        ncols: usize,
    ) -> (r: FerrotorchResult<Self>)
        ensures
            match r {
                Ok(t) => {
                    &&& t.wf()
                    &&& same_numbers(pointers@, t.row_ptrs@)
                    &&& same_numbers(indices@, t.col_indices@)
                    &&& t.values@ == values@
                    &&& t.nrows == nrows
                    &&& t.ncols == ncols
                },
                Err(e) => exists|p: Seq<usize>, i: Seq<usize>|
                    #![trigger same_numbers(pointers@, p), same_numbers(indices@, i)]
                    same_numbers(pointers@, p) && same_numbers(indices@, i) && parts_fault(
                        p,
                        i,
                        values@.len(),
                        nrows,
                        ncols,
                        Axis::Rows,
                        e,
                    ),
            },
    {
        Self::new(from_u32_vec(pointers), from_u32_vec(indices), values, nrows, ncols)
    }
}

/// A matrix compressed by rows comes back unchanged from its list of entries, where
/// its entries stand in strict order of row and column, none is zero, and adding to
/// zero changes none.
pub proof fn lemma_csr_coo_round_trip<T: Float>(
    csr: CsrTensor<T>,
    coo: CooTensor<T>,
    t: CsrTensor<T>,
)
    requires
        csr.wf(),
        sorted_keys(csr.coords()),
        forall|i: int|
            0 <= i < csr.values@.len() ==> !is_zero_spec(#[trigger] csr.values@[i])
                && T::zero_spec().plus(csr.values@[i]) == csr.values@[i],
        coo.coords() == csr.coords(),
        coo.values@ == csr.values@,
        t.wf(),
        t.nrows == csr.nrows,
        merged(coo.coords(), coo.values@, true, t.coords(), t.values@),
    ensures
        t.row_ptrs@ == csr.row_ptrs@,
        t.col_indices@ == csr.col_indices@,
        t.values@ == csr.values@,
{
    lemma_merge_sorted(csr.coords(), csr.values@, true, t.coords(), t.values@);
    let n = csr.values@.len() as int;
    csr.lemma_rows();
    t.lemma_rows();
    assert forall|k: int| 0 <= k < n implies t.col_indices@[k] == csr.col_indices@[k] && #[trigger]
        t.entry_rows()[k] == csr.entry_rows()[k] by {
        assert(t.coords()[k] == csr.coords()[k]);
        assert(t.coords()[k][0] == t.entry_rows()[k] && csr.coords()[k][0]
            == csr.entry_rows()[k]);
        assert(t.coords()[k][1] == t.col_indices@[k] && csr.coords()[k][1]
            == csr.col_indices@[k]);
    }
    assert(t.col_indices@ =~= csr.col_indices@) by {
        assert forall|k: int| 0 <= k < n implies t.col_indices@[k] == csr.col_indices@[k] by {
            assert(t.entry_rows()[k] == csr.entry_rows()[k]);
        }
    }
    assert forall|k: int|
        #![trigger segment_of(t.row_ptrs@, k)]
        0 <= k < n implies segment_of(t.row_ptrs@, k) == segment_of(csr.row_ptrs@, k) by {
        assert(t.entry_rows()[k] == csr.entry_rows()[k]);
    }
    lemma_segments_determine(t.row_ptrs@, csr.row_ptrs@, n);
}

/// The parts of a compressed matrix do not fit each other, and `e` says why.
pub open spec fn parts_fault(
    ptrs: Seq<usize>,
    indices: Seq<usize>,
    nnz: nat,
    size: usize,
    bound: usize,
    axis: Axis,
    e: FerrotorchError,
) -> bool {
    if ptrs.len() != size + 1 {
        e == (FerrotorchError::InvalidArgument {
            reason: Reason::PointerCount { axis, got: ptrs.len() as usize, size },
        })
    } else if indices.len() != nnz {
        e == (FerrotorchError::InvalidArgument {
            reason: Reason::LengthMismatch { left: indices.len() as usize, right: nnz as usize },
        })
    } else {
        e matches FerrotorchError::InvalidArgument { reason } && (reason matches Reason::Compressed {
            axis: a,
            fault,
        } && a == axis && layout_fault(ptrs, indices, nnz as usize, bound, fault))
    }
}

/// Checks the parts of a compressed matrix.
pub fn check_parts(
    ptrs: &[usize],
    indices: &[usize],
    nnz: usize,
    size: usize,
    bound: usize,
    axis: Axis,
) -> (r: FerrotorchResult<()>)
    ensures
        match r {
            Ok(_) => {
                &&& ptrs@.len() == size + 1
                &&& indices@.len() == nnz
                &&& valid_layout(ptrs@, indices@, nnz as int, bound as int)
            },
            Err(e) => parts_fault(ptrs@, indices@, nnz as nat, size, bound, axis, e),
        },
{
    if ptrs.len() == 0 || ptrs.len() - 1 != size {
        return Err(
            FerrotorchError::InvalidArgument {
                reason: Reason::PointerCount { axis, got: ptrs.len(), size },
            },
        );
    }
    if indices.len() != nnz {
        return Err(
            FerrotorchError::InvalidArgument {
                reason: Reason::LengthMismatch { left: indices.len(), right: nnz },
            },
        );
    }
    validate_compressed_layout(ptrs, indices, nnz, bound, axis)
}

/// The parts of a compressed matrix with 32-bit indices.
pub open spec fn narrowed<T>(
    ptrs: Seq<usize>,
    indices: Seq<usize>,
    values: Seq<T>,
    nrows: usize,
    ncols: usize,
    ordinal: usize,
    r: FerrotorchResult<CompressedArrays<T>>,
) -> bool {
    match r {
        Ok(a) => {
            &&& same_numbers(a.pointers@, ptrs)
            &&& same_numbers(a.indices@, indices)
            &&& a.values@ == values
            &&& a.nrows == nrows
            &&& a.ncols == ncols
            &&& a.ordinal == ordinal
        },
        Err(e) => first_too_wide(ptrs, e) || (first_too_wide(indices, e) && forall|i: int|
            0 <= i < ptrs.len() ==> #[trigger] ptrs[i] <= u32::MAX),
    }
}

/// The parts of a compressed matrix with 32-bit indices.
pub fn narrow<T: Float>(
    ptrs: &[usize],
    indices: &[usize],
    values: &[T],
    nrows: usize,
    ncols: usize,
    ordinal: usize,
) -> (r: FerrotorchResult<CompressedArrays<T>>)
    ensures
        narrowed(ptrs@, indices@, values@, nrows, ncols, ordinal, r),
{
    let p: Vec<u32> = match to_u32_vec_checked(ptrs) {
        Ok(v) => v,
        Err(e) => return Err(e),
    };
    let i: Vec<u32> = match to_u32_vec_checked(indices) {
        Ok(v) => v,
        Err(e) => {
            proof {
                assert forall|k: int| 0 <= k < ptrs@.len() implies #[trigger] ptrs@[k]
                    <= u32::MAX by {
                    assert(p@[k] == ptrs@[k]);
                }
            }
            return Err(e);
        },
    };
    Ok(
        CompressedArrays {
            pointers: p,
            indices: i,
            values: copied(values),
            ordinal,
            nrows,
            ncols,
        },
    )
}

} // verus!
