//! Sparse matrices compressed by columns.

use crate::autograd::{Context, Plan, TensorId};
use crate::device::Device;
use crate::dtype::Float;
use crate::entries::{key_sum, keys, merge_entries, merged};
use crate::error::{Axis, FerrotorchResult};
use crate::layout::{
    bucket_starts, count_eq, count_lt, expand_segments, lemma_count_bounds, lemma_count_step,
    lemma_place_in_bucket, lemma_segment_exists, lemma_segment_unique, same_numbers, segment_of,
    sorted_place, valid_layout,
};
use crate::matrix::{
    check_parts, dense_matrix, is_dense_matrix, lemma_merged_in_matrix, lemma_sorted_bucket,
    move_matrix, moved_matrix, narrow, narrowed, pair_up, pairs, parts_fault, split_pairs,
    CsrTensor,
};
use crate::regroup::{lemma_regroup_twice, lemma_regrouped_segment, regroup, regrouped};
use crate::scatter::copied;
use crate::shape;
use crate::sparse_tensor::{dense_elements, lemma_dense_is_key_sum, CompressedArrays, DenseJob};
use crate::tensor::Tensor;
use crate::update::{scatter_kernel, scatter_kernel_spec};
use vstd::prelude::*;

verus! {

/// A sparse matrix compressed by columns: the entries of column `c` are those from
/// `col_ptrs[c]` to below `col_ptrs[c + 1]`.
#[derive(Debug)]
pub struct CscTensor<T: Float> {
    pub col_ptrs: Vec<usize>,
    pub row_indices: Vec<usize>,
    pub values: Vec<T>,
    pub nrows: usize,
    pub ncols: usize,
}

impl<T: Float> Clone for CscTensor<T> {
    fn clone(&self) -> (r: Self)
        ensures
            r.col_ptrs@ == self.col_ptrs@,
            r.row_indices@ == self.row_indices@,
            r.values@ == self.values@,
            r.nrows == self.nrows,
            r.ncols == self.ncols,
            self.wf() ==> r.wf(),
    {
        CscTensor {
            col_ptrs: copied(self.col_ptrs.as_slice()),
            row_indices: copied(self.row_indices.as_slice()),
            values: copied(self.values.as_slice()),
            nrows: self.nrows,
            ncols: self.ncols,
        }
    }
}

/// The entries of `csr` in the order of columns.
pub open spec fn columns_of_csr<T: Float>(csr: CsrTensor<T>, t: CscTensor<T>) -> bool {
    &&& regrouped(
        csr.row_ptrs@,
        csr.col_indices@,
        csr.values@,
        csr.ncols as int,
        t.col_ptrs@,
        t.row_indices@,
        t.values@,
    )
    &&& t.nrows == csr.nrows
    &&& t.ncols == csr.ncols
}

/// The entries of `csc` in the order of rows.
pub open spec fn rows_of_csc<T: Float>(csc: CscTensor<T>, t: CsrTensor<T>) -> bool {
    &&& regrouped(
        csc.col_ptrs@,
        csc.row_indices@,
        csc.values@,
        csc.nrows as int,
        t.row_ptrs@,
        t.col_indices@,
        t.values@,
    )
    &&& t.nrows == csc.nrows
    &&& t.ncols == csc.ncols
}

impl<T: Float> CscTensor<T> {
    /// A valid layout of as many rows as values.
    pub open spec fn wf(&self) -> bool {
        &&& self.col_ptrs@.len() == self.ncols + 1
        &&& self.row_indices@.len() == self.values@.len()
        &&& valid_layout(
            self.col_ptrs@,
            self.row_indices@,
            self.values@.len() as int,
            self.nrows as int,
        )
    }

    /// The column of each entry.
    pub open spec fn entry_cols(&self) -> Seq<usize> {
        Seq::new(self.values@.len(), |k: int| segment_of(self.col_ptrs@, k) as usize)
    }

    /// The coordinates of the entries.
    pub open spec fn coords(&self) -> Seq<Seq<usize>> {
        pairs(self.row_indices@, self.entry_cols())
    }

    /// The coordinates of the entries, column first.
    pub open spec fn column_keys(&self) -> Seq<Seq<usize>> {
        pairs(self.entry_cols(), self.row_indices@)
    }

    /// A matrix compressed by columns from its parts.
    pub fn new(
        col_ptrs: Vec<usize>,
        row_indices: Vec<usize>,
        values: Vec<T>,
        nrows: usize,
        ncols: usize,
    ) -> (r: FerrotorchResult<Self>)
        ensures
            match r {
                Ok(t) => {
                    &&& t.wf()
                    &&& t.col_ptrs@ == col_ptrs@
                    &&& t.row_indices@ == row_indices@
                    &&& t.values@ == values@
                    &&& t.nrows == nrows
                    &&& t.ncols == ncols
                },
                Err(e) => parts_fault(
                    col_ptrs@,
                    row_indices@,
                    values@.len(),
                    ncols,
                    nrows,
                    Axis::Columns,
                    e,
                ),
            },
    {
        check_parts(
            col_ptrs.as_slice(),
            row_indices.as_slice(),
            values.len(),
            ncols,
            nrows,
            Axis::Columns,
        )?;
        Ok(CscTensor { col_ptrs, row_indices, values, nrows, ncols })
    }

    /// The matrix whose parts, with 32-bit indices, came back from a device.
    pub fn from_device_parts(
        pointers: &[u32],
        indices: &[u32],
        values: Vec<T>,
        nrows: usize,
        ncols: usize,
    ) -> (r: FerrotorchResult<Self>)
        ensures
            match r {
                Ok(t) => {
                    &&& t.wf()
                    &&& same_numbers(pointers@, t.col_ptrs@)
                    &&& same_numbers(indices@, t.row_indices@)
                    &&& t.values@ == values@
                    &&& t.nrows == nrows
                    &&& t.ncols == ncols
                },
                Err(e) => exists|p: Seq<usize>, i: Seq<usize>|
                    #![trigger same_numbers(pointers@, p), same_numbers(indices@, i)]
                    same_numbers(pointers@, p) && same_numbers(indices@, i) && parts_fault(
                        p,
                        i,
                        values@.len(),
                        ncols,
                        nrows,
                        Axis::Columns,
                        e,
                    ),
            },
    {
        Self::new(
            crate::layout::from_u32_vec(pointers),
            crate::layout::from_u32_vec(indices),
            values,
            nrows,
            ncols,
        )
    }

    /// The matrix of a matrix compressed by rows: entries of one column keep their
    /// order.
    pub fn from_csr(csr: &CsrTensor<T>) -> (r: Self)
        requires
            csr.wf(),
            csr.ncols < usize::MAX,
        ensures
            r.wf(),
            columns_of_csr(*csr, r),
    {
        let (col_ptrs, row_indices, values): (Vec<usize>, Vec<usize>, Vec<T>) = regroup(
            csr.row_ptrs.as_slice(),
            csr.col_indices.as_slice(),
            csr.values.as_slice(),
            csr.ncols,
        );
        CscTensor { col_ptrs, row_indices, values, nrows: csr.nrows, ncols: csr.ncols }
    }

    /// The matrix compressed by rows: entries of one row keep their order.
    pub fn to_csr(&self) -> (r: FerrotorchResult<CsrTensor<T>>)
        requires
            self.wf(),
            self.nrows < usize::MAX,
        ensures
            r matches Ok(t) && t.wf() && rows_of_csc(*self, t),
    {
        let (row_ptrs, col_indices, values): (Vec<usize>, Vec<usize>, Vec<T>) = regroup(
            self.col_ptrs.as_slice(),
            self.row_indices.as_slice(),
            self.values.as_slice(),
            self.nrows,
        );
        let ghost p = row_ptrs@;
        let ghost i = col_indices@;
        match CsrTensor::new(row_ptrs, col_indices, values, self.nrows, self.ncols) {
            Ok(t) => Ok(t),
            Err(e) => {
                proof {
                    assert(parts_fault(
                        p,
                        i,
                        self.values@.len(),
                        self.nrows,
                        self.ncols,
                        Axis::Rows,
                        e,
                    ));
                    assert(false);
                }
                Err(e)
            },
        }
    }

    fn columns(&self) -> (r: Vec<usize>)
        requires
            self.wf(),
        ensures
            r@ == self.entry_cols(),
            forall|k: int| 0 <= k < r@.len() ==> #[trigger] r@[k] < self.ncols,
    {
        let r: Vec<usize> = expand_segments(self.col_ptrs.as_slice(), self.values.len());
        proof {
            assert(r@ =~= self.entry_cols());
        }
        r
    }

    /// The dense host matrix.
    pub fn to_dense(&self, id: TensorId) -> (r: FerrotorchResult<Tensor<T>>)
        requires
            self.wf(),
            shape::shape_fits(seq![self.nrows, self.ncols]),
        ensures
            r matches Ok(t) && is_dense_matrix(
                t,
                self.coords(),
                self.values@,
                self.nrows,
                self.ncols,
                id,
            ),
    {
        let cols: Vec<usize> = self.columns();
        dense_matrix(
            self.row_indices.as_slice(),
            cols.as_slice(),
            self.values.as_slice(),
            self.nrows,
            self.ncols,
            id,
        )
    }

    /// The same matrix with every coordinate at most once, rows increasing within a
    /// column. Entries of a zero sum stay.
    pub fn coalesced_arrays(&self) -> (r: Self)
        requires
            self.wf(),
            self.ncols < usize::MAX,
        ensures
            r.wf(),
            r.nrows == self.nrows,
            r.ncols == self.ncols,
            merged(self.column_keys(), self.values@, false, r.column_keys(), r.values@),
    {
        let cols: Vec<usize> = self.columns();
        let indices: Vec<Vec<usize>> = pair_up(cols.as_slice(), self.row_indices.as_slice());
        proof {
            assert(keys(indices@).len() == self.values@.len());
        }
        let (out, values): (Vec<Vec<usize>>, Vec<T>) = merge_entries(
            &indices,
            &self.values,
            false,
        );
        proof {
            lemma_merged_in_matrix(
                self.column_keys(),
                self.values@,
                false,
                keys(out@),
                values@,
                self.ncols,
                self.nrows,
            );
        }
        let (out_cols, row_indices): (Vec<usize>, Vec<usize>) = split_pairs(&out);
        proof {
            assert forall|k: int| 0 <= k < out_cols@.len() implies #[trigger] out_cols@[k]
                < self.ncols by {
                assert(keys(out@)[k][0] < self.ncols);
            }
        }
        let col_ptrs: Vec<usize> = bucket_starts(out_cols.as_slice(), self.ncols);
        let r = CscTensor {
            col_ptrs,
            row_indices,
            values,
            nrows: self.nrows,
            ncols: self.ncols,
        };
        proof {
            let s = out_cols@;
            assert forall|k: int| 0 <= k < r.row_indices@.len() implies #[trigger] r.row_indices@[k]
                < self.nrows by {
                assert(keys(out@)[k][1] < self.nrows);
            }
            assert forall|i: int, j: int| 0 <= i <= j < s.len() implies #[trigger] s[i]
                <= #[trigger] s[j] by {
                assert(keys(out@)[i][0] <= keys(out@)[j][0]);
            }
            assert forall|k: int| 0 <= k < s.len() implies r.entry_cols()[k] == s[k] by {
                lemma_sorted_bucket(s, s.len() as int, k);
                assert(s[k] < self.ncols);
                lemma_segment_unique(r.col_ptrs@, s[k] as int, k);
            }
            assert(r.entry_cols() =~= s);
            crate::matrix::lemma_pairs_of(keys(out@));
        }
        r
    }

    /// The dense matrix on a device.
    pub fn to_dense_on(&self, device: Device, ctx: Context) -> (r: FerrotorchResult<
        Plan<Tensor<T>, DenseJob<T>>,
    >)
        requires
            self.wf(),
            self.ncols < usize::MAX,
            shape::shape_fits(seq![self.nrows, self.ncols]),
        ensures
            match device {
                Device::Cuda(ordinal) if ctx.backend && scatter_kernel_spec(T::dtype_spec()) is Some
                => match r {
                    Ok(Plan::Device(DenseJob::ExpandColumns(a))) => self.expand_outcome(
                        ordinal,
                        Ok(a),
                    ),
                    Ok(_) => false,
                    Err(e) => self.expand_outcome(ordinal, Err(e)),
                },
                _ => moved_matrix(
                    self.coords(),
                    self.values@,
                    self.nrows,
                    self.ncols,
                    device,
                    ctx,
                    r,
                ),
            },
    {
        if let Device::Cuda(ordinal) = device {
            if ctx.backend {
                if let Some(_) = scatter_kernel(T::dtype()) {
                    let c: CscTensor<T> = self.coalesced_arrays();
                    return match narrow(
                        c.col_ptrs.as_slice(),
                        c.row_indices.as_slice(),
                        c.values.as_slice(),
                        self.nrows,
                        self.ncols,
                        ordinal,
                    ) {
                        Ok(a) => Ok(Plan::Device(DenseJob::ExpandColumns(a))),
                        Err(e) => Err(e),
                    };
                }
            }
        }
        let t: Tensor<T> = self.to_dense(ctx.fresh)?;
        move_matrix(
            t,
            device,
            ctx,
            Ghost(self.coords()),
            Ghost(self.values@),
            Ghost(self.nrows),
            Ghost(self.ncols),
        )
    }

    /// The merged matrix with 32-bit indices.
    pub open spec fn expand_outcome(
        &self,
        ordinal: usize,
        r: FerrotorchResult<CompressedArrays<T>>,
    ) -> bool {
        exists|c: CscTensor<T>|
            {
                &&& #[trigger] merged(
                    self.column_keys(),
                    self.values@,
                    false,
                    c.column_keys(),
                    c.values@,
                )
                &&& c.wf()
                &&& c.ncols == self.ncols
                &&& narrowed(
                    c.col_ptrs@,
                    c.row_indices@,
                    c.values@,
                    self.nrows,
                    self.ncols,
                    ordinal,
                    r,
                )
            }
    }

    /// The matrix of a matrix compressed by rows, regrouped on a CUDA device where it
    /// can.
    pub fn from_csr_on(csr: &CsrTensor<T>, device: Device, ctx: Context) -> (r: FerrotorchResult<
        Plan<Self, CompressedArrays<T>>,
    >)
        requires
            csr.wf(),
            csr.ncols < usize::MAX,
        ensures
            match device {
                Device::Cuda(ordinal) if ctx.backend && scatter_kernel_spec(T::dtype_spec()) is Some
                => match r {
                    Ok(Plan::Device(a)) => narrowed(
                        csr.row_ptrs@,
                        csr.col_indices@,
                        csr.values@,
                        csr.nrows,
                        csr.ncols,
                        ordinal,
                        Ok(a),
                    ),
                    Ok(_) => false,
                    Err(e) => narrowed(
                        csr.row_ptrs@,
                        csr.col_indices@,
                        csr.values@,
                        csr.nrows,
                        csr.ncols,
                        ordinal,
                        Err(e),
                    ),
                },
                _ => r matches Ok(Plan::Ready(t)) && t.wf() && columns_of_csr(*csr, t),
            },
    {
        if let Device::Cuda(ordinal) = device {
            if ctx.backend {
                if let Some(_) = scatter_kernel(T::dtype()) {
                    return match narrow(
                        csr.row_ptrs.as_slice(),
                        csr.col_indices.as_slice(),
                        csr.values.as_slice(),
                        csr.nrows,
                        csr.ncols,
                        ordinal,
                    ) {
                        Ok(a) => Ok(Plan::Device(a)),
                        Err(e) => Err(e),
                    };
                }
            }
        }
        Ok(Plan::Ready(Self::from_csr(csr)))
    }

    /// The matrix compressed by rows, regrouped on a CUDA device where it can. The
    /// arrays for the device are those of the transposed matrix, compressed by rows.
    pub fn to_csr_on(&self, device: Device, ctx: Context) -> (r: FerrotorchResult<
        Plan<CsrTensor<T>, CompressedArrays<T>>,
    >)
        requires
            self.wf(),
            self.nrows < usize::MAX,
        ensures
            match device {
                Device::Cuda(ordinal) if ctx.backend && scatter_kernel_spec(T::dtype_spec()) is Some
                => match r {
                    Ok(Plan::Device(a)) => narrowed(
                        self.col_ptrs@,
                        self.row_indices@,
                        self.values@,
                        self.ncols,
                        self.nrows,
                        ordinal,
                        Ok(a),
                    ),
                    Ok(_) => false,
                    Err(e) => narrowed(
                        self.col_ptrs@,
                        self.row_indices@,
                        self.values@,
                        self.ncols,
                        self.nrows,
                        ordinal,
                        Err(e),
                    ),
                },
                _ => r matches Ok(Plan::Ready(t)) && t.wf() && rows_of_csc(*self, t),
            },
    {
        if let Device::Cuda(ordinal) = device {
            if ctx.backend {
                if let Some(_) = scatter_kernel(T::dtype()) {
                    return match narrow(
                        self.col_ptrs.as_slice(),
                        self.row_indices.as_slice(),
                        self.values.as_slice(),
                        self.ncols,
                        self.nrows,
                        ordinal,
                    ) {
                        Ok(a) => Ok(Plan::Device(a)),
                        Err(e) => Err(e),
                    };
                }
            }
        }
        Ok(Plan::Ready(self.to_csr()?))
    }

    /// Number of stored entries.
    pub fn nnz(&self) -> (r: usize)
        ensures
            r == self.values@.len(),
    {
        self.values.len()
    }

    /// Number of rows.
    pub fn nrows(&self) -> (r: usize)
        ensures
            r == self.nrows,
    {
        self.nrows
    }

    /// Number of columns.
    pub fn ncols(&self) -> (r: usize)
        ensures
            r == self.ncols,
    {
        self.ncols
    }

    /// The column pointers.
    pub fn col_ptrs(&self) -> (r: &[usize])
        ensures
            r@ == self.col_ptrs@,
    {
        self.col_ptrs.as_slice()
    }

    /// The rows of the entries.
    pub fn row_indices(&self) -> (r: &[usize])
        ensures
            r@ == self.row_indices@,
    {
        self.row_indices.as_slice()
    }

    /// The values of the entries.
    pub fn values(&self) -> (r: &[T])
        ensures
            r@ == self.values@,
    {
        self.values.as_slice()
    }
}

/// A matrix compressed by rows comes back unchanged from compression by columns,
/// where the columns of each row do not decrease.
pub proof fn lemma_csr_round_trip<T: Float>(csr: CsrTensor<T>, csc: CscTensor<T>, t: CsrTensor<T>)
    requires
        csr.wf(),
        forall|j: int, k: int|
            0 <= j < k < csr.col_indices@.len() && segment_of(csr.row_ptrs@, j) == segment_of(
                csr.row_ptrs@,
                k,
            ) ==> #[trigger] csr.col_indices@[j] <= #[trigger] csr.col_indices@[k],
        columns_of_csr(csr, csc),
        rows_of_csc(csc, t),
    ensures
        t.row_ptrs@ == csr.row_ptrs@,
        t.col_indices@ == csr.col_indices@,
        t.values@ == csr.values@,
        t.nrows == csr.nrows,
        t.ncols == csr.ncols,
{
    lemma_regroup_twice(
        csr.row_ptrs@,
        csr.col_indices@,
        csr.values@,
        csr.ncols as int,
        csc.col_ptrs@,
        csc.row_indices@,
        csc.values@,
        t.row_ptrs@,
        t.col_indices@,
        t.values@,
    );
}

/// A matrix compressed by columns comes back unchanged from compression by rows,
/// where the rows of each column do not decrease.
pub proof fn lemma_csc_round_trip<T: Float>(csc: CscTensor<T>, csr: CsrTensor<T>, t: CscTensor<T>)
    requires
        csc.wf(),
        forall|j: int, k: int|
            0 <= j < k < csc.row_indices@.len() && segment_of(csc.col_ptrs@, j) == segment_of(
                csc.col_ptrs@,
                k,
            ) ==> #[trigger] csc.row_indices@[j] <= #[trigger] csc.row_indices@[k],
        rows_of_csc(csc, csr),
        columns_of_csr(csr, t),
    ensures
        t.col_ptrs@ == csc.col_ptrs@,
        t.row_indices@ == csc.row_indices@,
        t.values@ == csc.values@,
        t.nrows == csc.nrows,
        t.ncols == csc.ncols,
{
    lemma_regroup_twice(
        csc.col_ptrs@,
        csc.row_indices@,
        csc.values@,
        csc.nrows as int,
        csr.row_ptrs@,
        csr.col_indices@,
        csr.values@,
        t.col_ptrs@,
        t.row_indices@,
        t.values@,
    );
}

/// Compression by columns keeps what a matrix stands for: the entries of each
/// coordinate have the same sum, added in the same order.
pub proof fn lemma_columns_keep_sums<T: Float>(
    csr: CsrTensor<T>,
    csc: CscTensor<T>,
    row: usize,
    col: usize,
)
    requires
        csr.wf(),
        csc.wf(),
        columns_of_csr(csr, csc),
        row < csr.nrows,
        col < csr.ncols,
    ensures
        key_sum(csc.coords(), csc.values@, csc.values@.len() as int, seq![row, col]) == key_sum(
            csr.coords(),
            csr.values@,
            csr.values@.len() as int,
            seq![row, col],
        ),
{
    let s = csr.col_indices@;
    let n = s.len() as int;
    let c = col as int;
    lemma_count_bounds(s, n, c);
    lemma_count_bounds(s, n, c + 1);
    assert(csc.col_ptrs@[c] == count_lt(s, n, c));
    assert(csc.col_ptrs@[c + 1] == count_lt(s, n, c + 1));
    lemma_count_step(s, n, c);
    lemma_other_columns(csc, row, col, 0, count_lt(s, n, c));
    lemma_column_prefix(csr, csc, row, col, n);
    lemma_other_columns(csc, row, col, count_lt(s, n, c + 1), n);
}

proof fn lemma_other_columns<T: Float>(csc: CscTensor<T>, row: usize, col: usize, a: int, b: int)
    requires
        csc.wf(),
        col < csc.ncols,
        0 <= a <= b <= csc.values@.len(),
        b <= csc.col_ptrs@[col as int] || csc.col_ptrs@[col + 1] <= a,
    ensures
        key_sum(csc.coords(), csc.values@, b, seq![row, col]) == key_sum(
            csc.coords(),
            csc.values@,
            a,
            seq![row, col],
        ),
    decreases b - a,
{
    if a < b {
        lemma_other_columns(csc, row, col, a, b - 1);
        lemma_segment_exists(csc.col_ptrs@, b - 1);
        let other = csc.coords()[b - 1];
        assert(other[1] != seq![row, col][1]);
    }
}

proof fn lemma_column_prefix<T: Float>(
    csr: CsrTensor<T>,
    csc: CscTensor<T>,
    row: usize,
    col: usize,
    k: int,
)
    requires
        csr.wf(),
        csc.wf(),
        columns_of_csr(csr, csc),
        row < csr.nrows,
        col < csr.ncols,
        0 <= k <= csr.values@.len(),
        key_sum(
            csc.coords(),
            csc.values@,
            count_lt(csr.col_indices@, csr.values@.len() as int, col as int),
            seq![row, col],
        ) == T::zero_spec(),
    ensures
        key_sum(csr.coords(), csr.values@, k, seq![row, col]) == key_sum(
            csc.coords(),
            csc.values@,
            count_lt(csr.col_indices@, csr.values@.len() as int, col as int) + count_eq(
                csr.col_indices@,
                k,
                col as int,
            ),
            seq![row, col],
        ),
    decreases k,
{
    if k > 0 {
        lemma_column_prefix(csr, csc, row, col, k - 1);
        let s = csr.col_indices@;
        let key = seq![row, col];
        let mine = csr.coords()[k - 1];
        csr.lemma_rows();
        assert(csr.entry_rows()[k - 1] < csr.nrows);
        assert(mine[0] == csr.entry_rows()[k - 1] && mine[1] == s[k - 1]);
        if s[k - 1] == col {
            let p = sorted_place(s, k - 1);
            lemma_place_in_bucket(s, k - 1);
            lemma_regrouped_segment(
                csr.row_ptrs@,
                s,
                csr.values@,
                csr.ncols as int,
                csc.col_ptrs@,
                csc.row_indices@,
                csc.values@,
                k - 1,
            );
            assert(csc.coords()[p] =~= mine);
            lemma_count_bounds(s, csr.values@.len() as int, col as int);
            lemma_count_bounds(s, k - 1, col as int);
        } else {
            assert(mine != key);
        }
    }
}

/// A matrix and its form compressed by columns have the same dense form.
pub proof fn lemma_columns_same_dense<T: Float>(csr: CsrTensor<T>, csc: CscTensor<T>)
    requires
        csr.wf(),
        csc.wf(),
        columns_of_csr(csr, csc),
        shape::prod(seq![csr.nrows, csr.ncols]) <= usize::MAX,
    ensures
        dense_elements(csc.coords(), csc.values@, seq![csr.nrows, csr.ncols]) == dense_elements(
            csr.coords(),
            csr.values@,
            seq![csr.nrows, csr.ncols],
        ),
{
    let sh = seq![csr.nrows, csr.ncols];
    let a = dense_elements(csc.coords(), csc.values@, sh);
    let b = dense_elements(csr.coords(), csr.values@, sh);
    csr.lemma_rows();
    assert(crate::sparse_tensor::all_in_shape(csr.coords(), sh)) by {
        assert forall|i: int| 0 <= i < csr.coords().len() implies shape::in_shape(
            #[trigger] csr.coords()[i],
            sh,
        ) by {
            assert(csr.entry_rows()[i] < csr.nrows);
            assert(csr.col_indices@[i] < csr.ncols);
        }
    }
    assert(crate::sparse_tensor::all_in_shape(csc.coords(), sh)) by {
        assert forall|i: int| 0 <= i < csc.coords().len() implies shape::in_shape(
            #[trigger] csc.coords()[i],
            sh,
        ) by {
            lemma_segment_exists(csc.col_ptrs@, i);
            assert(csc.row_indices@[i] < csc.nrows);
        }
    }
    assert forall|p: int| 0 <= p < a.len() implies a[p] == b[p] by {
        let key = shape::unravel(p, sh);
        shape::lemma_unravel_ravel(p, sh);
        assert(key =~= seq![key[0], key[1]]);
        lemma_dense_is_key_sum(csc.coords(), csc.values@, sh, key, csc.values@.len() as int);
        lemma_dense_is_key_sum(csr.coords(), csr.values@, sh, key, csr.values@.len() as int);
        lemma_columns_keep_sums(csr, csc, key[0], key[1]);
    }
    assert(a =~= b);
}

} // verus!
