//! What the sparse layouts stand for, entry by entry: how one more entry changes a dense
//! form, a product with a dense matrix and its gradient.

use crate::autograd::{Context, Plan, TensorId};
use crate::csc::CscTensor;
use crate::dtype::Float;
use crate::entries::{lemma_key_sum_once, lemma_key_sum_twice};
use crate::layout::lemma_segment_exists;
use crate::matrix::{is_dense_matrix, lemma_matrix_ravel, pairs, CooTensor, CsrTensor};
use crate::scatter::{
    lemma_cell_sum_appended, lemma_cell_sum_once, lemma_cell_sum_twice,
    lemma_cell_sum_untouched,
};
use crate::shape;
use crate::sparse_tensor::{
    dense_elements, flat_positions, lemma_dense_is_key_sum, lemma_matrix_position,
    lemma_matrix_prod, lemma_transpose_sum, spmm_cell, spmm_elements, transposed, SparseTensor,
};
use crate::tensor::{GradFn, Tensor};
use vstd::prelude::*;

verus! {

/// The product of a matrix without entries is zero everywhere.
pub proof fn lemma_spmm_empty<T: Float>(dense: Seq<T>, m: int, width: int, p: int)
    requires
        0 <= p < m * width,
    ensures
        spmm_elements(Seq::empty(), Seq::empty(), dense, m, width)[p] == T::zero_spec(),
{
}

proof fn lemma_spmm_longer<T: Float>(
    ks: Seq<Seq<usize>>,
    vals: Seq<T>,
    key: Seq<usize>,
    v: T,
    dense: Seq<T>,
    width: int,
    n: int,
    i: int,
    col: int,
)
    requires
        ks.len() == vals.len(),
        0 <= n <= ks.len(),
    ensures
        spmm_cell(ks.push(key), vals.push(v), dense, width, n, i, col) == spmm_cell(
            ks,
            vals,
            dense,
            width,
            n,
            i,
            col,
        ),
    decreases n,
{
    if n > 0 {
        lemma_spmm_longer(ks, vals, key, v, dense, width, n - 1, i, col);
    }
}

/// One more entry `v` in row `r` and column `j` adds `v` times row `j` of the dense matrix
/// to row `r` of the product, and nothing to any other row.
pub proof fn lemma_spmm_appended<T: Float>(
    ks: Seq<Seq<usize>>,
    vals: Seq<T>,
    r: usize,
    j: usize,
    v: T,
    dense: Seq<T>,
    m: int,
    width: int,
    i: int,
    col: int,
)
    requires
        ks.len() == vals.len(),
        0 <= i < m,
        0 <= col < width,
    ensures
        i == r ==> spmm_elements(ks.push(seq![r, j]), vals.push(v), dense, m, width)[i * width
            + col] == spmm_elements(ks, vals, dense, m, width)[i * width + col].plus(
            v.times(dense[j * width + col]),
        ),
        i != r ==> spmm_elements(ks.push(seq![r, j]), vals.push(v), dense, m, width)[i * width
            + col] == spmm_elements(ks, vals, dense, m, width)[i * width + col],
{
    lemma_matrix_position(i, col, width, m);
    lemma_spmm_longer(ks, vals, seq![r, j], v, dense, width, ks.len() as int, i, col);
    assert(ks.push(seq![r, j])[ks.len() as int] == seq![r, j]);
}

proof fn lemma_product_elements<T: Float>(
    s: &SparseTensor<T>,
    dense: &Tensor<T>,
    ctx: Context,
    t: Tensor<T>,
)
    requires
        s.wf(),
        s.spmm_error(dense) is None,
        s.spmm_outcome(dense, ctx, Ok(Plan::Ready(t))),
    ensures
        t.inner.shape@ == seq![s.shape@[0], dense.inner.shape@[1]],
        t.logical() == spmm_elements(
            s.coords(),
            s.values@,
            dense.logical(),
            s.shape@[0] as int,
            dense.inner.shape@[1] as int,
        ),
{
    let m = s.shape@[0];
    let n = dense.inner.shape@[1];
    lemma_matrix_prod(m, n);
    t.lemma_dense();
    assert(t.logical() =~= spmm_elements(
        s.coords(),
        s.values@,
        dense.logical(),
        m as int,
        n as int,
    ));
}

/// The product of a sparse matrix without entries and a dense matrix is zero everywhere.
pub proof fn lemma_product_of_nothing<T: Float>(
    s: &SparseTensor<T>,
    dense: &Tensor<T>,
    ctx: Context,
    t: Tensor<T>,
    p: int,
)
    requires
        s.wf(),
        s.spmm_error(dense) is None,
        s.spmm_outcome(dense, ctx, Ok(Plan::Ready(t))),
        s.nnz == 0,
        0 <= p < s.shape@[0] * dense.inner.shape@[1],
    ensures
        t.logical().len() == s.shape@[0] * dense.inner.shape@[1],
        t.logical()[p] == T::zero_spec(),
{
    lemma_product_elements(s, dense, ctx, t);
    lemma_matrix_prod(s.shape@[0], dense.inner.shape@[1]);
}

/// A sparse matrix with one entry `v` in row `r` and column `j`: row `r` of the product
/// is zero plus `v` times row `j` of the dense matrix, and every other row is zero.
pub proof fn lemma_product_of_one_entry<T: Float>(
    s: &SparseTensor<T>,
    dense: &Tensor<T>,
    ctx: Context,
    t: Tensor<T>,
    i: int,
    col: int,
)
    requires
        s.wf(),
        s.spmm_error(dense) is None,
        s.spmm_outcome(dense, ctx, Ok(Plan::Ready(t))),
        s.nnz == 1,
        0 <= i < s.shape@[0],
        0 <= col < dense.inner.shape@[1],
    ensures
        ({
            let n = dense.inner.shape@[1];
            let r = s.coords()[0][0];
            let j = s.coords()[0][1];
            t.logical()[i * n + col] == if i == r {
                T::zero_spec().plus(s.values@[0].times(dense.logical()[j * n + col]))
            } else {
                T::zero_spec()
            }
        }),
{
    let n = dense.inner.shape@[1];
    let m = s.shape@[0];
    let key = s.coords()[0];
    assert(shape::in_shape(key, s.shape@));
    lemma_product_elements(s, dense, ctx, t);
    lemma_matrix_position(i, col, n as int, m as int);
    lemma_spmm_empty(dense.logical(), m as int, n as int, i * n + col);
    lemma_spmm_appended(
        Seq::empty(),
        Seq::empty(),
        key[0],
        key[1],
        s.values@[0],
        dense.logical(),
        m as int,
        n as int,
        i,
        col,
    );
    assert(key =~= seq![key[0], key[1]]);
    assert(s.coords() =~= Seq::empty().push(seq![key[0], key[1]]));
    assert(s.values@ =~= Seq::empty().push(s.values@[0]));
}

/// `more` has the entries of `s` and behind them one more, `v` in row `r` and column `j`.
pub open spec fn has_one_more<T: Float>(
    s: &SparseTensor<T>,
    more: &SparseTensor<T>,
    r: usize,
    j: usize,
    v: T,
) -> bool {
    &&& more.shape@ == s.shape@
    &&& more.coords() == s.coords().push(seq![r, j])
    &&& more.values@ == s.values@.push(v)
}

/// The products of two sparse matrices of which one has one more entry, `v` in row `r`
/// and column `j`: they differ in row `r` alone, by `v` times row `j` of the dense matrix.
pub proof fn lemma_product_of_one_more<T: Float>(
    s: &SparseTensor<T>,
    more: &SparseTensor<T>,
    r: usize,
    j: usize,
    v: T,
    dense: &Tensor<T>,
    ctx: Context,
    t: Tensor<T>,
    ctx2: Context,
    t2: Tensor<T>,
    i: int,
    col: int,
)
    requires
        s.wf(),
        more.wf(),
        has_one_more(s, more, r, j, v),
        s.spmm_error(dense) is None,
        s.spmm_outcome(dense, ctx, Ok(Plan::Ready(t))),
        more.spmm_outcome(dense, ctx2, Ok(Plan::Ready(t2))),
        0 <= i < s.shape@[0],
        0 <= col < dense.inner.shape@[1],
    ensures
        ({
            let n = dense.inner.shape@[1];
            t2.logical()[i * n + col] == if i == r {
                t.logical()[i * n + col].plus(v.times(dense.logical()[j * n + col]))
            } else {
                t.logical()[i * n + col]
            }
        }),
{
    lemma_product_elements(s, dense, ctx, t);
    lemma_product_elements(more, dense, ctx2, t2);
    lemma_spmm_appended(
        s.coords(),
        s.values@,
        r,
        j,
        v,
        dense.logical(),
        s.shape@[0] as int,
        dense.inner.shape@[1] as int,
        i,
        col,
    );
}

/// The gradients of the dense operand of two such products: with the entry `v` in row `r`
/// and column `j` row `j` of the gradient has `v` times row `r` of the upstream gradient
/// more, and the other rows are the same.
pub proof fn lemma_product_gradient_of_one_more<T: Float>(
    s: &SparseTensor<T>,
    more: &SparseTensor<T>,
    r: usize,
    j: usize,
    v: T,
    dense: &Tensor<T>,
    ctx: Context,
    t: Tensor<T>,
    t2: Tensor<T>,
    upstream: &Tensor<T>,
    g: Tensor<T>,
    g2: Tensor<T>,
    i: int,
    col: int,
)
    requires
        s.wf(),
        more.wf(),
        has_one_more(s, more, r, j, v),
        s.shape@.len() == 2,
        ctx.grad_enabled && dense.inner.requires_grad && !ctx.inference,
        s.spmm_grad(dense, ctx, t),
        more.spmm_grad(dense, ctx, t2),
        upstream.inner.shape@.len() == 2,
        upstream.inner.shape@[0] == s.shape@[0],
        t.inner.grad_fn matches Some(f) && (*f matches GradFn::Spmm(b) && b.sparse_t.spmm_outcome(
            upstream,
            ctx,
            Ok(Plan::Ready(g)),
        )),
        t2.inner.grad_fn matches Some(f) && (*f matches GradFn::Spmm(b) && b.sparse_t.spmm_outcome(
            upstream,
            ctx,
            Ok(Plan::Ready(g2)),
        )),
        0 <= i < s.shape@[1],
        0 <= col < upstream.inner.shape@[1],
    ensures
        ({
            let n = upstream.inner.shape@[1];
            g2.logical()[i * n + col] == if i == j {
                g.logical()[i * n + col].plus(v.times(upstream.logical()[r * n + col]))
            } else {
                g.logical()[i * n + col]
            }
        }),
{
    let f = *t.inner.grad_fn->Some_0;
    let f2 = *t2.inner.grad_fn->Some_0;
    let b = f->Spmm_0;
    let b2 = f2->Spmm_0;
    assert(transposed(s.coords().push(seq![r, j])) =~= transposed(s.coords()).push(seq![j, r]));
    lemma_product_of_one_more(
        &b.sparse_t,
        &b2.sparse_t,
        j,
        r,
        v,
        upstream,
        ctx,
        g,
        ctx,
        g2,
        i,
        col,
    );
}

proof fn lemma_dense_form_elements<T: Float>(s: &SparseTensor<T>, t: Tensor<T>, id: TensorId)
    requires
        s.is_dense_form(t, id),
    ensures
        t.inner.shape@ == s.shape@,
        t.logical() == dense_elements(s.coords(), s.values@, s.shape@),
        shape::prod(s.shape@) <= usize::MAX,
{
    let sh = s.shape@;
    assert(sh.take(sh.len() as int) =~= sh);
    assert(shape::prod(sh.take(sh.len() as int)) <= usize::MAX);
    t.lemma_dense();
    assert(t.logical() =~= dense_elements(s.coords(), s.values@, sh));
}

/// The dense form of a sparse tensor without entries is zero everywhere.
pub proof fn lemma_dense_form_of_nothing<T: Float>(
    s: &SparseTensor<T>,
    t: Tensor<T>,
    id: TensorId,
    p: int,
)
    requires
        s.wf(),
        s.is_dense_form(t, id),
        s.nnz == 0,
        0 <= p < shape::prod(s.shape@),
    ensures
        t.logical()[p] == T::zero_spec(),
{
    lemma_dense_form_elements(s, t, id);
}

/// One more entry adds its value to the element at its coordinate of the dense form, and
/// changes no other element.
pub proof fn lemma_dense_form_of_one_more<T: Float>(
    s: &SparseTensor<T>,
    more: &SparseTensor<T>,
    key: Seq<usize>,
    v: T,
    t: Tensor<T>,
    id: TensorId,
    t2: Tensor<T>,
    id2: TensorId,
    p: int,
)
    requires
        s.wf(),
        more.wf(),
        more.shape@ == s.shape@,
        more.coords() == s.coords().push(key),
        more.values@ == s.values@.push(v),
        s.is_dense_form(t, id),
        more.is_dense_form(t2, id2),
        0 <= p < shape::prod(s.shape@),
    ensures
        t2.logical()[p] == if p == shape::ravel(key, s.shape@) {
            t.logical()[p].plus(v)
        } else {
            t.logical()[p]
        },
{
    let sh = s.shape@;
    lemma_dense_form_elements(s, t, id);
    lemma_dense_form_elements(more, t2, id2);
    assert(more.coords()[s.coords().len() as int] == key);
    assert(shape::in_shape(key, sh));
    shape::lemma_ravel_bound(key, sh);
    assert(flat_positions(more.coords(), sh) =~= flat_positions(s.coords(), sh).push(
        shape::ravel(key, sh) as usize,
    ));
    lemma_cell_sum_appended(
        T::zero_spec(),
        flat_positions(s.coords(), sh),
        s.values@,
        shape::ravel(key, sh) as usize,
        v,
        p,
    );
}

/// The same for a matrix, with the position written out: the entry `v` in row `r` and
/// column `j` of `n` is added at `r * n + j`.
pub proof fn lemma_dense_matrix_of_one_more<T: Float>(
    s: &SparseTensor<T>,
    more: &SparseTensor<T>,
    r: usize,
    j: usize,
    v: T,
    t: Tensor<T>,
    id: TensorId,
    t2: Tensor<T>,
    id2: TensorId,
    p: int,
)
    requires
        s.wf(),
        more.wf(),
        s.shape@.len() == 2,
        has_one_more(s, more, r, j, v),
        s.is_dense_form(t, id),
        more.is_dense_form(t2, id2),
        0 <= p < s.shape@[0] * s.shape@[1],
    ensures
        t2.logical()[p] == if p == r * s.shape@[1] + j {
            t.logical()[p].plus(v)
        } else {
            t.logical()[p]
        },
{
    let m = s.shape@[0];
    let n = s.shape@[1];
    assert(s.shape@ =~= seq![m, n]);
    lemma_matrix_prod(m, n);
    lemma_matrix_ravel(r, j, m, n);
    lemma_dense_form_of_one_more(s, more, seq![r, j], v, t, id, t2, id2, p);
}

/// The dense form of a transposed sparse matrix has in row `j` and column `i` what that
/// of the matrix has in row `i` and column `j`.
pub proof fn lemma_dense_form_of_transpose<T: Float>(
    s: &SparseTensor<T>,
    x: &SparseTensor<T>,
    t: Tensor<T>,
    id: TensorId,
    t2: Tensor<T>,
    id2: TensorId,
    i: int,
    j: int,
)
    requires
        s.wf(),
        x.wf(),
        s.shape@.len() == 2,
        x.holds(transposed(s.coords()), s.values@, seq![s.shape@[1], s.shape@[0]]),
        s.is_dense_form(t, id),
        x.is_dense_form(t2, id2),
        0 <= i < s.shape@[0],
        0 <= j < s.shape@[1],
    ensures
        t2.inner.shape@ == seq![s.shape@[1], s.shape@[0]],
        t2.logical()[j * s.shape@[0] + i] == t.logical()[i * s.shape@[1] + j],
{
    let m = s.shape@[0];
    let n = s.shape@[1];
    assert(s.shape@ =~= seq![m, n]);
    lemma_dense_form_elements(s, t, id);
    lemma_dense_form_elements(x, t2, id2);
    lemma_matrix_prod(m, n);
    lemma_matrix_prod(n, m);
    lemma_matrix_ravel(i as usize, j as usize, m, n);
    lemma_matrix_ravel(j as usize, i as usize, n, m);
    lemma_matrix_position(i, j, n as int, m as int);
    lemma_matrix_position(j, i, m as int, n as int);
    let k = s.coords().len() as int;
    assert forall|e: int| 0 <= e < s.coords().len() implies (#[trigger] s.coords()[e]).len()
        == 2 by {
        assert(shape::in_shape(s.coords()[e], s.shape@));
    }
    lemma_transpose_sum(s.coords(), s.values@, k, i as usize, j as usize);
    lemma_dense_is_key_sum(s.coords(), s.values@, seq![m, n], seq![i as usize, j as usize], k);
    lemma_dense_is_key_sum(x.coords(), x.values@, seq![n, m], seq![j as usize, i as usize], k);
}

proof fn lemma_dense_matrix_positions(
    rows: Seq<usize>,
    cols: Seq<usize>,
    m: usize,
    n: usize,
    at: Seq<usize>,
)
    requires
        at == flat_positions(pairs(rows, cols), seq![m, n]),
        rows.len() == cols.len(),
        m * n <= usize::MAX,
        forall|k: int| 0 <= k < rows.len() ==> #[trigger] rows[k] < m,
        forall|k: int| 0 <= k < cols.len() ==> #[trigger] cols[k] < n,
    ensures
        at.len() == rows.len(),
        forall|k: int| 0 <= k < rows.len() ==> #[trigger] at[k] == rows[k] * n + cols[k],
{
    assert forall|k: int| 0 <= k < rows.len() implies #[trigger] at[k] == rows[k] * n
        + cols[k] by {
        lemma_matrix_ravel(rows[k], cols[k], m, n);
        lemma_matrix_position(rows[k] as int, cols[k] as int, n as int, m as int);
    }
}

/// A matrix position names one row and one column.
proof fn lemma_position_splits(i: int, j: int, r: int, c: int, n: int)
    requires
        0 <= i,
        0 <= r,
        0 <= j < n,
        0 <= c < n,
    ensures
        i * n + j == r * n + c <==> i == r && j == c,
{
    lemma_matrix_position(i, j, n, i + 1);
    lemma_matrix_position(r, c, n, r + 1);
}

/// What a dense matrix made from rows, columns and values holds: at a place that no entry
/// names zero; at one that one entry names zero plus its value; and at one that two name
/// zero plus the first value plus the second.
proof fn lemma_dense_matrix_place<T: Float>(
    t: Tensor<T>,
    rows: Seq<usize>,
    cols: Seq<usize>,
    vals: Seq<T>,
    m: usize,
    n: usize,
    id: TensorId,
    i: int,
    j: int,
)
    requires
        is_dense_matrix(t, pairs(rows, cols), vals, m, n, id),
        rows.len() == cols.len(),
        rows.len() == vals.len(),
        forall|k: int| 0 <= k < rows.len() ==> #[trigger] rows[k] < m,
        forall|k: int| 0 <= k < cols.len() ==> #[trigger] cols[k] < n,
        0 <= i < m,
        0 <= j < n,
    ensures
        t.inner.shape@ == seq![m, n],
        (forall|k: int|
            #![trigger rows[k]]
            #![trigger cols[k]]
            0 <= k < rows.len() ==> !(rows[k] == i && cols[k] == j)) ==> t.logical()[i * n + j]
            == T::zero_spec(),
        forall|e: int|
            #![trigger vals[e]]
            0 <= e < rows.len() && rows[e] == i && cols[e] == j && (forall|k: int|
                #![trigger rows[k]]
                #![trigger cols[k]]
                0 <= k < rows.len() && k != e ==> !(rows[k] == i && cols[k] == j))
                ==> t.logical()[i * n + j] == T::zero_spec().plus(vals[e]),
        forall|e: int, f: int|
            #![trigger vals[e], vals[f]]
            0 <= e < f < rows.len() && rows[e] == i && cols[e] == j && rows[f] == i && cols[f] == j
                && (forall|k: int|
                #![trigger rows[k]]
                #![trigger cols[k]]
                0 <= k < rows.len() && k != e && k != f ==> !(rows[k] == i && cols[k] == j))
                ==> t.logical()[i * n + j] == T::zero_spec().plus(vals[e]).plus(vals[f]),
{
    let ks = pairs(rows, cols);
    let at = flat_positions(ks, seq![m, n]);
    let len = rows.len() as int;
    let p = i * n + j;
    lemma_matrix_prod(m, n);
    t.lemma_dense();
    assert(t.logical() =~= dense_elements(ks, vals, seq![m, n]));
    lemma_dense_matrix_positions(rows, cols, m, n, at);
    lemma_matrix_position(i, j, n as int, m as int);
    assert forall|k: int| 0 <= k < len implies (#[trigger] at[k] == p <==> rows[k] == i
        && cols[k] == j) by {
        lemma_position_splits(rows[k] as int, cols[k] as int, i, j, n as int);
    }
    if forall|k: int|
        #![trigger rows[k]]
        #![trigger cols[k]]
        0 <= k < rows.len() ==> !(rows[k] == i && cols[k] == j) {
        assert forall|k: int| 0 <= k < len implies #[trigger] at[k] != p by {
            assert(!(rows[k] == i && cols[k] == j));
        }
        lemma_cell_sum_untouched(T::zero_spec(), at, vals, len, p);
    }
    assert forall|e: int|
        #![trigger vals[e]]
        0 <= e < rows.len() && rows[e] == i && cols[e] == j && (forall|k: int|
            #![trigger rows[k]]
            #![trigger cols[k]]
            0 <= k < rows.len() && k != e ==> !(rows[k] == i && cols[k] == j))
            implies t.logical()[p] == T::zero_spec().plus(vals[e]) by {
        assert(at[e] == p);
        assert forall|k: int| 0 <= k < len && k != e implies #[trigger] at[k] != at[e] by {
            assert(!(rows[k] == i && cols[k] == j));
        }
        lemma_cell_sum_once(T::zero_spec(), at, vals, len, e);
    }
    assert forall|e: int, f: int|
        #![trigger vals[e], vals[f]]
        0 <= e < f < rows.len() && rows[e] == i && cols[e] == j && rows[f] == i && cols[f] == j && (
        forall|k: int|
            #![trigger rows[k]]
            #![trigger cols[k]]
            0 <= k < rows.len() && k != e && k != f ==> !(rows[k] == i && cols[k] == j))
            implies t.logical()[p] == T::zero_spec().plus(vals[e]).plus(vals[f]) by {
        assert(at[e] == p && at[f] == p);
        assert forall|k: int| 0 <= k < len && k != e && k != f implies #[trigger] at[k]
            != at[e] by {
            assert(!(rows[k] == i && cols[k] == j));
        }
        lemma_cell_sum_twice(T::zero_spec(), at, vals, len, e, f);
    }
}

/// The dense form of a list of matrix entries: zero at a place that no entry names, zero
/// plus the value at one that one entry names, and zero plus the first value plus the
/// second at one that two name.
pub proof fn lemma_coo_dense<T: Float>(
    coo: &CooTensor<T>,
    t: Tensor<T>,
    id: TensorId,
    i: int,
    j: int,
)
    requires
        coo.wf(),
        is_dense_matrix(t, coo.coords(), coo.values@, coo.nrows, coo.ncols, id),
        0 <= i < coo.nrows,
        0 <= j < coo.ncols,
    ensures
        t.inner.shape@ == seq![coo.nrows, coo.ncols],
        (forall|k: int|
            #![trigger coo.row_indices@[k]]
            #![trigger coo.col_indices@[k]]
            0 <= k < coo.row_indices@.len() ==> !(coo.row_indices@[k] == i && coo.col_indices@[k]
                == j)) ==> t.logical()[i * coo.ncols + j] == T::zero_spec(),
        forall|e: int|
            #![trigger coo.values@[e]]
            0 <= e < coo.values@.len() && coo.row_indices@[e] == i && coo.col_indices@[e] == j && (
            forall|k: int|
                #![trigger coo.row_indices@[k]]
                #![trigger coo.col_indices@[k]]
                0 <= k < coo.row_indices@.len() && k != e ==> !(coo.row_indices@[k] == i
                    && coo.col_indices@[k] == j)) ==> t.logical()[i * coo.ncols + j]
                == T::zero_spec().plus(coo.values@[e]),
        forall|e: int, f: int|
            #![trigger coo.values@[e], coo.values@[f]]
            0 <= e < f < coo.values@.len() && coo.row_indices@[e] == i && coo.col_indices@[e] == j
                && coo.row_indices@[f] == i && coo.col_indices@[f] == j && (forall|k: int|
                #![trigger coo.row_indices@[k]]
                #![trigger coo.col_indices@[k]]
                0 <= k < coo.row_indices@.len() && k != e && k != f ==> !(coo.row_indices@[k] == i
                    && coo.col_indices@[k] == j)) ==> t.logical()[i * coo.ncols + j]
                == T::zero_spec().plus(coo.values@[e]).plus(coo.values@[f]),
{
    lemma_dense_matrix_place(
        t,
        coo.row_indices@,
        coo.col_indices@,
        coo.values@,
        coo.nrows,
        coo.ncols,
        id,
        i,
        j,
    );
}

/// The dense form of a matrix compressed by rows: row `i` is zero but for the columns of
/// the entries from `row_ptrs[i]` on before `row_ptrs[i + 1]`, where it is zero plus the
/// value of the one entry there.
pub proof fn lemma_csr_dense<T: Float>(
    csr: &CsrTensor<T>,
    t: Tensor<T>,
    id: TensorId,
    i: int,
    j: int,
)
    requires
        csr.wf(),
        is_dense_matrix(t, csr.coords(), csr.values@, csr.nrows, csr.ncols, id),
        0 <= i < csr.nrows,
        0 <= j < csr.ncols,
    ensures
        t.inner.shape@ == seq![csr.nrows, csr.ncols],
        (forall|k: int|
            csr.row_ptrs@[i] <= k < csr.row_ptrs@[i + 1] ==> #[trigger] csr.col_indices@[k] != j)
            ==> t.logical()[i * csr.ncols + j] == T::zero_spec(),
        forall|e: int|
            #![trigger csr.values@[e]]
            csr.row_ptrs@[i] <= e < csr.row_ptrs@[i + 1] && csr.col_indices@[e] == j && (
            forall|k: int|
                csr.row_ptrs@[i] <= k < csr.row_ptrs@[i + 1] && k != e
                    ==> #[trigger] csr.col_indices@[k] != j) ==> t.logical()[i * csr.ncols + j]
                == T::zero_spec().plus(csr.values@[e]),
{
    let rows = csr.entry_rows();
    let cols = csr.col_indices@;
    csr.lemma_rows();
    lemma_dense_matrix_place(t, rows, cols, csr.values@, csr.nrows, csr.ncols, id, i, j);
    lemma_segment_is(csr.row_ptrs@, rows, i);
    assert(csr.row_ptrs@[i + 1] <= csr.row_ptrs@[csr.nrows as int]);
    if forall|k: int|
        csr.row_ptrs@[i] <= k < csr.row_ptrs@[i + 1] ==> #[trigger] csr.col_indices@[k] != j {
        assert forall|k: int|
            #![trigger rows[k]]
            #![trigger cols[k]]
            0 <= k < rows.len() implies !(rows[k] == i && cols[k] == j) by {}
    }
    assert forall|e: int|
        #![trigger csr.values@[e]]
        csr.row_ptrs@[i] <= e < csr.row_ptrs@[i + 1] && csr.col_indices@[e] == j && (forall|k: int|
            csr.row_ptrs@[i] <= k < csr.row_ptrs@[i + 1] && k != e
                ==> #[trigger] csr.col_indices@[k] != j) implies t.logical()[i * csr.ncols + j]
        == T::zero_spec().plus(csr.values@[e]) by {
        assert(rows[e] == i && cols[e] == j);
        assert forall|k: int|
            #![trigger rows[k]]
            #![trigger cols[k]]
            0 <= k < rows.len() && k != e implies !(rows[k] == i && cols[k] == j) by {}
    }
}

/// The entries of a segment are those from its pointer on before the next one.
proof fn lemma_segment_is(ptrs: Seq<usize>, segments: Seq<usize>, i: int)
    requires
        forall|a: int, b: int|
            0 <= a <= b < ptrs.len() ==> #[trigger] ptrs[a] <= #[trigger] ptrs[b],
        0 <= i < ptrs.len() - 1,
        forall|k: int|
            0 <= k < segments.len() ==> {
                &&& 0 <= #[trigger] segments[k] < ptrs.len() - 1
                &&& ptrs[segments[k] as int] <= k
                &&& k < ptrs[segments[k] + 1]
            },
    ensures
        forall|k: int|
            0 <= k < segments.len() ==> (#[trigger] segments[k] == i <==> ptrs[i] <= k
                < ptrs[i + 1]),
{
    assert forall|k: int| 0 <= k < segments.len() implies (#[trigger] segments[k] == i <==> ptrs[i]
        <= k < ptrs[i + 1]) by {
        let s = segments[k] as int;
        if ptrs[i] <= k < ptrs[i + 1] {
            if s < i {
                assert(ptrs[s + 1] <= ptrs[i]);
            } else if i < s {
                assert(ptrs[i + 1] <= ptrs[s]);
            }
        }
    }
}

/// The dense form of a matrix compressed by columns: column `j` is zero but for the rows
/// of the entries from `col_ptrs[j]` on before `col_ptrs[j + 1]`, where it is zero plus
/// the value of the one entry there.
pub proof fn lemma_csc_dense<T: Float>(
    csc: &CscTensor<T>,
    t: Tensor<T>,
    id: TensorId,
    i: int,
    j: int,
)
    requires
        csc.wf(),
        is_dense_matrix(t, csc.coords(), csc.values@, csc.nrows, csc.ncols, id),
        0 <= i < csc.nrows,
        0 <= j < csc.ncols,
    ensures
        t.inner.shape@ == seq![csc.nrows, csc.ncols],
        (forall|k: int|
            csc.col_ptrs@[j] <= k < csc.col_ptrs@[j + 1] ==> #[trigger] csc.row_indices@[k] != i)
            ==> t.logical()[i * csc.ncols + j] == T::zero_spec(),
        forall|e: int|
            #![trigger csc.values@[e]]
            csc.col_ptrs@[j] <= e < csc.col_ptrs@[j + 1] && csc.row_indices@[e] == i && (
            forall|k: int|
                csc.col_ptrs@[j] <= k < csc.col_ptrs@[j + 1] && k != e
                    ==> #[trigger] csc.row_indices@[k] != i) ==> t.logical()[i * csc.ncols + j]
                == T::zero_spec().plus(csc.values@[e]),
{
    let cols = csc.entry_cols();
    let rows = csc.row_indices@;
    assert forall|k: int| 0 <= k < csc.values@.len() implies {
        &&& 0 <= #[trigger] cols[k] < csc.col_ptrs@.len() - 1
        &&& csc.col_ptrs@[cols[k] as int] <= k
        &&& k < csc.col_ptrs@[cols[k] + 1]
    } by {
        lemma_segment_exists(csc.col_ptrs@, k);
    }
    lemma_dense_matrix_place(t, rows, cols, csc.values@, csc.nrows, csc.ncols, id, i, j);
    lemma_segment_is(csc.col_ptrs@, cols, j);
    assert(csc.col_ptrs@[j + 1] <= csc.col_ptrs@[csc.ncols as int]);
    if forall|k: int|
        csc.col_ptrs@[j] <= k < csc.col_ptrs@[j + 1] ==> #[trigger] csc.row_indices@[k] != i {
        assert forall|k: int|
            #![trigger rows[k]]
            #![trigger cols[k]]
            0 <= k < rows.len() implies !(rows[k] == i && cols[k] == j) by {}
    }
    assert forall|e: int|
        #![trigger csc.values@[e]]
        csc.col_ptrs@[j] <= e < csc.col_ptrs@[j + 1] && csc.row_indices@[e] == i && (forall|k: int|
            csc.col_ptrs@[j] <= k < csc.col_ptrs@[j + 1] && k != e
                ==> #[trigger] csc.row_indices@[k] != i) implies t.logical()[i * csc.ncols + j]
        == T::zero_spec().plus(csc.values@[e]) by {
        assert(rows[e] == i && cols[e] == j);
        assert forall|k: int|
            #![trigger rows[k]]
            #![trigger cols[k]]
            0 <= k < rows.len() && k != e implies !(rows[k] == i && cols[k] == j) by {}
    }
}

proof fn lemma_dense_form_once<T: Float>(s: &SparseTensor<T>, t: Tensor<T>, id: TensorId, i: int)
    requires
        s.wf(),
        s.is_dense_form(t, id),
        0 <= i < s.coords().len(),
        forall|j: int|
            0 <= j < s.coords().len() && j != i ==> #[trigger] s.coords()[j] != s.coords()[i],
    ensures
        t.logical()[shape::ravel(s.coords()[i], s.shape@)] == T::zero_spec().plus(s.values@[i]),
{
    let sh = s.shape@;
    let n = s.coords().len() as int;
    lemma_dense_form_elements(s, t, id);
    assert(shape::in_shape(s.coords()[i], sh));
    shape::lemma_ravel_bound(s.coords()[i], sh);
    lemma_dense_is_key_sum(s.coords(), s.values@, sh, s.coords()[i], n);
    lemma_key_sum_once(s.coords(), s.values@, n, i);
}

/// The dense form of a sparse tensor times a scalar: at the coordinate that an entry alone
/// has, zero plus the entry's value times the scalar.
pub proof fn lemma_dense_form_of_scaled<T: Float>(
    s: &SparseTensor<T>,
    scalar: T,
    r: &SparseTensor<T>,
    t: Tensor<T>,
    id: TensorId,
    i: int,
)
    requires
        r.wf(),
        s.is_scaled(scalar, r),
        r.is_dense_form(t, id),
        0 <= i < s.coords().len(),
        forall|j: int|
            0 <= j < s.coords().len() && j != i ==> #[trigger] s.coords()[j] != s.coords()[i],
        s.coords().len() == s.values@.len(),
    ensures
        t.inner.shape@ == s.shape@,
        t.logical()[shape::ravel(s.coords()[i], s.shape@)] == T::zero_spec().plus(
            s.values@[i].times(scalar),
        ),
{
    lemma_dense_form_once(r, t, id, i);
    assert(r.values@[i] == s.values@[i].times(scalar));
}

/// The dense form of a sum of sparse tensors: at a coordinate that one entry of each has,
/// zero plus the value of the first plus that of the second.
pub proof fn lemma_dense_form_of_sum<T: Float>(
    a: &SparseTensor<T>,
    b: &SparseTensor<T>,
    r: &SparseTensor<T>,
    t: Tensor<T>,
    id: TensorId,
    i: int,
    j: int,
)
    requires
        a.wf(),
        b.wf(),
        r.wf(),
        r.holds(a.coords() + b.coords(), a.values@ + b.values@, a.shape@),
        r.is_dense_form(t, id),
        0 <= i < a.coords().len(),
        0 <= j < b.coords().len(),
        a.coords()[i] == b.coords()[j],
        forall|k: int|
            0 <= k < a.coords().len() && k != i ==> #[trigger] a.coords()[k] != a.coords()[i],
        forall|k: int|
            0 <= k < b.coords().len() && k != j ==> #[trigger] b.coords()[k] != b.coords()[j],
    ensures
        t.inner.shape@ == a.shape@,
        t.logical()[shape::ravel(a.coords()[i], a.shape@)] == T::zero_spec().plus(
            a.values@[i],
        ).plus(b.values@[j]),
{
    let sh = r.shape@;
    let n = r.coords().len() as int;
    let m = a.coords().len() as int;
    let key = a.coords()[i];
    let ks = r.coords();
    lemma_dense_form_elements(r, t, id);
    assert(ks[i] == key);
    assert(ks[m + j] == key);
    assert(shape::in_shape(ks[i], sh));
    shape::lemma_ravel_bound(key, sh);
    lemma_dense_is_key_sum(ks, r.values@, sh, key, n);
    assert forall|k: int| 0 <= k < n && k != i && k != m + j implies #[trigger] ks[k] != ks[i] by {
        if k < m {
            assert(ks[k] == a.coords()[k]);
        } else {
            assert(ks[k] == b.coords()[k - m]);
        }
    }
    lemma_key_sum_twice(ks, r.values@, n, i, m + j);
}

} // verus!
