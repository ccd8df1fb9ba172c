//! Products with two-of-four matrices.

use crate::autograd::{Context, Plan};
use crate::dtype::Float;
use crate::error::{CudaGap, FerrotorchError, FerrotorchResult, Reason};
use crate::limits::fits_shape;
use crate::semi24::SemiStructuredSparseTensor;
use crate::shape;
use crate::sparse_tensor::{lemma_matrix_position, lemma_matrix_prod, matrix_shape, not_matrix};
use crate::storage::TensorStorage;
use crate::tensor::{too_small, GradFn, Tensor};
use crate::transfer::TransferJob;
use crate::update::{scatter_kernel, scatter_kernel_spec, ScatterKernel};
use vstd::prelude::*;

verus! {

/// The gradient of a product with a two-of-four matrix.
#[derive(Debug)]
pub struct Matmul24Backward<T: Float> {
    /// The dense operand.
    pub a: Tensor<T>,
    /// The elements of the dense form of the weight.
    pub weight: Vec<T>,
    pub k: usize,
    pub n: usize,
}

/// Two matrices to be multiplied.
#[derive(Debug)]
pub struct MatmulOperands<T: Float> {
    pub lhs: Tensor<T>,
    pub rhs: Tensor<T>,
}

/// What has to be done for a product with a two-of-four matrix.
#[derive(Debug)]
pub enum Matmul24Job<T: Float> {
    /// Make `a` contiguous, upload the dense weight to its device, and multiply there:
    /// with the structured kernel if it accepts, else with the dense one.
    Multiply {
        a: Tensor<T>,
        weight: Vec<T>,
        kernel: ScatterKernel,
        m: usize,
        k: usize,
        n: usize,
    },
    /// Read `a` back; the product is then [`multiply_host`].
    Read(TransferJob<T>),
}

/// The sum of the first `q` products of row `i` of `a` and column `j` of `b`.
pub open spec fn matmul_cell<T: Float>(
    a: Seq<T>,
    b: Seq<T>,
    k: int,
    n: int,
    i: int,
    j: int,
    q: int,
) -> T
    decreases q,
{
    if q <= 0 {
        T::zero_spec()
    } else {
        matmul_cell(a, b, k, n, i, j, q - 1).plus(a[i * k + (q - 1)].times(b[(q - 1) * n + j]))
    }
}

/// The product of an `m` by `k` and a `k` by `n` matrix.
pub open spec fn matmul_elements<T: Float>(a: Seq<T>, b: Seq<T>, m: int, k: int, n: int) -> Seq<T> {
    Seq::new((m * n) as nat, |p: int| matmul_cell(a, b, k, n, p / n, p % n, k))
}

/// A `k` by `n` matrix with rows and columns exchanged.
pub open spec fn transposed_elements<T: Float>(b: Seq<T>, k: int, n: int) -> Seq<T> {
    Seq::new((n * k) as nat, |p: int| b[(p % k) * n + p / k])
}

/// Exchanging rows and columns twice gives back the matrix.
pub proof fn lemma_transposed_twice<T: Float>(b: Seq<T>, k: int, n: int)
    requires
        0 <= k,
        0 <= n,
        b.len() == k * n,
    ensures
        transposed_elements(transposed_elements(b, k, n), n, k) == b,
{
    let once = transposed_elements(b, k, n);
    let twice = transposed_elements(once, n, k);
    assert forall|p: int| 0 <= p < k * n implies twice[p] == b[p] by {
        assert(n > 0) by (nonlinear_arith)
            requires
                0 <= p < k * n,
                0 <= k,
                0 <= n,
        ;
        let i = p / n;
        let j = p % n;
        assert(p == i * n + j && 0 <= i < k && 0 <= j < n) by (nonlinear_arith)
            requires
                i == p / n,
                j == p % n,
                n > 0,
                0 <= p < k * n,
        ;
        lemma_matrix_position(j, i, k, n);
        assert(twice[p] == once[j * k + i]);
    }
    assert(twice =~= b);
}

/// The first `k` columns of a matrix with `m` rows of `width` elements.
pub open spec fn leading_columns<T>(a: Seq<T>, m: int, k: int, width: int) -> Seq<T> {
    Seq::new((m * k) as nat, |p: int| a[(p / k) * width + p % k])
}

/// A product over no inner elements is zero everywhere.
pub proof fn lemma_matmul_none<T: Float>(a: Seq<T>, b: Seq<T>, m: int, n: int, p: int)
    requires
        0 <= p < m * n,
    ensures
        matmul_elements(a, b, m, 0, n)[p] == T::zero_spec(),
{
}

/// The product of a column and a row: every element is the product of one element of
/// each, added to zero.
pub proof fn lemma_matmul_outer<T: Float>(a: Seq<T>, b: Seq<T>, m: int, n: int, i: int, j: int)
    requires
        0 <= i < m,
        0 <= j < n,
        a.len() == m,
        b.len() == n,
    ensures
        matmul_elements(a, b, m, 1, n)[i * n + j] == T::zero_spec().plus(a[i].times(b[j])),
{
    lemma_matrix_position(i, j, n, m);
    reveal_with_fuel(matmul_cell, 2);
    assert(0 * n == 0);
}

proof fn lemma_matmul_cell_prefix<T: Float>(
    a: Seq<T>,
    b: Seq<T>,
    m: int,
    k: int,
    n: int,
    i: int,
    j: int,
    q: int,
)
    requires
        0 <= i < m,
        0 <= j < n,
        0 <= q <= k,
        a.len() == m * (k + 1),
        b.len() == (k + 1) * n,
    ensures
        matmul_cell(a, b, k + 1, n, i, j, q) == matmul_cell(
            leading_columns(a, m, k, k + 1),
            b.take(k * n),
            k,
            n,
            i,
            j,
            q,
        ),
    decreases q,
{
    if q > 0 {
        lemma_matmul_cell_prefix(a, b, m, k, n, i, j, q - 1);
        lemma_matrix_position(i, q - 1, k, m);
        lemma_matrix_position(q - 1, j, n, k);
        assert(k * n <= (k + 1) * n) by (nonlinear_arith)
            requires
                0 <= k,
                0 < n,
        ;
    }
}

/// One more inner element: every element of the product is that of the product without
/// the last column of `a` and the last row of `b`, plus the product of their elements.
pub proof fn lemma_matmul_extended<T: Float>(
    a: Seq<T>,
    b: Seq<T>,
    m: int,
    k: int,
    n: int,
    i: int,
    j: int,
)
    requires
        0 <= i < m,
        0 <= j < n,
        0 <= k,
        a.len() == m * (k + 1),
        b.len() == (k + 1) * n,
    ensures
        matmul_elements(a, b, m, k + 1, n)[i * n + j] == matmul_elements(
            leading_columns(a, m, k, k + 1),
            b.take(k * n),
            m,
            k,
            n,
        )[i * n + j].plus(a[i * (k + 1) + k].times(b[k * n + j])),
{
    lemma_matrix_position(i, j, n, m);
    lemma_matmul_cell_prefix(a, b, m, k, n, i, j, k);
}

/// The element in row `j` and column `i` of a transposed matrix is that in row `i` and
/// column `j` of the matrix.
pub proof fn lemma_transposed_element<T: Float>(b: Seq<T>, k: int, n: int, i: int, j: int)
    requires
        0 <= i < k,
        0 <= j < n,
        b.len() == k * n,
    ensures
        transposed_elements(b, k, n).len() == n * k,
        transposed_elements(b, k, n)[j * k + i] == b[i * n + j],
{
    lemma_matrix_position(j, i, k, n);
}

/// The gradient of the left factor for a weight of one column: the upstream gradient of
/// the row times the weight's element.
pub proof fn lemma_matmul_gradient_outer<T: Float>(
    g: Seq<T>,
    w: Seq<T>,
    m: int,
    k: int,
    i: int,
    q: int,
)
    requires
        0 <= i < m,
        0 <= q < k,
        g.len() == m,
        w.len() == k,
    ensures
        matmul_elements(g, transposed_elements(w, k, 1), m, 1, k)[i * k + q]
            == T::zero_spec().plus(g[i].times(w[q])),
{
    assert(k * 1 == k && 1 * k == k && q * 1 == q && 0 * k == 0);
    lemma_transposed_element(w, k, 1, q, 0);
    lemma_matmul_outer(g, transposed_elements(w, k, 1), m, k, i, q);
}

/// One more column of the weight adds to the gradient of the left factor the upstream
/// gradient of that column times the weight's elements in it.
pub proof fn lemma_matmul_gradient_extended<T: Float>(
    g: Seq<T>,
    w: Seq<T>,
    m: int,
    k: int,
    n: int,
    i: int,
    q: int,
)
    requires
        0 <= i < m,
        0 <= q < k,
        0 <= n,
        g.len() == m * (n + 1),
        w.len() == k * (n + 1),
    ensures
        matmul_elements(g, transposed_elements(w, k, n + 1), m, n + 1, k)[i * k + q]
            == matmul_elements(
            leading_columns(g, m, n, n + 1),
            transposed_elements(leading_columns(w, k, n, n + 1), k, n),
            m,
            n,
            k,
        )[i * k + q].plus(g[i * (n + 1) + n].times(w[q * (n + 1) + n])),
{
    let wt = transposed_elements(w, k, n + 1);
    let short = leading_columns(w, k, n, n + 1);
    assert(k * (n + 1) == (n + 1) * k) by (nonlinear_arith);
    assert(n * k <= (n + 1) * k) by (nonlinear_arith)
        requires
            0 < k,
    ;
    assert(0 <= n * k) by (nonlinear_arith)
        requires
            0 < k,
            0 <= n,
    ;
    assert(wt.take(n * k) =~= transposed_elements(short, k, n)) by {
        assert forall|p: int| 0 <= p < n * k implies wt[p] == transposed_elements(
            short,
            k,
            n,
        )[p] by {
            let c = p / k;
            let r = p % k;
            vstd::arithmetic::div_mod::lemma_fundamental_div_mod(p, k);
            assert(p == c * k + r && 0 <= r < k && 0 <= c < n) by (nonlinear_arith)
                requires
                    p == k * c + r,
                    c == p / k,
                    r == p % k,
                    0 < k,
                    0 <= p < n * k,
            ;
            lemma_matrix_position(r, c, n, k);
            assert(short[r * n + c] == w[r * (n + 1) + c]);
        }
    }
    lemma_matmul_extended(g, wt, m, n, k, i, q);
    lemma_transposed_element(w, k, n + 1, q, n);
}

/// The product with a two-of-four matrix over one inner element: `zero + a[i] * b[j]`.
pub proof fn lemma_matmul_24_outer<T: Float>(
    a: &Tensor<T>,
    data: Seq<T>,
    b: &SemiStructuredSparseTensor<T>,
    ctx: Context,
    t: Tensor<T>,
    i: int,
    j: int,
)
    requires
        b.wf(),
        matmul_24_error(a, b) is None,
        data.len() == shape::prod(a.inner.shape@),
        is_matmul_24(a, data, b, ctx, t),
        b.shape@[0] == 1,
        0 <= i < a.inner.shape@[0],
        0 <= j < b.shape@[1],
    ensures
        t.inner.shape@ == seq![a.inner.shape@[0], b.shape@[1]],
        t.logical()[i * b.shape@[1] + j] == T::zero_spec().plus(
            data[i].times(b.elements()[j]),
        ),
{
    let m = a.inner.shape@[0];
    let n = b.shape@[1];
    lemma_matmul_24_elements(a, data, b, ctx, t);
    lemma_matmul_outer(data, b.elements(), m as int, n as int, i, j);
}

proof fn lemma_matmul_24_elements<T: Float>(
    a: &Tensor<T>,
    data: Seq<T>,
    b: &SemiStructuredSparseTensor<T>,
    ctx: Context,
    t: Tensor<T>,
)
    requires
        b.wf(),
        matmul_24_error(a, b) is None,
        data.len() == shape::prod(a.inner.shape@),
        is_matmul_24(a, data, b, ctx, t),
    ensures
        data.len() == a.inner.shape@[0] * b.shape@[0],
        b.elements().len() == b.shape@[0] * b.shape@[1],
        t.logical() == matmul_elements(
            data,
            b.elements(),
            a.inner.shape@[0] as int,
            b.shape@[0] as int,
            b.shape@[1] as int,
        ),
{
    let m = a.inner.shape@[0];
    let k = b.shape@[0];
    let n = b.shape@[1];
    assert(a.inner.shape@ =~= seq![m, k]);
    assert(b.shape@ =~= seq![k, n]);
    lemma_matrix_prod(m, k);
    lemma_matrix_prod(k, n);
    lemma_matrix_prod(m, n);
    t.lemma_dense();
    assert(t.logical() =~= matmul_elements(data, b.elements(), m as int, k as int, n as int));
}

/// One more inner element in a product with a two-of-four matrix: every element is that
/// of the product without the last column of `a2` and the last row of `b2`, plus the
/// product of their elements.
pub proof fn lemma_matmul_24_extended<T: Float>(
    a: &Tensor<T>,
    data: Seq<T>,
    b: &SemiStructuredSparseTensor<T>,
    ctx: Context,
    t: Tensor<T>,
    a2: &Tensor<T>,
    data2: Seq<T>,
    b2: &SemiStructuredSparseTensor<T>,
    ctx2: Context,
    t2: Tensor<T>,
    i: int,
    j: int,
)
    requires
        b.wf(),
        matmul_24_error(a, b) is None,
        data.len() == shape::prod(a.inner.shape@),
        is_matmul_24(a, data, b, ctx, t),
        b2.wf(),
        matmul_24_error(a2, b2) is None,
        data2.len() == shape::prod(a2.inner.shape@),
        is_matmul_24(a2, data2, b2, ctx2, t2),
        a2.inner.shape@[0] == a.inner.shape@[0],
        b2.shape@[0] == b.shape@[0] + 1,
        b2.shape@[1] == b.shape@[1],
        data == leading_columns(
            data2,
            a.inner.shape@[0] as int,
            b.shape@[0] as int,
            b.shape@[0] + 1,
        ),
        b.elements() == b2.elements().take(b.shape@[0] * b.shape@[1]),
        0 <= i < a.inner.shape@[0],
        0 <= j < b.shape@[1],
    ensures
        t2.logical()[i * b.shape@[1] + j] == t.logical()[i * b.shape@[1] + j].plus(
            data2[i * (b.shape@[0] + 1) + b.shape@[0]].times(
                b2.elements()[b.shape@[0] * b.shape@[1] + j],
            ),
        ),
{
    lemma_matmul_24_elements(a, data, b, ctx, t);
    lemma_matmul_24_elements(a2, data2, b2, ctx2, t2);
    lemma_matmul_extended(
        data2,
        b2.elements(),
        a.inner.shape@[0] as int,
        b.shape@[0] as int,
        b.shape@[1] as int,
        i,
        j,
    );
}

/// Why a product with a two-of-four matrix is refused, if it is.
pub open spec fn matmul_24_error<T: Float>(
    a: &Tensor<T>,
    b: &SemiStructuredSparseTensor<T>,
) -> Option<FerrotorchError> {
    if a.inner.shape@.len() != 2 {
        Some(not_matrix(a.inner.shape@.len()))
    } else if b.shape@.len() != 2 {
        Some(not_matrix(b.shape@.len()))
    } else if a.inner.shape@[1] != b.shape@[0] {
        Some(
            FerrotorchError::ShapeMismatch {
                reason: Reason::InnerSizes { left: a.inner.shape@[1], right: b.shape@[0] },
            },
        )
    } else if b.shape@[1] % 4 != 0 {
        Some(
            FerrotorchError::InvalidArgument {
                reason: Reason::NotMultipleOfFour { size: b.shape@[1] },
            },
        )
    } else {
        None
    }
}

/// The gradient part of a product.
pub open spec fn matmul_24_grad<T: Float>(
    a: &Tensor<T>,
    b: &SemiStructuredSparseTensor<T>,
    ctx: Context,
    t: Tensor<T>,
) -> bool {
    if ctx.grad_enabled && a.inner.requires_grad && !ctx.inference {
        &&& t.inner.grad_fn matches Some(g) && (*g matches GradFn::Matmul24(w) && w.a == *a
            && w.weight@ == b.elements() && w.k == b.shape@[0] && w.n == b.shape@[1])
        &&& t.inner.requires_grad
        &&& !t.inner.is_leaf
    } else {
        t.is_plain(false)
    }
}

/// The product computed from the listed elements of `a`.
pub open spec fn is_matmul_24<T: Float>(
    a: &Tensor<T>,
    data: Seq<T>,
    b: &SemiStructuredSparseTensor<T>,
    ctx: Context,
    t: Tensor<T>,
) -> bool {
    let m = a.inner.shape@[0];
    let k = b.shape@[0];
    let n = b.shape@[1];
    &&& t.is_dense_cpu(
        ctx.fresh,
        matmul_elements(data, b.elements(), m as int, k as int, n as int),
        seq![m, n],
    )
    &&& matmul_24_grad(a, b, ctx, t)
    &&& t.wf()
    &&& t.in_bounds()
}

/// The product of a dense matrix and a two-of-four matrix.
pub fn sparse_matmul_24<T: Float>(
    a: &Tensor<T>,
    b: &SemiStructuredSparseTensor<T>,
    ctx: Context,
) -> (r: FerrotorchResult<Plan<Tensor<T>, Matmul24Job<T>>>)
    requires
        a.wf(),
        a.inner.storage.on_host() && !a.contiguous_spec() ==> a.in_bounds(),
        b.wf(),
        matmul_24_error(a, b) is None ==> shape::shape_fits(
            seq![a.inner.shape@[0], b.shape@[1]],
        ),
    ensures
        if matmul_24_error(a, b) is Some {
            r matches Err(e) && matmul_24_error(a, b) == Some(e)
        } else if a.inner.storage.device is Cuda && ctx.backend {
            if scatter_kernel_spec(T::dtype_spec()) is None {
                r matches Err(e) && e == (FerrotorchError::NotImplementedOnCuda {
                    op: CudaGap::SparseMatmul24,
                })
            } else {
                r matches Ok(
                    Plan::Device(Matmul24Job::Multiply { a: lhs, weight, kernel, m, k, n }),
                ) && lhs == *a && weight@ == b.elements() && Some(kernel) == scatter_kernel_spec(
                    T::dtype_spec(),
                ) && m == a.inner.shape@[0] && k == b.shape@[0] && n == b.shape@[1]
            }
        } else if a.inner.storage.on_host() && a.readable() {
            r matches Ok(Plan::Ready(t)) && is_matmul_24(a, a.logical(), b, ctx, t)
        } else {
            match r {
                Ok(Plan::Device(Matmul24Job::Read(j))) => a.data_vec_outcome(
                    ctx,
                    Ok(Plan::Device(j)),
                ),
                Ok(_) => false,
                Err(e) => a.data_vec_outcome(ctx, Err(e)),
            }
        },
{
    if a.ndim() != 2 {
        return Err(
            FerrotorchError::InvalidArgument { reason: Reason::NotMatrix { ndim: a.ndim() } },
        );
    }
    if b.shape.len() != 2 {
        return Err(
            FerrotorchError::InvalidArgument { reason: Reason::NotMatrix { ndim: b.shape.len() } },
        );
    }
    let m: usize = a.shape()[0];
    let k: usize = a.shape()[1];
    let k_b: usize = b.shape[0];
    let n: usize = b.shape[1];
    if k != k_b {
        return Err(
            FerrotorchError::ShapeMismatch { reason: Reason::InnerSizes { left: k, right: k_b } },
        );
    }
    if n % 4 != 0 {
        return Err(
            FerrotorchError::InvalidArgument { reason: Reason::NotMultipleOfFour { size: n } },
        );
    }
    if a.is_cuda() && ctx.backend {
        return match scatter_kernel(T::dtype()) {
            None => Err(
                FerrotorchError::NotImplementedOnCuda { op: CudaGap::SparseMatmul24 },
            ),
            Some(kernel) => Ok(
                Plan::Device(
                    Matmul24Job::Multiply {
                        a: a.clone(),
                        weight: b.decompressed_data(),
                        kernel,
                        m,
                        k,
                        n,
                    },
                ),
            ),
        };
    }
    match a.data_vec(ctx)? {
        Plan::Ready(data) => Ok(Plan::Ready(multiply_host(a, data.as_slice(), b, ctx)?)),
        Plan::Device(j) => Ok(Plan::Device(Matmul24Job::Read(j))),
    }
}

/// The product on the host, from the listed elements of `a`.
pub fn multiply_host<T: Float>(
    a: &Tensor<T>,
    data: &[T],
    b: &SemiStructuredSparseTensor<T>,
    ctx: Context,
) -> (r: FerrotorchResult<Tensor<T>>)
    requires
        a.wf(),
        b.wf(),
        matmul_24_error(a, b) is None,
        shape::shape_fits(seq![a.inner.shape@[0], b.shape@[1]]),
        data@.len() == shape::prod(a.inner.shape@),
    ensures
        r matches Ok(t) && is_matmul_24(a, data@, b, ctx, t),
{
    let m: usize = a.shape()[0];
    let k: usize = b.shape[0];
    let n: usize = b.shape[1];
    let weight: Vec<T> = b.decompressed_data();
    proof {
        assert(a.inner.shape@ =~= seq![m, k]);
        assert(b.shape@ =~= seq![k, n]);
        lemma_matrix_prod(m, k);
        lemma_matrix_prod(k, n);
        lemma_matrix_prod(m, n);
    }
    let out: Vec<T> = matmul_data(data, weight.as_slice(), m, k, n);
    finish_matmul_24(a, b, TensorStorage::cpu(out), ctx)
}

/// The elements of a product of two matrices.
pub fn matmul_data<T: Float>(a: &[T], b: &[T], m: usize, k: usize, n: usize) -> (r: Vec<T>)
    requires
        a@.len() == m * k,
        b@.len() == k * n,
        m * n <= usize::MAX,
    ensures
        r@ == matmul_elements(a@, b@, m as int, k as int, n as int),
{
    let mut out: Vec<T> = Vec::new();
    let a_len: usize = a.len();
    let b_len: usize = b.len();
    let mut i: usize = 0;
    proof {
        assert(0 * n == 0);
    }
    while i < m
        invariant
            i <= m,
            a_len == a@.len(),
            b_len == b@.len(),
            a@.len() == m * k,
            b@.len() == k * n,
            m * n <= usize::MAX,
            out@.len() == i * n,
            forall|p: int|
                0 <= p < i * n ==> #[trigger] out@[p] == matmul_cell(
                    a@,
                    b@,
                    k as int,
                    n as int,
                    p / (n as int),
                    p % (n as int),
                    k as int,
                ),
        decreases m - i,
    {
        let mut j: usize = 0;
        while j < n
            invariant
                i < m,
                j <= n,
                a_len == a@.len(),
                b_len == b@.len(),
                a@.len() == m * k,
                b@.len() == k * n,
                m * n <= usize::MAX,
                out@.len() == i * n + j,
                forall|p: int|
                    0 <= p < i * n + j ==> #[trigger] out@[p] == matmul_cell(
                        a@,
                        b@,
                        k as int,
                        n as int,
                        p / (n as int),
                        p % (n as int),
                        k as int,
                    ),
            decreases n - j,
        {
            let mut acc: T = T::zero();
            let mut q: usize = 0;
            while q < k
                invariant
                    i < m,
                    j < n,
                    q <= k,
                    a_len == a@.len(),
                    b_len == b@.len(),
                    a@.len() == m * k,
                    b@.len() == k * n,
                    acc == matmul_cell(
                        a@,
                        b@,
                        k as int,
                        n as int,
                        i as int,
                        j as int,
                        q as int,
                    ),
                decreases k - q,
            {
                proof {
                    lemma_matrix_position(i as int, q as int, k as int, m as int);
                    lemma_matrix_position(q as int, j as int, n as int, k as int);
                    assert(0 <= i * k) by (nonlinear_arith);
                    assert(0 <= q * n) by (nonlinear_arith);
                }
                acc = acc.add(a[i * k + q].mul(b[q * n + j]));
                q = q + 1;
            }
            proof {
                lemma_matrix_position(i as int, j as int, n as int, m as int);
            }
            out.push(acc);
            j = j + 1;
        }
        proof {
            assert(i * n + n == (i + 1) * n) by (nonlinear_arith);
        }
        i = i + 1;
    }
    proof {
        assert(out@ =~= matmul_elements(a@, b@, m as int, k as int, n as int));
    }
    out
}

/// The product over the storage that holds its elements.
pub fn finish_matmul_24<T: Float>(
    a: &Tensor<T>,
    b: &SemiStructuredSparseTensor<T>,
    storage: TensorStorage<T>,
    ctx: Context,
) -> (r: FerrotorchResult<Tensor<T>>)
    requires
        b.wf(),
        matmul_24_error(a, b) is None,
        storage.wf(),
        shape::shape_fits(seq![a.inner.shape@[0], b.shape@[1]]),
    ensures
        ({
            let sh = seq![a.inner.shape@[0], b.shape@[1]];
            match r {
                Ok(t) => {
                    &&& shape::prod(sh) <= storage.spec_len()
                    &&& t.is_dense(ctx.fresh, storage, sh)
                    &&& matmul_24_grad(a, b, ctx, t)
                    &&& t.wf()
                    &&& t.in_bounds()
                },
                Err(e) => {
                    &&& shape::prod(sh) > storage.spec_len()
                    &&& e == too_small(sh, storage)
                },
            }
        }),
{
    let m: usize = a.shape()[0];
    let k: usize = b.shape[0];
    let n: usize = b.shape[1];
    if ctx.grad_enabled && a.requires_grad() {
        return Tensor::from_operation(
            storage,
            matrix_shape(m, n),
            GradFn::Matmul24(
                Matmul24Backward { a: a.clone(), weight: b.decompressed_data(), k, n },
            ),
            ctx,
        );
    }
    Tensor::from_storage(storage, matrix_shape(m, n), false, ctx.fresh)
}

impl<T: Float> Matmul24Backward<T> {
    /// As many elements as the weight has.
    pub open spec fn wf(&self) -> bool {
        &&& self.weight@.len() == self.k * self.n
        &&& shape::shape_fits(seq![self.n, self.k])
    }

    /// `t` is the transposed weight, on the host.
    pub open spec fn is_transposed(&self, t: Tensor<T>, ctx: Context) -> bool {
        &&& t.is_dense_cpu(
            ctx.fresh,
            transposed_elements(self.weight@, self.k as int, self.n as int),
            seq![self.n, self.k],
        )
        &&& t.is_plain(false)
    }

    /// The transposed weight has in row `j` and column `i` what the weight has in row `i`
    /// and column `j`.
    pub proof fn lemma_transposed_weight(&self, t: Tensor<T>, ctx: Context, i: int, j: int)
        requires
            self.wf(),
            t.wf(),
            self.is_transposed(t, ctx),
            0 <= i < self.k,
            0 <= j < self.n,
        ensures
            t.inner.shape@ == seq![self.n, self.k],
            t.logical()[j * self.k + i] == self.weight@[i * self.n + j],
    {
        lemma_matrix_prod(self.n, self.k);
        t.lemma_dense();
        lemma_matrix_position(j, i, self.k as int, self.n as int);
        lemma_transposed_element(self.weight@, self.k as int, self.n as int, i, j);
    }

    /// The operands of the gradient of `a`: the upstream gradient and the transposed
    /// weight, on the same device.
    pub fn backward(&self, grad_output: &Tensor<T>, ctx: Context) -> (r: FerrotorchResult<
        Plan<MatmulOperands<T>, TransferJob<T>>,
    >)
        requires
            self.wf(),
        ensures
            exists|t: Tensor<T>|
                {
                    &&& #[trigger] self.is_transposed(t, ctx)
                    &&& match r {
                        Ok(Plan::Ready(o)) => o.lhs == *grad_output && t.to_outcome(
                            grad_output.inner.storage.device,
                            ctx,
                            Ok(Plan::Ready(o.rhs)),
                        ),
                        Ok(Plan::Device(j)) => t.to_outcome(
                            grad_output.inner.storage.device,
                            ctx,
                            Ok(Plan::Device(j)),
                        ),
                        Err(e) => t.to_outcome(grad_output.inner.storage.device, ctx, Err(e)),
                    }
                },
    {
        let data: Vec<T> = self.transposed_weight();
        proof {
            lemma_matrix_prod(self.n, self.k);
        }
        let rhs: Tensor<T> = match Tensor::from_storage(
            TensorStorage::cpu(data),
            matrix_shape(self.n, self.k),
            false,
            ctx.fresh,
        ) {
            Ok(t) => t,
            Err(_) => {
                proof {
                    assert(false);
                }
                vstd::pervasive::unreached()
            },
        };
        proof {
            assert(self.is_transposed(rhs, ctx));
        }
        match rhs.to(grad_output.device(), ctx) {
            Ok(Plan::Ready(t)) => Ok(
                Plan::Ready(MatmulOperands { lhs: grad_output.clone(), rhs: t }),
            ),
            Ok(Plan::Device(j)) => Ok(Plan::Device(j)),
            Err(e) => Err(e),
        }
    }

    /// Whether there are as many elements as the weight has.
    pub fn is_valid(&self) -> (r: bool)
        ensures
            r == self.wf(),
    {
        let sh: Vec<usize> = matrix_shape(self.n, self.k);
        if !fits_shape(sh.as_slice()) {
            return false;
        }
        proof {
            lemma_matrix_prod(self.n, self.k);
            assert(self.k * self.n == self.n * self.k) by (nonlinear_arith);
        }
        self.weight.len() == self.k * self.n
    }

    /// The operands of the gradient of `a`, where the transposed weight arrived in
    /// `storage` on the device of the upstream gradient.
    pub fn finish_operands(
        &self,
        grad_output: &Tensor<T>,
        storage: TensorStorage<T>,
        ctx: Context,
    ) -> (r: FerrotorchResult<MatmulOperands<T>>)
        requires
            self.wf(),
            storage.wf(),
        ensures
            if self.n * self.k <= storage.spec_len() {
                r matches Ok(o) && o.lhs == *grad_output && o.rhs.is_dense(
                    ctx.fresh,
                    storage,
                    seq![self.n, self.k],
                ) && o.rhs.is_plain(false) && o.rhs.wf() && o.rhs.in_bounds()
            } else {
                r matches Err(e) && e == too_small(seq![self.n, self.k], storage)
            },
    {
        proof {
            lemma_matrix_prod(self.n, self.k);
        }
        let rhs: Tensor<T> = Tensor::from_storage(
            storage,
            matrix_shape(self.n, self.k),
            false,
            ctx.fresh,
        )?;
        Ok(MatmulOperands { lhs: grad_output.clone(), rhs })
    }

    /// The gradient of `a` for the elements of an upstream gradient of `m` rows, on the
    /// host: its product with the transposed weight.
    pub fn host_gradient(&self, upstream: &[T], m: usize, ctx: Context) -> (r: FerrotorchResult<
        Tensor<T>,
    >)
        requires
            self.wf(),
            upstream@.len() == m * self.n,
            shape::shape_fits(seq![m, self.k]),
        ensures
            r matches Ok(t) && t.is_dense_cpu(
                ctx.fresh,
                matmul_elements(
                    upstream@,
                    transposed_elements(self.weight@, self.k as int, self.n as int),
                    m as int,
                    self.n as int,
                    self.k as int,
                ),
                seq![m, self.k],
            ) && t.is_plain(false) && t.wf() && t.in_bounds(),
    {
        let weight: Vec<T> = self.transposed_weight();
        proof {
            lemma_matrix_prod(m, self.k);
            assert(self.k * self.n == self.n * self.k) by (nonlinear_arith);
        }
        let out: Vec<T> = matmul_data(upstream, weight.as_slice(), m, self.n, self.k);
        self.finish_gradient(TensorStorage::cpu(out), m, ctx)
    }

    /// The gradient of `a` over the storage that its product was made in.
    pub fn finish_gradient(&self, storage: TensorStorage<T>, m: usize, ctx: Context) -> (r:
        FerrotorchResult<Tensor<T>>)
        requires
            storage.wf(),
            shape::shape_fits(seq![m, self.k]),
        ensures
            if m * self.k <= storage.spec_len() {
                r matches Ok(t) && t.is_dense(ctx.fresh, storage, seq![m, self.k]) && t.is_plain(
                    false,
                ) && t.wf() && t.in_bounds()
            } else {
                r matches Err(e) && e == too_small(seq![m, self.k], storage)
            },
    {
        proof {
            lemma_matrix_prod(m, self.k);
        }
        Tensor::from_storage(storage, matrix_shape(m, self.k), false, ctx.fresh)
    }

    fn transposed_weight(&self) -> (r: Vec<T>)
        requires
            self.wf(),
        ensures
            r@ == transposed_elements(self.weight@, self.k as int, self.n as int),
    {
        let k: usize = self.k;
        let n: usize = self.n;
        let total: usize = self.weight.len();
        let mut out: Vec<T> = Vec::new();
        let mut j: usize = 0;
        proof {
            assert(0 * k == 0);
            assert(k * n == n * k) by (nonlinear_arith);
        }
        while j < n
            invariant
                j <= n,
                k == self.k,
                n == self.n,
                total == self.weight@.len(),
                total == k * n,
                out@.len() == j * k,
                forall|p: int|
                    0 <= p < j * k ==> #[trigger] out@[p] == self.weight@[(p % (k as int)) * n + p
                        / (k as int)],
            decreases n - j,
        {
            let mut i: usize = 0;
            while i < k
                invariant
                    i <= k,
                    j < n,
                    k == self.k,
                    n == self.n,
                    total == self.weight@.len(),
                    total == k * n,
                    out@.len() == j * k + i,
                    forall|p: int|
                        0 <= p < j * k + i ==> #[trigger] out@[p] == self.weight@[(p % (k as int))
                            * n + p / (k as int)],
                decreases k - i,
            {
                proof {
                    lemma_matrix_position(i as int, j as int, n as int, k as int);
                    lemma_matrix_position(j as int, i as int, k as int, n as int);
                    assert(0 <= i * n) by (nonlinear_arith);
                }
                out.push(self.weight[i * n + j]);
                i = i + 1;
            }
            proof {
                assert(j * k + k == (j + 1) * k) by (nonlinear_arith);
            }
            j = j + 1;
        }
        proof {
            assert(out@ =~= transposed_elements(self.weight@, k as int, n as int));
        }
        out
    }
}

} // verus!
