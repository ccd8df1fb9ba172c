//! Orthogonal polynomials, by their three-term recurrences.

use crate::autograd::{Context, Plan, TensorId};
use crate::dtype::{is_nan, is_nan_spec, DType, Float};
use crate::error::{CudaGap, FerrotorchError, FerrotorchResult};
use crate::scatter::{copied, filled};
use crate::shape;
use crate::storage::TensorStorage;
use crate::tensor::Tensor;
use crate::transfer::TransferJob;
use crate::update::{scatter_kernel, scatter_kernel_spec, ScatterKernel};
use vstd::prelude::*;

verus! {

/// A family of orthogonal polynomials.
#[derive(Clone, Copy, Debug, PartialEq, Eq, Structural)]
pub enum Family {
    /// Chebyshev polynomials of the first kind.
    ChebyshevT,
    /// Chebyshev polynomials of the second kind.
    ChebyshevU,
    /// Chebyshev polynomials of the third kind.
    ChebyshevV,
    /// Chebyshev polynomials of the fourth kind.
    ChebyshevW,
    /// Hermite polynomials of the physicists.
    HermiteH,
    /// Hermite polynomials of the probabilists.
    HermiteHe,
    /// Laguerre polynomials.
    LaguerreL,
    /// Legendre polynomials.
    LegendreP,
}

/// Which polynomials to evaluate: a family, and for the Chebyshev families whether the
/// argument is shifted from `[0, 1]` to `[-1, 1]` first.
#[derive(Clone, Copy, Debug, PartialEq, Eq, Structural)]
pub struct Basis {
    pub family: Family,
    pub shifted: bool,
}

/// The polynomial of degree one at `x`.
pub open spec fn linear<T: Float>(family: Family, x: T) -> T {
    match family {
        Family::ChebyshevT => x,
        Family::ChebyshevU => x.plus(x),
        Family::ChebyshevV => x.plus(x).minus(T::one_spec()),
        Family::ChebyshevW => x.plus(x).plus(T::one_spec()),
        Family::HermiteH => x.plus(x),
        Family::HermiteHe => x,
        Family::LaguerreL => T::one_spec().minus(x),
        Family::LegendreP => x,
    }
}

/// The polynomial of degree `k + 1` at `x`, from those of degrees `k` and `k - 1`.
pub open spec fn successor<T: Float>(family: Family, k: usize, x: T, p1: T, p2: T) -> T {
    let one = T::one_spec();
    let kf = T::nearest(k);
    match family {
        Family::HermiteH => x.plus(x).times(p1).minus(kf.plus(kf).times(p2)),
        Family::HermiteHe => x.times(p1).minus(kf.times(p2)),
        Family::LaguerreL => kf.plus(kf).plus(one.minus(x)).times(p1).minus(kf.times(p2)).over(
            kf.plus(one),
        ),
        Family::LegendreP => kf.plus(kf).plus(one).times(x).times(p1).minus(kf.times(p2)).over(
            kf.plus(one),
        ),
        _ => x.plus(x).times(p1).minus(p2),
    }
}

/// Whether a value that is not a number ends the recurrence.
pub open spec fn latches(family: Family) -> bool {
    !(family is HermiteH || family is HermiteHe)
}

/// The last two values of the recurrence, up to degree `n`.
pub open spec fn values_to<T: Float>(family: Family, n: int, x: T) -> (T, T)
    decreases n,
{
    if n <= 1 {
        (T::one_spec(), linear(family, x))
    } else {
        let (p2, p1) = values_to(family, n - 1, x);
        if latches(family) && is_nan_spec(p1) {
            (p2, p1)
        } else {
            (p1, successor(family, (n - 1) as usize, x, p1, p2))
        }
    }
}

/// The polynomial of degree `n` at `x`.
pub open spec fn polynomial_spec<T: Float>(family: Family, n: int, x: T) -> T {
    if n <= 0 {
        T::one_spec()
    } else {
        values_to(family, n, x).1
    }
}

/// The argument of a polynomial: `2x - 1` in place of `x` where the basis is shifted.
pub open spec fn argument<T: Float>(basis: Basis, x: T) -> T {
    if basis.shifted {
        x.plus(x).minus(T::one_spec())
    } else {
        x
    }
}

/// The three-term recurrence: a polynomial follows from the two before it, as long as
/// those are numbers.
pub proof fn lemma_recurrence<T: Float>(family: Family, n: int, x: T)
    requires
        1 <= n < usize::MAX,
        !is_nan_spec(polynomial_spec(family, n, x)),
        !is_nan_spec(polynomial_spec(family, n - 1, x)),
    ensures
        polynomial_spec(family, n + 1, x) == successor(
            family,
            n as usize,
            x,
            polynomial_spec(family, n, x),
            polynomial_spec(family, n - 1, x),
        ),
{
    if n > 1 {
        assert(values_to(family, n, x).0 == values_to(family, n - 1, x).1);
    }
}

/// Once a value of a family that latches is not a number, all further ones are that
/// value.
pub proof fn lemma_latched<T: Float>(family: Family, n: int, m: int, x: T)
    requires
        1 <= n <= m,
        latches(family),
        is_nan_spec(polynomial_spec(family, n, x)),
    ensures
        polynomial_spec(family, m, x) == polynomial_spec(family, n, x),
    decreases m,
{
    if n < m {
        lemma_latched(family, n, m - 1, x);
    }
}

/// The Chebyshev polynomials of the first kind are one at one.
pub proof fn lemma_chebyshev_t_at_one<T: Float>(n: int)
    ensures
        polynomial_spec(Family::ChebyshevT, n, T::one_spec()) == T::one_spec(),
        values_to(Family::ChebyshevT, n, T::one_spec()) == (T::one_spec(), T::one_spec()),
    decreases n,
{
    T::lemma_units();
    if n > 1 {
        lemma_chebyshev_t_at_one::<T>(n - 1);
    }
}

/// Minus one.
pub open spec fn minus_one<T: Float>() -> T {
    T::zero_spec().minus(T::one_spec())
}

/// The Chebyshev polynomials of the first kind are one and minus one in turn at minus
/// one.
pub proof fn lemma_chebyshev_t_at_minus_one<T: Float>(n: int)
    requires
        0 <= n,
    ensures
        polynomial_spec(Family::ChebyshevT, n, minus_one::<T>()) == if n % 2 == 0 {
            T::one_spec()
        } else {
            minus_one::<T>()
        },
        n >= 1 ==> values_to(Family::ChebyshevT, n, minus_one::<T>()) == if n % 2 == 0 {
            (minus_one::<T>(), T::one_spec())
        } else {
            (T::one_spec(), minus_one::<T>())
        },
    decreases n,
{
    T::lemma_units();
    if n > 1 {
        lemma_chebyshev_t_at_minus_one::<T>(n - 1);
    }
}

fn linear_at<T: Float>(family: Family, x: T) -> (r: T)
    ensures
        r == linear(family, x),
{
    match family {
        Family::ChebyshevT => x,
        Family::ChebyshevU => x.add(x),
        Family::ChebyshevV => x.add(x).sub(T::one()),
        Family::ChebyshevW => x.add(x).add(T::one()),
        Family::HermiteH => x.add(x),
        Family::HermiteHe => x,
        Family::LaguerreL => T::one().sub(x),
        Family::LegendreP => x,
    }
}

fn successor_at<T: Float>(family: Family, k: usize, x: T, p1: T, p2: T) -> (r: T)
    ensures
        r == successor(family, k, x, p1, p2),
{
    let one: T = T::one();
    let kf: T = T::from_usize(k);
    match family {
        Family::HermiteH => x.add(x).mul(p1).sub(kf.add(kf).mul(p2)),
        Family::HermiteHe => x.mul(p1).sub(kf.mul(p2)),
        Family::LaguerreL => kf.add(kf).add(one.sub(x)).mul(p1).sub(kf.mul(p2)).div(kf.add(one)),
        Family::LegendreP => kf.add(kf).add(one).mul(x).mul(p1).sub(kf.mul(p2)).div(kf.add(one)),
        _ => x.add(x).mul(p1).sub(p2),
    }
}

/// The polynomial of degree `n` at `x`.
pub fn polynomial<T: Float>(family: Family, n: usize, x: T) -> (r: T)
    ensures
        r == polynomial_spec(family, n as int, x),
{
    if n == 0 {
        return T::one();
    }
    let latched: bool = match family {
        Family::HermiteH => false,
        Family::HermiteHe => false,
        _ => true,
    };
    let mut p2: T = T::one();
    let mut p1: T = linear_at(family, x);
    let mut k: usize = 1;
    while k < n
        invariant
            1 <= k <= n,
            latched == latches(family),
            (p2, p1) == values_to(family, k as int, x),
        decreases n - k,
    {
        if latched && is_nan(p1) {
            proof {
                assert(polynomial_spec(family, k as int, x) == p1);
                lemma_latched(family, k as int, n as int, x);
            }
            return p1;
        }
        let next: T = successor_at(family, k, x, p1, p2);
        p2 = p1;
        p1 = next;
        k = k + 1;
    }
    p1
}

/// The highest degree up to which a Hermite polynomial is evaluated.
pub open spec fn hermitian_limit_spec(dtype: DType) -> usize {
    match dtype {
        DType::F32 => 128,
        DType::F64 => 512,
        _ => 1024,
    }
}

/// The highest degree up to which a Hermite polynomial is evaluated; the recurrence
/// overflows soon after.
pub fn hermitian_limit(dtype: DType) -> (r: usize)
    ensures
        r == hermitian_limit_spec(dtype),
{
    match dtype {
        DType::F32 => 128,
        DType::F64 => 512,
        _ => 1024,
    }
}

/// The first two coefficients of the degree-one polynomial of a Chebyshev family, by
/// which the device kernel tells the families apart: it is `a x + b`.
pub fn chebyshev_seeds(family: Family) -> (r: Option<(i32, i32)>)
    ensures
        r == match family {
            Family::ChebyshevT => Some((1i32, 0i32)),
            Family::ChebyshevU => Some((2i32, 0i32)),
            Family::ChebyshevV => Some((2i32, -1i32)),
            Family::ChebyshevW => Some((2i32, 1i32)),
            _ => None,
        },
{
    match family {
        Family::ChebyshevT => Some((1, 0)),
        Family::ChebyshevU => Some((2, 0)),
        Family::ChebyshevV => Some((2, -1)),
        Family::ChebyshevW => Some((2, 1)),
        _ => None,
    }
}

/// What has to be done to evaluate a polynomial.
#[derive(Debug)]
pub enum PolynomialJob<T: Float> {
    /// Make the input contiguous and evaluate on its device.
    Evaluate { input: Tensor<T>, basis: Basis, n: usize, kernel: ScatterKernel },
    /// Read the input back; the values are then those of [`polynomial_of`].
    Read(TransferJob<T>),
}

/// The values of a polynomial at listed points.
pub open spec fn polynomial_elements<T: Float>(basis: Basis, n: int, data: Seq<T>) -> Seq<T> {
    Seq::new(
        data.len(),
        |i: int| polynomial_spec(basis.family, n, argument(basis, data[i])),
    )
}

/// The values of a polynomial at listed points.
pub fn polynomial_of<T: Float>(basis: Basis, n: usize, data: &[T]) -> (r: Vec<T>)
    ensures
        r@ == polynomial_elements(basis, n as int, data@),
{
    let mut out: Vec<T> = Vec::new();
    let mut i: usize = 0;
    while i < data.len()
        invariant
            i <= data@.len(),
            out@.len() == i,
            forall|j: int|
                0 <= j < i ==> #[trigger] out@[j] == polynomial_spec(
                    basis.family,
                    n as int,
                    argument(basis, data@[j]),
                ),
        decreases data.len() - i,
    {
        let x: T = if basis.shifted {
            data[i].add(data[i]).sub(T::one())
        } else {
            data[i]
        };
        out.push(polynomial(basis.family, n, x));
        i = i + 1;
    }
    proof {
        assert(out@ =~= polynomial_elements(basis, n as int, data@));
    }
    out
}

/// The degree is beyond the limit of a Hermite polynomial.
pub open spec fn beyond_limit(basis: Basis, n: usize, dtype: DType) -> bool {
    (basis.family is HermiteH || basis.family is HermiteHe) && n > hermitian_limit_spec(dtype)
}

/// The outcome of evaluating a polynomial at every element of a tensor.
pub open spec fn polynomial_outcome<T: Float>(
    basis: Basis,
    input: &Tensor<T>,
    n: usize,
    ctx: Context,
    r: FerrotorchResult<Plan<Tensor<T>, PolynomialJob<T>>>,
) -> bool {
    let sh = input.inner.shape@;
    if input.inner.storage.device is Cuda {
        if scatter_kernel_spec(T::dtype_spec()) is None {
            r matches Err(e) && e == (FerrotorchError::NotImplementedOnCuda {
                op: CudaGap::Polynomial { basis },
            })
        } else if !ctx.backend {
            r matches Err(e) && e == FerrotorchError::DeviceUnavailable
        } else {
            r matches Ok(Plan::Device(PolynomialJob::Evaluate { input: i, basis: b, n: m, kernel }))
                && i == *input && b == basis && m == n && Some(kernel) == scatter_kernel_spec(
                T::dtype_spec(),
            )
        }
    } else if beyond_limit(basis, n, T::dtype_spec()) {
        r matches Ok(Plan::Ready(t)) && t.is_dense_cpu(
            ctx.fresh,
            Seq::new(shape::prod(sh), |i: int| T::nan_spec()),
            sh,
        ) && t.is_plain(false) && t.wf() && t.in_bounds()
    } else if input.inner.storage.on_host() && input.readable() {
        r matches Ok(Plan::Ready(t)) && t.is_dense_cpu(
            ctx.fresh,
            polynomial_elements(basis, n as int, input.logical()),
            sh,
        ) && t.is_plain(false) && t.wf() && t.in_bounds()
    } else {
        match r {
            Ok(Plan::Device(PolynomialJob::Read(j))) => input.data_vec_outcome(
                ctx,
                Ok(Plan::Device(j)),
            ),
            Ok(_) => false,
            Err(e) => input.data_vec_outcome(ctx, Err(e)),
        }
    }
}

/// A polynomial at every element of a tensor.
pub fn evaluate<T: Float>(basis: Basis, input: &Tensor<T>, n: usize, ctx: Context) -> (r:
    FerrotorchResult<Plan<Tensor<T>, PolynomialJob<T>>>)
    requires
        input.wf(),
        input.inner.storage.on_host() && !input.contiguous_spec() ==> input.in_bounds(),
    ensures
        polynomial_outcome(basis, input, n, ctx, r),
{
    if input.is_cuda() {
        return match scatter_kernel(T::dtype()) {
            None => Err(
                FerrotorchError::NotImplementedOnCuda { op: CudaGap::Polynomial { basis } },
            ),
            Some(kernel) => if ctx.backend {
                Ok(
                    Plan::Device(
                        PolynomialJob::Evaluate { input: input.clone(), basis, n, kernel },
                    ),
                )
            } else {
                Err(FerrotorchError::DeviceUnavailable)
            },
        };
    }
    let limited: bool = match basis.family {
        Family::HermiteH => true,
        Family::HermiteHe => true,
        _ => false,
    };
    if limited && n > hermitian_limit(T::dtype()) {
        return Ok(Plan::Ready(nan_like(input, ctx.fresh)?));
    }
    match input.data_vec(ctx)? {
        Plan::Device(j) => Ok(Plan::Device(PolynomialJob::Read(j))),
        Plan::Ready(data) => {
            let out: Vec<T> = polynomial_of(basis, n, data.as_slice());
            Ok(
                Plan::Ready(
                    Tensor::from_storage(
                        TensorStorage::cpu(out),
                        copied(input.shape()),
                        false,
                        ctx.fresh,
                    )?,
                ),
            )
        },
    }
}

/// A host tensor of the shape of `input` whose elements are not numbers.
pub fn nan_like<T: Float>(input: &Tensor<T>, id: TensorId) -> (r: FerrotorchResult<Tensor<T>>)
    requires
        input.wf(),
    ensures
        r matches Ok(t) && t.is_dense_cpu(
            id,
            Seq::new(shape::prod(input.inner.shape@), |i: int| T::nan_spec()),
            input.inner.shape@,
        ) && t.is_plain(false) && t.wf() && t.in_bounds(),
{
    let out: Vec<T> = filled(T::nan(), input.numel());
    proof {
        assert(out@ =~= Seq::new(shape::prod(input.inner.shape@), |i: int| T::nan_spec()));
    }
    Tensor::from_storage(TensorStorage::cpu(out), copied(input.shape()), false, id)
}

/// The Chebyshev polynomial of the first kind: `1`, `x`, `2x p - q`.
pub fn chebyshev_polynomial_t<T: Float>(
    input: &Tensor<T>,
    n: usize,
    ctx: Context,
) -> (r: FerrotorchResult<Plan<Tensor<T>, PolynomialJob<T>>>)
    requires
        input.wf(),
        input.inner.storage.on_host() && !input.contiguous_spec() ==> input.in_bounds(),
    ensures
        polynomial_outcome(
            (Basis { family: Family::ChebyshevT, shifted: false }),
            input,
            n,
            ctx,
            r,
        ),
{
    evaluate(Basis { family: Family::ChebyshevT, shifted: false }, input, n, ctx)
}

/// The Chebyshev polynomial of the second kind: `1`, `2x`, `2x p - q`.
pub fn chebyshev_polynomial_u<T: Float>(
    input: &Tensor<T>,
    n: usize,
    ctx: Context,
) -> (r: FerrotorchResult<Plan<Tensor<T>, PolynomialJob<T>>>)
    requires
        input.wf(),
        input.inner.storage.on_host() && !input.contiguous_spec() ==> input.in_bounds(),
    ensures
        polynomial_outcome(
            (Basis { family: Family::ChebyshevU, shifted: false }),
            input,
            n,
            ctx,
            r,
        ),
{
    evaluate(Basis { family: Family::ChebyshevU, shifted: false }, input, n, ctx)
}

/// The Chebyshev polynomial of the third kind: `1`, `2x - 1`, `2x p - q`.
pub fn chebyshev_polynomial_v<T: Float>(
    input: &Tensor<T>,
    n: usize,
    ctx: Context,
) -> (r: FerrotorchResult<Plan<Tensor<T>, PolynomialJob<T>>>)
    requires
        input.wf(),
        input.inner.storage.on_host() && !input.contiguous_spec() ==> input.in_bounds(),
    ensures
        polynomial_outcome(
            (Basis { family: Family::ChebyshevV, shifted: false }),
            input,
            n,
            ctx,
            r,
        ),
{
    evaluate(Basis { family: Family::ChebyshevV, shifted: false }, input, n, ctx)
}

/// The Chebyshev polynomial of the fourth kind: `1`, `2x + 1`, `2x p - q`.
pub fn chebyshev_polynomial_w<T: Float>(
    input: &Tensor<T>,
    n: usize,
    ctx: Context,
) -> (r: FerrotorchResult<Plan<Tensor<T>, PolynomialJob<T>>>)
    requires
        input.wf(),
        input.inner.storage.on_host() && !input.contiguous_spec() ==> input.in_bounds(),
    ensures
        polynomial_outcome(
            (Basis { family: Family::ChebyshevW, shifted: false }),
            input,
            n,
            ctx,
            r,
        ),
{
    evaluate(Basis { family: Family::ChebyshevW, shifted: false }, input, n, ctx)
}

/// The Hermite polynomial of the physicists: `1`, `2x`, `2x p - 2k q`.
pub fn hermite_polynomial_h<T: Float>(
    input: &Tensor<T>,
    n: usize,
    ctx: Context,
) -> (r: FerrotorchResult<Plan<Tensor<T>, PolynomialJob<T>>>)
    requires
        input.wf(),
        input.inner.storage.on_host() && !input.contiguous_spec() ==> input.in_bounds(),
    ensures
        polynomial_outcome(
            (Basis { family: Family::HermiteH, shifted: false }),
            input,
            n,
            ctx,
            r,
        ),
{
    evaluate(Basis { family: Family::HermiteH, shifted: false }, input, n, ctx)
}

/// The Hermite polynomial of the probabilists: `1`, `x`, `x p - k q`.
pub fn hermite_polynomial_he<T: Float>(
    input: &Tensor<T>,
    n: usize,
    ctx: Context,
) -> (r: FerrotorchResult<Plan<Tensor<T>, PolynomialJob<T>>>)
    requires
        input.wf(),
        input.inner.storage.on_host() && !input.contiguous_spec() ==> input.in_bounds(),
    ensures
        polynomial_outcome(
            (Basis { family: Family::HermiteHe, shifted: false }),
            input,
            n,
            ctx,
            r,
        ),
{
    evaluate(Basis { family: Family::HermiteHe, shifted: false }, input, n, ctx)
}

/// The Laguerre polynomial: `1`, `1 - x`, `((2k + 1 - x) p - k q) / (k + 1)`.
pub fn laguerre_polynomial_l<T: Float>(
    input: &Tensor<T>,
    n: usize,
    ctx: Context,
) -> (r: FerrotorchResult<Plan<Tensor<T>, PolynomialJob<T>>>)
    requires
        input.wf(),
        input.inner.storage.on_host() && !input.contiguous_spec() ==> input.in_bounds(),
    ensures
        polynomial_outcome(
            (Basis { family: Family::LaguerreL, shifted: false }),
            input,
            n,
            ctx,
            r,
        ),
{
    evaluate(Basis { family: Family::LaguerreL, shifted: false }, input, n, ctx)
}

/// The Legendre polynomial: `1`, `x`, `((2k + 1) x p - k q) / (k + 1)`.
pub fn legendre_polynomial_p<T: Float>(
    input: &Tensor<T>,
    n: usize,
    ctx: Context,
) -> (r: FerrotorchResult<Plan<Tensor<T>, PolynomialJob<T>>>)
    requires
        input.wf(),
        input.inner.storage.on_host() && !input.contiguous_spec() ==> input.in_bounds(),
    ensures
        polynomial_outcome(
            (Basis { family: Family::LegendreP, shifted: false }),
            input,
            n,
            ctx,
            r,
        ),
{
    evaluate(Basis { family: Family::LegendreP, shifted: false }, input, n, ctx)
}

/// The Chebyshev polynomial of the first kind at `2x - 1`.
pub fn shifted_chebyshev_polynomial_t<T: Float>(
    input: &Tensor<T>,
    n: usize,
    ctx: Context,
) -> (r: FerrotorchResult<Plan<Tensor<T>, PolynomialJob<T>>>)
    requires
        input.wf(),
        input.inner.storage.on_host() && !input.contiguous_spec() ==> input.in_bounds(),
    ensures
        polynomial_outcome(
            (Basis { family: Family::ChebyshevT, shifted: true }),
            input,
            n,
            ctx,
            r,
        ),
{
    evaluate(Basis { family: Family::ChebyshevT, shifted: true }, input, n, ctx)
}

/// The Chebyshev polynomial of the second kind at `2x - 1`.
pub fn shifted_chebyshev_polynomial_u<T: Float>(
    input: &Tensor<T>,
    n: usize,
    ctx: Context,
) -> (r: FerrotorchResult<Plan<Tensor<T>, PolynomialJob<T>>>)
    requires
        input.wf(),
        input.inner.storage.on_host() && !input.contiguous_spec() ==> input.in_bounds(),
    ensures
        polynomial_outcome(
            (Basis { family: Family::ChebyshevU, shifted: true }),
            input,
            n,
            ctx,
            r,
        ),
{
    evaluate(Basis { family: Family::ChebyshevU, shifted: true }, input, n, ctx)
}

/// The Chebyshev polynomial of the third kind at `2x - 1`.
pub fn shifted_chebyshev_polynomial_v<T: Float>(
    input: &Tensor<T>,
    n: usize,
    ctx: Context,
) -> (r: FerrotorchResult<Plan<Tensor<T>, PolynomialJob<T>>>)
    requires
        input.wf(),
        input.inner.storage.on_host() && !input.contiguous_spec() ==> input.in_bounds(),
    ensures
        polynomial_outcome(
            (Basis { family: Family::ChebyshevV, shifted: true }),
            input,
            n,
            ctx,
            r,
        ),
{
    evaluate(Basis { family: Family::ChebyshevV, shifted: true }, input, n, ctx)
}

/// The Chebyshev polynomial of the fourth kind at `2x - 1`.
pub fn shifted_chebyshev_polynomial_w<T: Float>(
    input: &Tensor<T>,
    n: usize,
    ctx: Context,
) -> (r: FerrotorchResult<Plan<Tensor<T>, PolynomialJob<T>>>)
    requires
        input.wf(),
        input.inner.storage.on_host() && !input.contiguous_spec() ==> input.in_bounds(),
    ensures
        polynomial_outcome(
            (Basis { family: Family::ChebyshevW, shifted: true }),
            input,
            n,
            ctx,
            r,
        ),
{
    evaluate(Basis { family: Family::ChebyshevW, shifted: true }, input, n, ctx)
}

} // verus!
