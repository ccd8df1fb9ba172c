//! The recurrences of the orthogonal polynomials, written out for each family, and what
//! they say of tensors of their values.

use crate::autograd::{Context, Plan};
use crate::dtype::{is_nan_spec, DType, Float};
use crate::polynomial::{
    latches, polynomial_elements, polynomial_outcome, polynomial_spec, values_to, Basis, Family,
};
use crate::tensor::Tensor;
use vstd::prelude::*;

verus! {

proof fn lemma_step<T: Float>(family: Family, n: int, x: T)
    requires
        1 <= n < usize::MAX,
    ensures
        !latches(family) || !is_nan_spec(polynomial_spec(family, n, x)) ==> values_to(
            family,
            n,
            x,
        ) == (polynomial_spec(family, n - 1, x), polynomial_spec(family, n, x)),
{
}

/// The Chebyshev polynomials of the first kind: `1`, `x`, and `2x` times one less the one
/// before it. A value that is not a number stays.
pub proof fn lemma_chebyshev_t<T: Float>(n: int, x: T)
    requires
        1 <= n < usize::MAX,
    ensures
        ({
            let p = |k: int| polynomial_spec(Family::ChebyshevT, k, x);
            &&& p(0) == T::one_spec()
            &&& p(1) == x
            &&& p(n).same(p(n)) ==> p(n + 1) == x.plus(x).times(p(n)).minus(p(n - 1))
            &&& !p(n).same(p(n)) ==> p(n + 1) == p(n)
        }),
{
    lemma_step(Family::ChebyshevT, n, x);
}

/// The Chebyshev polynomials of the second kind: `1`, `2x`, and `2x` times one less the
/// one before it. A value that is not a number stays.
pub proof fn lemma_chebyshev_u<T: Float>(n: int, x: T)
    requires
        1 <= n < usize::MAX,
    ensures
        ({
            let p = |k: int| polynomial_spec(Family::ChebyshevU, k, x);
            &&& p(0) == T::one_spec()
            &&& p(1) == x.plus(x)
            &&& p(n).same(p(n)) ==> p(n + 1) == x.plus(x).times(p(n)).minus(p(n - 1))
            &&& !p(n).same(p(n)) ==> p(n + 1) == p(n)
        }),
{
    lemma_step(Family::ChebyshevU, n, x);
}

/// The Chebyshev polynomials of the third kind: `1`, `2x - 1`, and `2x` times one less
/// the one before it. A value that is not a number stays.
pub proof fn lemma_chebyshev_v<T: Float>(n: int, x: T)
    requires
        1 <= n < usize::MAX,
    ensures
        ({
            let p = |k: int| polynomial_spec(Family::ChebyshevV, k, x);
            &&& p(0) == T::one_spec()
            &&& p(1) == x.plus(x).minus(T::one_spec())
            &&& p(n).same(p(n)) ==> p(n + 1) == x.plus(x).times(p(n)).minus(p(n - 1))
            &&& !p(n).same(p(n)) ==> p(n + 1) == p(n)
        }),
{
    lemma_step(Family::ChebyshevV, n, x);
}

/// The Chebyshev polynomials of the fourth kind: `1`, `2x + 1`, and `2x` times one less
/// the one before it. A value that is not a number stays.
pub proof fn lemma_chebyshev_w<T: Float>(n: int, x: T)
    requires
        1 <= n < usize::MAX,
    ensures
        ({
            let p = |k: int| polynomial_spec(Family::ChebyshevW, k, x);
            &&& p(0) == T::one_spec()
            &&& p(1) == x.plus(x).plus(T::one_spec())
            &&& p(n).same(p(n)) ==> p(n + 1) == x.plus(x).times(p(n)).minus(p(n - 1))
            &&& !p(n).same(p(n)) ==> p(n + 1) == p(n)
        }),
{
    lemma_step(Family::ChebyshevW, n, x);
}

/// The Hermite polynomials of the physicists: `1`, `2x`, and `2x` times one less `2n`
/// times the one before it.
pub proof fn lemma_hermite_h<T: Float>(n: int, x: T)
    requires
        1 <= n < usize::MAX,
    ensures
        ({
            let p = |k: int| polynomial_spec(Family::HermiteH, k, x);
            let nf = T::nearest(n as usize);
            &&& p(0) == T::one_spec()
            &&& p(1) == x.plus(x)
            &&& p(n + 1) == x.plus(x).times(p(n)).minus(nf.plus(nf).times(p(n - 1)))
        }),
{
    lemma_step(Family::HermiteH, n, x);
}

/// The Hermite polynomials of the probabilists: `1`, `x`, and `x` times one less `n` times
/// the one before it.
pub proof fn lemma_hermite_he<T: Float>(n: int, x: T)
    requires
        1 <= n < usize::MAX,
    ensures
        ({
            let p = |k: int| polynomial_spec(Family::HermiteHe, k, x);
            let nf = T::nearest(n as usize);
            &&& p(0) == T::one_spec()
            &&& p(1) == x
            &&& p(n + 1) == x.times(p(n)).minus(nf.times(p(n - 1)))
        }),
{
    lemma_step(Family::HermiteHe, n, x);
}

/// The Laguerre polynomials: `1`, `1 - x`, and `2n + (1 - x)` times one less `n` times the
/// one before it, over `n + 1`. A value that is not a number stays.
pub proof fn lemma_laguerre_l<T: Float>(n: int, x: T)
    requires
        1 <= n < usize::MAX,
    ensures
        ({
            let p = |k: int| polynomial_spec(Family::LaguerreL, k, x);
            let nf = T::nearest(n as usize);
            let one = T::one_spec();
            &&& p(0) == one
            &&& p(1) == one.minus(x)
            &&& p(n).same(p(n)) ==> p(n + 1) == nf.plus(nf).plus(one.minus(x)).times(p(n)).minus(
                nf.times(p(n - 1)),
            ).over(nf.plus(one))
            &&& !p(n).same(p(n)) ==> p(n + 1) == p(n)
        }),
{
    lemma_step(Family::LaguerreL, n, x);
}

/// The Legendre polynomials: `1`, `x`, and `(2n + 1) x` times one less `n` times the one
/// before it, over `n + 1`. A value that is not a number stays.
pub proof fn lemma_legendre_p<T: Float>(n: int, x: T)
    requires
        1 <= n < usize::MAX,
    ensures
        ({
            let p = |k: int| polynomial_spec(Family::LegendreP, k, x);
            let nf = T::nearest(n as usize);
            let one = T::one_spec();
            &&& p(0) == one
            &&& p(1) == x
            &&& p(n).same(p(n)) ==> p(n + 1) == nf.plus(nf).plus(one).times(x).times(p(n)).minus(
                nf.times(p(n - 1)),
            ).over(nf.plus(one))
            &&& !p(n).same(p(n)) ==> p(n + 1) == p(n)
        }),
{
    lemma_step(Family::LegendreP, n, x);
}

/// `t` is the tensor of the values of a polynomial at the elements of `input`, a tensor
/// in host memory, and the degree is not beyond the limit of a Hermite polynomial.
pub open spec fn is_value_tensor<T: Float>(
    basis: Basis,
    input: &Tensor<T>,
    n: usize,
    ctx: Context,
    t: Tensor<T>,
) -> bool {
    &&& input.wf()
    &&& input.inner.storage.on_host()
    &&& input.readable()
    &&& basis.family is HermiteH || basis.family is HermiteHe ==> n <= match T::dtype_spec() {
        DType::F32 => 128usize,
        DType::F64 => 512,
        _ => 1024,
    }
    &&& polynomial_outcome(basis, input, n, ctx, Ok(Plan::Ready(t)))
}

proof fn lemma_value_elements<T: Float>(
    basis: Basis,
    input: &Tensor<T>,
    n: usize,
    ctx: Context,
    t: Tensor<T>,
)
    requires
        is_value_tensor(basis, input, n, ctx, t),
    ensures
        t.inner.shape@ == input.inner.shape@,
        t.logical() == polynomial_elements(basis, n as int, input.logical()),
{
    t.lemma_dense();
    assert(t.logical() =~= polynomial_elements(basis, n as int, input.logical()));
}

/// The tensors of the polynomials of degree zero and one: one everywhere, and the linear
/// polynomial of the family at every element, `2x - 1` in place of `x` where the basis is
/// shifted.
pub proof fn lemma_first_tensors<T: Float>(
    basis: Basis,
    input: &Tensor<T>,
    ctx0: Context,
    t0: Tensor<T>,
    ctx1: Context,
    t1: Tensor<T>,
    i: int,
)
    requires
        is_value_tensor(basis, input, 0, ctx0, t0),
        is_value_tensor(basis, input, 1, ctx1, t1),
        0 <= i < input.logical().len(),
    ensures
        ({
            let e = input.logical()[i];
            let one = T::one_spec();
            let x = if basis.shifted {
                e.plus(e).minus(one)
            } else {
                e
            };
            &&& t0.logical()[i] == one
            &&& t1.logical()[i] == match basis.family {
                Family::ChebyshevT => x,
                Family::ChebyshevU => x.plus(x),
                Family::ChebyshevV => x.plus(x).minus(one),
                Family::ChebyshevW => x.plus(x).plus(one),
                Family::HermiteH => x.plus(x),
                Family::HermiteHe => x,
                Family::LaguerreL => one.minus(x),
                Family::LegendreP => x,
            }
        }),
{
    lemma_value_elements(basis, input, 0, ctx0, t0);
    lemma_value_elements(basis, input, 1, ctx1, t1);
}

/// The tensors of three polynomials of a family whose degrees follow each other: every
/// element of the third comes from those of the two before it by the recurrence of the
/// family, with `2x - 1` in place of `x` where the basis is shifted.
pub proof fn lemma_three_tensors<T: Float>(
    basis: Basis,
    input: &Tensor<T>,
    n: usize,
    ctx0: Context,
    t0: Tensor<T>,
    ctx1: Context,
    t1: Tensor<T>,
    ctx2: Context,
    t2: Tensor<T>,
    i: int,
)
    requires
        1 <= n < usize::MAX,
        is_value_tensor(basis, input, (n - 1) as usize, ctx0, t0),
        is_value_tensor(basis, input, n, ctx1, t1),
        is_value_tensor(basis, input, (n + 1) as usize, ctx2, t2),
        0 <= i < input.logical().len(),
        t1.logical()[i].same(t1.logical()[i]),
    ensures
        t2.logical().len() == input.logical().len(),
        ({
            let e = input.logical()[i];
            let one = T::one_spec();
            let nf = T::nearest(n);
            let x = if basis.shifted {
                e.plus(e).minus(one)
            } else {
                e
            };
            let q = t0.logical()[i];
            let p = t1.logical()[i];
            t2.logical()[i] == match basis.family {
                Family::ChebyshevT => x.plus(x).times(p).minus(q),
                Family::ChebyshevU => x.plus(x).times(p).minus(q),
                Family::ChebyshevV => x.plus(x).times(p).minus(q),
                Family::ChebyshevW => x.plus(x).times(p).minus(q),
                Family::HermiteH => x.plus(x).times(p).minus(nf.plus(nf).times(q)),
                Family::HermiteHe => x.times(p).minus(nf.times(q)),
                Family::LaguerreL => nf.plus(nf).plus(one.minus(x)).times(p).minus(
                    nf.times(q),
                ).over(nf.plus(one)),
                Family::LegendreP => nf.plus(nf).plus(one).times(x).times(p).minus(
                    nf.times(q),
                ).over(nf.plus(one)),
            }
        }),
{
    lemma_value_elements(basis, input, (n - 1) as usize, ctx0, t0);
    lemma_value_elements(basis, input, n, ctx1, t1);
    lemma_value_elements(basis, input, (n + 1) as usize, ctx2, t2);
    let e = input.logical()[i];
    let x = if basis.shifted {
        e.plus(e).minus(T::one_spec())
    } else {
        e
    };
    lemma_step(basis.family, n as int, x);
}

/// Beyond a degree of 128 for `F32`, 512 for `F64` and 1024 for the half-width types the
/// values of a Hermite polynomial in host memory are not numbers.
pub proof fn lemma_hermite_limit<T: Float>(
    basis: Basis,
    input: &Tensor<T>,
    n: usize,
    ctx: Context,
    t: Tensor<T>,
    i: int,
)
    requires
        input.wf(),
        input.inner.storage.on_host(),
        basis.family is HermiteH || basis.family is HermiteHe,
        n > match T::dtype_spec() {
            DType::F32 => 128usize,
            DType::F64 => 512,
            _ => 1024,
        },
        polynomial_outcome(basis, input, n, ctx, Ok(Plan::Ready(t))),
        0 <= i < input.logical().len(),
    ensures
        t.inner.shape@ == input.inner.shape@,
        t.logical()[i] == T::nan_spec(),
{
    t.lemma_dense();
}

} // verus!
