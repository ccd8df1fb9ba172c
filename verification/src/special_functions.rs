//! The special functions of tensors. Each takes the function that computes one value
//! on the host; device kernels, shapes and gradient edges are settled here.

use crate::autograd::{Context, Plan, TensorId};
use crate::broadcast::{common_shape, stretchable};
use crate::dtype::Float;
use crate::error::{FerrotorchError, FerrotorchResult, Reason};
use crate::shape;
use crate::special::{
    check_multigammaln, xlogy_scalar, xlogy_spec, SpecialBinaryKind, SpecialOp, SpecialUnaryKind,
};
use crate::special_apply::{
    evaluated_pairs, listable, pair_values, special_binary, special_binary_outcome, special_unary,
    special_unary_outcome, BinaryLane, SpecialApplyJob,
};
use crate::tensor::Tensor;
use vstd::prelude::*;

verus! {

/// The error function.
pub fn erf<T: Float, F: Fn(T) -> T>(
    input: &Tensor<T>,
    scalar: F,
    ctx: Context,
    saved: TensorId,
) -> (r: FerrotorchResult<Plan<Tensor<T>, SpecialApplyJob<T>>>)
    requires
        listable(input),
        forall|x: T| call_requires(scalar, (x,)),
    ensures
        special_unary_outcome(
            SpecialOp::Erf,
            false,
            Some(SpecialUnaryKind::Erf),
            input,
            scalar,
            ctx,
            saved,
            r,
        ),
{
    special_unary(SpecialOp::Erf, false, Some(SpecialUnaryKind::Erf), input, scalar, ctx, saved)
}

/// The complementary error function.
pub fn erfc<T: Float, F: Fn(T) -> T>(
    input: &Tensor<T>,
    scalar: F,
    ctx: Context,
    saved: TensorId,
) -> (r: FerrotorchResult<Plan<Tensor<T>, SpecialApplyJob<T>>>)
    requires
        listable(input),
        forall|x: T| call_requires(scalar, (x,)),
    ensures
        special_unary_outcome(
            SpecialOp::Erfc,
            false,
            Some(SpecialUnaryKind::Erfc),
            input,
            scalar,
            ctx,
            saved,
            r,
        ),
{
    special_unary(SpecialOp::Erfc, false, Some(SpecialUnaryKind::Erfc), input, scalar, ctx, saved)
}

/// The inverse error function.
pub fn erfinv<T: Float, F: Fn(T) -> T>(
    input: &Tensor<T>,
    scalar: F,
    ctx: Context,
    saved: TensorId,
) -> (r: FerrotorchResult<Plan<Tensor<T>, SpecialApplyJob<T>>>)
    requires
        listable(input),
        forall|x: T| call_requires(scalar, (x,)),
    ensures
        special_unary_outcome(
            SpecialOp::Erfinv,
            false,
            Some(SpecialUnaryKind::Erfinv),
            input,
            scalar,
            ctx,
            saved,
            r,
        ),
{
    special_unary(
        SpecialOp::Erfinv,
        false,
        Some(SpecialUnaryKind::Erfinv),
        input,
        scalar,
        ctx,
        saved,
    )
}

/// The logarithm of the magnitude of the gamma function.
pub fn lgamma<T: Float, F: Fn(T) -> T>(
    input: &Tensor<T>,
    scalar: F,
    ctx: Context,
    saved: TensorId,
) -> (r: FerrotorchResult<Plan<Tensor<T>, SpecialApplyJob<T>>>)
    requires
        listable(input),
        forall|x: T| call_requires(scalar, (x,)),
    ensures
        special_unary_outcome(
            SpecialOp::Lgamma,
            false,
            Some(SpecialUnaryKind::Lgamma),
            input,
            scalar,
            ctx,
            saved,
            r,
        ),
{
    special_unary(
        SpecialOp::Lgamma,
        false,
        Some(SpecialUnaryKind::Lgamma),
        input,
        scalar,
        ctx,
        saved,
    )
}

/// The same as [`lgamma`].
pub fn gammaln<T: Float, F: Fn(T) -> T>(
    input: &Tensor<T>,
    scalar: F,
    ctx: Context,
    saved: TensorId,
) -> (r: FerrotorchResult<Plan<Tensor<T>, SpecialApplyJob<T>>>)
    requires
        listable(input),
        forall|x: T| call_requires(scalar, (x,)),
    ensures
        special_unary_outcome(
            SpecialOp::Lgamma,
            false,
            Some(SpecialUnaryKind::Lgamma),
            input,
            scalar,
            ctx,
            saved,
            r,
        ),
{
    lgamma(input, scalar, ctx, saved)
}

/// The logarithmic derivative of the gamma function.
pub fn digamma<T: Float, F: Fn(T) -> T>(
    input: &Tensor<T>,
    scalar: F,
    ctx: Context,
    saved: TensorId,
) -> (r: FerrotorchResult<Plan<Tensor<T>, SpecialApplyJob<T>>>)
    requires
        listable(input),
        forall|x: T| call_requires(scalar, (x,)),
    ensures
        special_unary_outcome(
            SpecialOp::Digamma,
            false,
            Some(SpecialUnaryKind::Digamma),
            input,
            scalar,
            ctx,
            saved,
            r,
        ),
{
    special_unary(
        SpecialOp::Digamma,
        false,
        Some(SpecialUnaryKind::Digamma),
        input,
        scalar,
        ctx,
        saved,
    )
}

/// The entropy `-x log x`.
pub fn entr<T: Float, F: Fn(T) -> T>(
    input: &Tensor<T>,
    scalar: F,
    ctx: Context,
    saved: TensorId,
) -> (r: FerrotorchResult<Plan<Tensor<T>, SpecialApplyJob<T>>>)
    requires
        listable(input),
        forall|x: T| call_requires(scalar, (x,)),
    ensures
        special_unary_outcome(
            SpecialOp::Entr,
            true,
            Some(SpecialUnaryKind::Entr),
            input,
            scalar,
            ctx,
            saved,
            r,
        ),
{
    special_unary(SpecialOp::Entr, true, Some(SpecialUnaryKind::Entr), input, scalar, ctx, saved)
}

/// The standard normal distribution function.
pub fn ndtr<T: Float, F: Fn(T) -> T>(
    input: &Tensor<T>,
    scalar: F,
    ctx: Context,
    saved: TensorId,
) -> (r: FerrotorchResult<Plan<Tensor<T>, SpecialApplyJob<T>>>)
    requires
        listable(input),
        forall|x: T| call_requires(scalar, (x,)),
    ensures
        special_unary_outcome(
            SpecialOp::Ndtr,
            true,
            Some(SpecialUnaryKind::Ndtr),
            input,
            scalar,
            ctx,
            saved,
            r,
        ),
{
    special_unary(SpecialOp::Ndtr, true, Some(SpecialUnaryKind::Ndtr), input, scalar, ctx, saved)
}

/// The standard normal quantile function.
pub fn ndtri<T: Float, F: Fn(T) -> T>(
    input: &Tensor<T>,
    scalar: F,
    ctx: Context,
    saved: TensorId,
) -> (r: FerrotorchResult<Plan<Tensor<T>, SpecialApplyJob<T>>>)
    requires
        listable(input),
        forall|x: T| call_requires(scalar, (x,)),
    ensures
        special_unary_outcome(
            SpecialOp::Ndtri,
            true,
            Some(SpecialUnaryKind::Ndtri),
            input,
            scalar,
            ctx,
            saved,
            r,
        ),
{
    special_unary(SpecialOp::Ndtri, true, Some(SpecialUnaryKind::Ndtri), input, scalar, ctx, saved)
}

/// The modified Bessel function of the first kind, of order zero.
pub fn i0<T: Float, F: Fn(T) -> T>(
    input: &Tensor<T>,
    scalar: F,
    ctx: Context,
    saved: TensorId,
) -> (r: FerrotorchResult<Plan<Tensor<T>, SpecialApplyJob<T>>>)
    requires
        listable(input),
        forall|x: T| call_requires(scalar, (x,)),
    ensures
        special_unary_outcome(
            SpecialOp::I0,
            true,
            Some(SpecialUnaryKind::I0),
            input,
            scalar,
            ctx,
            saved,
            r,
        ),
{
    special_unary(SpecialOp::I0, true, Some(SpecialUnaryKind::I0), input, scalar, ctx, saved)
}

/// [`i0`], exponentially scaled.
pub fn i0e<T: Float, F: Fn(T) -> T>(
    input: &Tensor<T>,
    scalar: F,
    ctx: Context,
    saved: TensorId,
) -> (r: FerrotorchResult<Plan<Tensor<T>, SpecialApplyJob<T>>>)
    requires
        listable(input),
        forall|x: T| call_requires(scalar, (x,)),
    ensures
        special_unary_outcome(
            SpecialOp::I0e,
            true,
            Some(SpecialUnaryKind::I0e),
            input,
            scalar,
            ctx,
            saved,
            r,
        ),
{
    special_unary(SpecialOp::I0e, true, Some(SpecialUnaryKind::I0e), input, scalar, ctx, saved)
}

/// The modified Bessel function of the first kind, of order one.
pub fn i1<T: Float, F: Fn(T) -> T>(
    input: &Tensor<T>,
    scalar: F,
    ctx: Context,
    saved: TensorId,
) -> (r: FerrotorchResult<Plan<Tensor<T>, SpecialApplyJob<T>>>)
    requires
        listable(input),
        forall|x: T| call_requires(scalar, (x,)),
    ensures
        special_unary_outcome(
            SpecialOp::I1,
            true,
            Some(SpecialUnaryKind::I1),
            input,
            scalar,
            ctx,
            saved,
            r,
        ),
{
    special_unary(SpecialOp::I1, true, Some(SpecialUnaryKind::I1), input, scalar, ctx, saved)
}

/// [`i1`], exponentially scaled.
pub fn i1e<T: Float, F: Fn(T) -> T>(
    input: &Tensor<T>,
    scalar: F,
    ctx: Context,
    saved: TensorId,
) -> (r: FerrotorchResult<Plan<Tensor<T>, SpecialApplyJob<T>>>)
    requires
        listable(input),
        forall|x: T| call_requires(scalar, (x,)),
    ensures
        special_unary_outcome(
            SpecialOp::I1e,
            true,
            Some(SpecialUnaryKind::I1e),
            input,
            scalar,
            ctx,
            saved,
            r,
        ),
{
    special_unary(SpecialOp::I1e, true, Some(SpecialUnaryKind::I1e), input, scalar, ctx, saved)
}

/// The spherical Bessel function of the first kind, of order zero. It has no gradient.
pub fn spherical_bessel_j0<T: Float, F: Fn(T) -> T>(
    input: &Tensor<T>,
    scalar: F,
    ctx: Context,
    saved: TensorId,
) -> (r: FerrotorchResult<Plan<Tensor<T>, SpecialApplyJob<T>>>)
    requires
        listable(input),
        forall|x: T| call_requires(scalar, (x,)),
    ensures
        special_unary_outcome(
            SpecialOp::SphericalBesselJ0,
            true,
            None,
            input,
            scalar,
            ctx,
            saved,
            r,
        ),
{
    special_unary(SpecialOp::SphericalBesselJ0, true, None, input, scalar, ctx, saved)
}

/// The modified Bessel function of the second kind, of order zero. It has no gradient.
pub fn modified_bessel_k0<T: Float, F: Fn(T) -> T>(
    input: &Tensor<T>,
    scalar: F,
    ctx: Context,
    saved: TensorId,
) -> (r: FerrotorchResult<Plan<Tensor<T>, SpecialApplyJob<T>>>)
    requires
        listable(input),
        forall|x: T| call_requires(scalar, (x,)),
    ensures
        special_unary_outcome(
            SpecialOp::ModifiedBesselK0,
            true,
            None,
            input,
            scalar,
            ctx,
            saved,
            r,
        ),
{
    special_unary(SpecialOp::ModifiedBesselK0, true, None, input, scalar, ctx, saved)
}

/// [`modified_bessel_k0`], exponentially scaled.
pub fn scaled_modified_bessel_k0<T: Float, F: Fn(T) -> T>(
    input: &Tensor<T>,
    scalar: F,
    ctx: Context,
    saved: TensorId,
) -> (r: FerrotorchResult<Plan<Tensor<T>, SpecialApplyJob<T>>>)
    requires
        listable(input),
        forall|x: T| call_requires(scalar, (x,)),
    ensures
        special_unary_outcome(
            SpecialOp::ScaledModifiedBesselK0,
            true,
            None,
            input,
            scalar,
            ctx,
            saved,
            r,
        ),
{
    special_unary(SpecialOp::ScaledModifiedBesselK0, true, None, input, scalar, ctx, saved)
}

/// The modified Bessel function of the second kind, of order one. It has no gradient.
pub fn modified_bessel_k1<T: Float, F: Fn(T) -> T>(
    input: &Tensor<T>,
    scalar: F,
    ctx: Context,
    saved: TensorId,
) -> (r: FerrotorchResult<Plan<Tensor<T>, SpecialApplyJob<T>>>)
    requires
        listable(input),
        forall|x: T| call_requires(scalar, (x,)),
    ensures
        special_unary_outcome(
            SpecialOp::ModifiedBesselK1,
            true,
            None,
            input,
            scalar,
            ctx,
            saved,
            r,
        ),
{
    special_unary(SpecialOp::ModifiedBesselK1, true, None, input, scalar, ctx, saved)
}

/// [`modified_bessel_k1`], exponentially scaled.
pub fn scaled_modified_bessel_k1<T: Float, F: Fn(T) -> T>(
    input: &Tensor<T>,
    scalar: F,
    ctx: Context,
    saved: TensorId,
) -> (r: FerrotorchResult<Plan<Tensor<T>, SpecialApplyJob<T>>>)
    requires
        listable(input),
        forall|x: T| call_requires(scalar, (x,)),
    ensures
        special_unary_outcome(
            SpecialOp::ScaledModifiedBesselK1,
            true,
            None,
            input,
            scalar,
            ctx,
            saved,
            r,
        ),
{
    special_unary(SpecialOp::ScaledModifiedBesselK1, true, None, input, scalar, ctx, saved)
}

/// The Airy function of the first kind. It has no gradient.
pub fn airy_ai<T: Float, F: Fn(T) -> T>(
    input: &Tensor<T>,
    scalar: F,
    ctx: Context,
    saved: TensorId,
) -> (r: FerrotorchResult<Plan<Tensor<T>, SpecialApplyJob<T>>>)
    requires
        listable(input),
        forall|x: T| call_requires(scalar, (x,)),
    ensures
        special_unary_outcome(
            SpecialOp::AiryAi,
            true,
            None,
            input,
            scalar,
            ctx,
            saved,
            r,
        ),
{
    special_unary(SpecialOp::AiryAi, true, None, input, scalar, ctx, saved)
}

/// The sign of the gamma function. It has no gradient.
pub fn gammaln_sign<T: Float, F: Fn(T) -> T>(
    input: &Tensor<T>,
    scalar: F,
    ctx: Context,
    saved: TensorId,
) -> (r: FerrotorchResult<Plan<Tensor<T>, SpecialApplyJob<T>>>)
    requires
        listable(input),
        forall|x: T| call_requires(scalar, (x,)),
    ensures
        special_unary_outcome(
            SpecialOp::GammalnSign,
            false,
            None,
            input,
            scalar,
            ctx,
            saved,
            r,
        ),
{
    special_unary(SpecialOp::GammalnSign, false, None, input, scalar, ctx, saved)
}

/// The multivariate log-gamma function of dimension `p`, which has to be positive.
pub fn multigammaln<T: Float, F: Fn(T) -> T>(
    input: &Tensor<T>,
    p: usize,
    scalar: F,
    ctx: Context,
    saved: TensorId,
) -> (r: FerrotorchResult<Plan<Tensor<T>, SpecialApplyJob<T>>>)
    requires
        listable(input),
        forall|x: T| call_requires(scalar, (x,)),
    ensures
        if p == 0 {
            r matches Err(e) && e == (FerrotorchError::InvalidArgument {
                reason: Reason::ZeroDimension,
            })
        } else {
            special_unary_outcome(
                SpecialOp::Multigammaln,
                false,
                Some(SpecialUnaryKind::Multigammaln { p }),
                input,
                scalar,
                ctx,
                saved,
                r,
            )
        },
{
    check_multigammaln(input, p)?;
    special_unary(
        SpecialOp::Multigammaln,
        false,
        Some(SpecialUnaryKind::Multigammaln { p }),
        input,
        scalar,
        ctx,
        saved,
    )
}

/// The same as [`multigammaln`].
pub fn mvlgamma<T: Float, F: Fn(T) -> T>(
    input: &Tensor<T>,
    p: usize,
    scalar: F,
    ctx: Context,
    saved: TensorId,
) -> (r: FerrotorchResult<Plan<Tensor<T>, SpecialApplyJob<T>>>)
    requires
        listable(input),
        forall|x: T| call_requires(scalar, (x,)),
    ensures
        if p == 0 {
            r matches Err(e) && e == (FerrotorchError::InvalidArgument {
                reason: Reason::ZeroDimension,
            })
        } else {
            special_unary_outcome(
                SpecialOp::Multigammaln,
                false,
                Some(SpecialUnaryKind::Multigammaln { p }),
                input,
                scalar,
                ctx,
                saved,
                r,
            )
        },
{
    multigammaln(input, p, scalar, ctx, saved)
}

/// The two operands can be stretched to a shape that a tensor can have, or not at all.
pub open spec fn common_fits<T: Float>(a: &Tensor<T>, b: &Tensor<T>) -> bool {
    stretchable(a.inner.shape@, b.inner.shape@) ==> shape::shape_fits(
        common_shape(a.inner.shape@, b.inner.shape@),
    )
}

/// The Hurwitz zeta function.
pub fn zeta<T: Float, F: Fn(T, T) -> T>(
    a: &Tensor<T>,
    b: &Tensor<T>,
    scalar: F,
    ctx: Context,
    saved: TensorId,
) -> (r: FerrotorchResult<Plan<Tensor<T>, SpecialApplyJob<T>>>)
    requires
        listable(a),
        listable(b),
        common_fits(a, b),
        forall|x: T, y: T| call_requires(scalar, (x, y)),
    ensures
        special_binary_outcome(
            SpecialOp::Zeta,
            BinaryLane::SameShape,
            SpecialBinaryKind::Zeta,
            a,
            b,
            pair_values(scalar),
            ctx,
            saved,
            r,
        ),
{
    special_binary(
        SpecialOp::Zeta,
        BinaryLane::SameShape,
        SpecialBinaryKind::Zeta,
        a,
        b,
        scalar,
        ctx,
        saved,
    )
}

/// The regularized lower incomplete gamma function.
pub fn gammainc<T: Float, F: Fn(T, T) -> T>(
    a: &Tensor<T>,
    b: &Tensor<T>,
    scalar: F,
    ctx: Context,
    saved: TensorId,
) -> (r: FerrotorchResult<Plan<Tensor<T>, SpecialApplyJob<T>>>)
    requires
        listable(a),
        listable(b),
        common_fits(a, b),
        forall|x: T, y: T| call_requires(scalar, (x, y)),
    ensures
        special_binary_outcome(
            SpecialOp::Gammainc,
            BinaryLane::HostOnly,
            SpecialBinaryKind::Gammainc,
            a,
            b,
            pair_values(scalar),
            ctx,
            saved,
            r,
        ),
{
    special_binary(
        SpecialOp::Gammainc,
        BinaryLane::HostOnly,
        SpecialBinaryKind::Gammainc,
        a,
        b,
        scalar,
        ctx,
        saved,
    )
}

/// The regularized upper incomplete gamma function.
pub fn gammaincc<T: Float, F: Fn(T, T) -> T>(
    a: &Tensor<T>,
    b: &Tensor<T>,
    scalar: F,
    ctx: Context,
    saved: TensorId,
) -> (r: FerrotorchResult<Plan<Tensor<T>, SpecialApplyJob<T>>>)
    requires
        listable(a),
        listable(b),
        common_fits(a, b),
        forall|x: T, y: T| call_requires(scalar, (x, y)),
    ensures
        special_binary_outcome(
            SpecialOp::Gammaincc,
            BinaryLane::HostOnly,
            SpecialBinaryKind::Gammaincc,
            a,
            b,
            pair_values(scalar),
            ctx,
            saved,
            r,
        ),
{
    special_binary(
        SpecialOp::Gammaincc,
        BinaryLane::HostOnly,
        SpecialBinaryKind::Gammaincc,
        a,
        b,
        scalar,
        ctx,
        saved,
    )
}

/// The logarithm of the beta function.
pub fn log_beta<T: Float, F: Fn(T, T) -> T>(
    a: &Tensor<T>,
    b: &Tensor<T>,
    scalar: F,
    ctx: Context,
    saved: TensorId,
) -> (r: FerrotorchResult<Plan<Tensor<T>, SpecialApplyJob<T>>>)
    requires
        listable(a),
        listable(b),
        common_fits(a, b),
        forall|x: T, y: T| call_requires(scalar, (x, y)),
    ensures
        special_binary_outcome(
            SpecialOp::LogBeta,
            BinaryLane::HostOnly,
            SpecialBinaryKind::LogBeta,
            a,
            b,
            pair_values(scalar),
            ctx,
            saved,
            r,
        ),
{
    special_binary(
        SpecialOp::LogBeta,
        BinaryLane::HostOnly,
        SpecialBinaryKind::LogBeta,
        a,
        b,
        scalar,
        ctx,
        saved,
    )
}

/// The beta function.
pub fn beta<T: Float, F: Fn(T, T) -> T>(
    a: &Tensor<T>,
    b: &Tensor<T>,
    scalar: F,
    ctx: Context,
    saved: TensorId,
) -> (r: FerrotorchResult<Plan<Tensor<T>, SpecialApplyJob<T>>>)
    requires
        listable(a),
        listable(b),
        common_fits(a, b),
        forall|x: T, y: T| call_requires(scalar, (x, y)),
    ensures
        special_binary_outcome(
            SpecialOp::Beta,
            BinaryLane::HostOnly,
            SpecialBinaryKind::Beta,
            a,
            b,
            pair_values(scalar),
            ctx,
            saved,
            r,
        ),
{
    special_binary(
        SpecialOp::Beta,
        BinaryLane::HostOnly,
        SpecialBinaryKind::Beta,
        a,
        b,
        scalar,
        ctx,
        saved,
    )
}

/// What `x log y` may be, by what the logarithm may give.
pub open spec fn xlogy_values<T: Float, F: Fn(T) -> T>(ln: F) -> spec_fn(T, T, T) -> bool {
    |x: T, y: T, r: T| exists|l: T| #[trigger] call_ensures(ln, (y,), l) && r == xlogy_spec(x, y, l)
}

/// Where every value that `tight` allows is allowed by `loose`, so is the outcome.
proof fn lemma_binary_outcome_weaker<T: Float>(
    op: SpecialOp,
    lane: BinaryLane,
    kind: SpecialBinaryKind,
    a: &Tensor<T>,
    b: &Tensor<T>,
    tight: spec_fn(T, T, T) -> bool,
    loose: spec_fn(T, T, T) -> bool,
    ctx: Context,
    saved: TensorId,
    r: FerrotorchResult<Plan<Tensor<T>, SpecialApplyJob<T>>>,
)
    requires
        special_binary_outcome(op, lane, kind, a, b, tight, ctx, saved, r),
        forall|x: T, y: T, v: T| #[trigger] tight(x, y, v) ==> loose(x, y, v),
    ensures
        special_binary_outcome(op, lane, kind, a, b, loose, ctx, saved, r),
{
    assert forall|out: Seq<T>| #[trigger]
        evaluated_pairs(
            tight,
            a.logical(),
            a.inner.shape@,
            b.logical(),
            b.inner.shape@,
            out,
        ) implies evaluated_pairs(
        loose,
        a.logical(),
        a.inner.shape@,
        b.logical(),
        b.inner.shape@,
        out,
    ) by {}
}

/// `x log y`, where `ln` computes a logarithm.
pub fn xlogy<T: Float, F: Fn(T) -> T>(
    x: &Tensor<T>,
    y: &Tensor<T>,
    ln: F,
    ctx: Context,
    saved: TensorId,
) -> (r: FerrotorchResult<Plan<Tensor<T>, SpecialApplyJob<T>>>)
    requires
        listable(x),
        listable(y),
        common_fits(x, y),
        forall|v: T| call_requires(ln, (v,)),
    ensures
        special_binary_outcome(
            SpecialOp::Xlogy,
            BinaryLane::Stretched,
            SpecialBinaryKind::Xlogy,
            x,
            y,
            xlogy_values(ln),
            ctx,
            saved,
            r,
        ),
{
    let ghost values = xlogy_values(ln);
    let scalar = |u: T, v: T| -> (w: T)
        ensures
            values(u, v, w),
        {
            let l: T = ln(v);
            xlogy_scalar(u, v, l)
        };
    let r: FerrotorchResult<Plan<Tensor<T>, SpecialApplyJob<T>>> = special_binary(
        SpecialOp::Xlogy,
        BinaryLane::Stretched,
        SpecialBinaryKind::Xlogy,
        x,
        y,
        scalar,
        ctx,
        saved,
    );
    proof {
        lemma_binary_outcome_weaker(
            SpecialOp::Xlogy,
            BinaryLane::Stretched,
            SpecialBinaryKind::Xlogy,
            x,
            y,
            pair_values(scalar),
            xlogy_values(ln),
            ctx,
            saved,
            r,
        );
    }
    r
}

} // verus!
