//! Lanes and gradients of special functions, and elementwise application.

use ferrotorch_core::autograd::{Context, Plan, TensorId};
use ferrotorch_core::bf16::Bf16;
use ferrotorch_core::broadcast::{
    binary_map, broadcast_shapes, elementwise_native, reduce_grad_to_shape,
};
use ferrotorch_core::device::{Device, GpuBufferHandle};
use ferrotorch_core::dtype::{DType, Float};
use ferrotorch_core::error::{CudaGap, FerrotorchError, Reason};
use ferrotorch_core::special::{
    beta_grad, chbevl, check_multigammaln, polevl, poly_gpu_output, reject_cuda_binary,
    reject_cuda_unary, special_gpu_binary, special_gpu_binary_broadcast, special_gpu_simple,
    special_needs_grad_binary, special_needs_grad_unary, unary_grad_lane, xlogy_grad_first,
    xlogy_grad_second, xlogy_scalar, GradLane, SpecialBinaryKind, SpecialOp, SpecialUnaryKind,
};
use ferrotorch_core::special_apply::{
    special_binary, special_unary, BinaryLane, SpecialApplyJob, SpecialBinaryBackward,
    SpecialUnaryBackward,
};
use ferrotorch_core::special_functions::{
    airy_ai, beta, digamma, entr, erf, erfc, erfinv, gammainc, gammaincc, gammaln, gammaln_sign,
    i0, i0e, i1, i1e, lgamma, log_beta, modified_bessel_k0, modified_bessel_k1, multigammaln,
    mvlgamma, ndtr, ndtri, scaled_modified_bessel_k0, scaled_modified_bessel_k1,
    spherical_bessel_j0, xlogy as special_xlogy, zeta,
};
use ferrotorch_core::storage::TensorStorage;
use ferrotorch_core::tensor::{GradFn, Tensor};
use ferrotorch_core::update::ScatterKernel;

#[derive(Clone, Copy, Debug, PartialEq)]
struct F64(f64);

impl Float for F64 {
    fn dtype_spec() -> DType {
        DType::F64
    }
    fn zero_spec() -> Self {
        F64(0.0)
    }
    fn one_spec() -> Self {
        F64(1.0)
    }
    fn nan_spec() -> Self {
        F64(f64::NAN)
    }
    fn plus(self, rhs: Self) -> Self {
        F64(self.0 + rhs.0)
    }
    fn minus(self, rhs: Self) -> Self {
        F64(self.0 - rhs.0)
    }
    fn times(self, rhs: Self) -> Self {
        F64(self.0 * rhs.0)
    }
    fn over(self, rhs: Self) -> Self {
        F64(self.0 / rhs.0)
    }
    fn magnitude(self) -> Self {
        F64(self.0.abs())
    }
    fn nearest(n: usize) -> Self {
        F64(n as f64)
    }
    fn below(self, rhs: Self) -> bool {
        self.0 < rhs.0
    }
    fn same(self, rhs: Self) -> bool {
        self.0 == rhs.0
    }
    fn lemma_order(_a: Self, _b: Self, _c: Self) {}
    fn lemma_magnitude(_x: Self) {}
    fn lemma_zero_plus(_x: Self) {}
    fn lemma_units() {}
    fn dtype() -> DType {
        Self::dtype_spec()
    }
    fn zero() -> Self {
        Self::zero_spec()
    }
    fn one() -> Self {
        Self::one_spec()
    }
    fn nan() -> Self {
        Self::nan_spec()
    }
    fn add(self, rhs: Self) -> Self {
        self.plus(rhs)
    }
    fn sub(self, rhs: Self) -> Self {
        self.minus(rhs)
    }
    fn mul(self, rhs: Self) -> Self {
        self.times(rhs)
    }
    fn div(self, rhs: Self) -> Self {
        self.over(rhs)
    }
    fn abs(self) -> Self {
        self.magnitude()
    }
    fn from_usize(n: usize) -> Self {
        Self::nearest(n)
    }
    fn is_below(self, rhs: Self) -> bool {
        self.below(rhs)
    }
    fn is_same(self, rhs: Self) -> bool {
        self.same(rhs)
    }
}

fn f64(data: &[f64]) -> Vec<F64> {
    data.iter().map(|&x| F64(x)).collect()
}

fn ctx() -> Context {
    Context::host(TensorId(100))
}

fn t(data: &[f64], shape: &[usize]) -> Tensor<F64> {
    Tensor::from_storage(TensorStorage::cpu(f64(data)), shape.to_vec(), false, TensorId(1))
        .unwrap()
}

fn on_gpu(shape: &[usize], ordinal: usize) -> Tensor<F64> {
    let len = shape.iter().product();
    let handle = GpuBufferHandle { key: 9, len, dtype: DType::F64, ordinal };
    Tensor::from_storage(TensorStorage::gpu(handle), shape.to_vec(), false, TensorId(2)).unwrap()
}

fn xlogy(x: &Tensor<F64>, y: &Tensor<F64>) -> Vec<f64> {
    let (v, _) = binary_map(
        x.data().unwrap(),
        x.shape(),
        y.data().unwrap(),
        y.shape(),
        |a: F64, b: F64| xlogy_scalar(a, b, F64(b.0.ln())),
    )
    .unwrap();
    v.iter().map(|x| x.0).collect()
}

#[test]
fn xlogy_zero_x() {
    let x = t(&[0.0, 0.0, 0.0], &[3]);
    let y = t(&[1.0, 0.0, f64::INFINITY], &[3]);
    let d = xlogy(&x, &y);
    for i in 0..3 {
        assert!(d[i] == 0.0, "xlogy(0, y) = {} (expected 0)", d[i]);
    }
}

#[test]
fn xlogy_normal() {
    let x = t(&[2.0], &[1]);
    let y = t(&[std::f64::consts::E], &[1]);
    let result = xlogy(&x, &y);
    assert!((result[0] - 2.0).abs() < 1e-14, "xlogy(2, e) = {} (expected 2)", result[0]);
}

#[test]
fn xlogy_broadcast() {
    let x = t(&[2.0, 3.0], &[2]);
    let y = t(&[std::f64::consts::E, std::f64::consts::E], &[2]);
    let d = xlogy(&x, &y);
    assert!((d[0] - 2.0).abs() < 1e-14);
    assert!((d[1] - 3.0).abs() < 1e-14);
    let scalar = t(&[std::f64::consts::E], &[]);
    assert_eq!(xlogy(&x, &scalar), d);
}

#[test]
fn xlogy_of_no_number_is_no_number() {
    assert!(xlogy_scalar(F64(0.0), F64(f64::NAN), F64(f64::NAN)).0.is_nan());
}

#[test]
fn multigammaln_p_zero_errors() {
    let a = t(&[3.0], &[1]);
    assert!(multigammaln(&a, 0, |x: F64| x, ctx(), TensorId(7)).is_err());
    assert_eq!(
        check_multigammaln(&a, 0),
        Err(FerrotorchError::InvalidArgument { reason: Reason::ZeroDimension })
    );
    assert!(check_multigammaln(&a, 1).is_ok());
    assert!(check_multigammaln(&on_gpu(&[1], 0), 1).is_err());
}

#[test]
fn shapes_are_aligned_at_the_last_dimension() {
    assert_eq!(broadcast_shapes(&[2, 1, 3], &[4, 1]), Ok(vec![2, 4, 3]));
    assert_eq!(broadcast_shapes(&[], &[5]), Ok(vec![5]));
    assert_eq!(broadcast_shapes(&[0, 1], &[1, 3]), Ok(vec![0, 3]));
    assert_eq!(
        broadcast_shapes(&[2, 3], &[2]),
        Err(FerrotorchError::ShapeMismatch { reason: Reason::ShapesDiffer })
    );
    let (v, sh) = binary_map(
        &f64(&[1.0, 2.0]),
        &[2, 1],
        &f64(&[10.0, 20.0, 30.0]),
        &[3],
        |a: F64, b: F64| F64(a.0 + b.0),
    )
    .unwrap();
    assert_eq!(sh, vec![2, 3]);
    assert_eq!(v, f64(&[11.0, 21.0, 31.0, 12.0, 22.0, 32.0]));
    assert_eq!(elementwise_native(&f64(&[1.0, 4.0]), |x: F64| F64(x.0 * 2.0)), f64(&[2.0, 8.0]));
}

#[test]
fn host_operands_take_the_host_lane() {
    let a = t(&[1.0], &[1]);
    assert!(special_gpu_simple(&a, SpecialOp::Entr, ctx()).unwrap().is_none());
    assert!(special_gpu_binary(&a, &a, SpecialOp::Zeta, ctx()).unwrap().is_none());
    assert!(special_gpu_binary_broadcast(&a, &a, SpecialOp::Xlogy, ctx()).unwrap().is_none());
    assert!(reject_cuda_unary(&a, SpecialOp::GammalnSign).is_ok());
    assert!(reject_cuda_binary(&a, &a, SpecialOp::Beta).is_ok());
}

#[test]
fn cuda_operands_take_the_device_lane_or_are_refused() {
    let backend = Context { backend: true, ..ctx() };
    let a = on_gpu(&[2, 1], 0);
    let job = special_gpu_simple(&a, SpecialOp::Ndtri, backend).unwrap().unwrap();
    assert_eq!((job.op, job.kernel), (SpecialOp::Ndtri, ScatterKernel::F64));
    assert_eq!(job.shape, vec![2, 1]);
    assert_eq!(
        special_gpu_simple(&a, SpecialOp::Ndtri, ctx()).unwrap_err(),
        FerrotorchError::DeviceUnavailable
    );

    let refused = |op| FerrotorchError::NotImplementedOnCuda { op: CudaGap::Special { op } };
    let host = t(&[1.0, 2.0], &[2, 1]);
    let other = on_gpu(&[3], 0);
    assert_eq!(
        special_gpu_binary(&a, &host, SpecialOp::Zeta, backend).unwrap_err(),
        refused(SpecialOp::Zeta)
    );
    assert_eq!(
        special_gpu_binary(&a, &other, SpecialOp::Zeta, backend).unwrap_err(),
        refused(SpecialOp::Zeta)
    );
    assert!(special_gpu_binary(&a, &a, SpecialOp::Zeta, backend).unwrap().is_some());

    let stretched = special_gpu_binary_broadcast(&a, &other, SpecialOp::Xlogy, backend);
    assert_eq!(stretched.unwrap().unwrap().shape, vec![2, 3]);
    assert_eq!(
        special_gpu_binary_broadcast(&a, &host, SpecialOp::Xlogy, backend).unwrap_err(),
        refused(SpecialOp::Xlogy)
    );
    assert_eq!(
        special_gpu_binary_broadcast(&a, &on_gpu(&[3], 1), SpecialOp::Xlogy, backend)
            .unwrap_err(),
        FerrotorchError::DeviceMismatch { expected: Device::Cuda(0), got: Device::Cuda(1) }
    );
    assert_eq!(
        special_gpu_binary_broadcast(&on_gpu(&[2], 0), &other, SpecialOp::Xlogy, backend)
            .unwrap_err(),
        FerrotorchError::ShapeMismatch { reason: Reason::ShapesDiffer }
    );
    assert_eq!(
        reject_cuda_unary(&a, SpecialOp::GammalnSign).unwrap_err(),
        refused(SpecialOp::GammalnSign)
    );
    assert_eq!(
        reject_cuda_binary(&host, &a, SpecialOp::Beta).unwrap_err(),
        refused(SpecialOp::Beta)
    );

    let half = GpuBufferHandle { key: 1, len: 2, dtype: DType::BF16, ordinal: 0 };
    let a16 =
        Tensor::from_storage(TensorStorage::<Bf16>::gpu(half), vec![2], false, TensorId(1))
            .unwrap();
    assert_eq!(
        special_gpu_simple(&a16, SpecialOp::Entr, backend).unwrap_err(),
        refused(SpecialOp::Entr)
    );
    let handle = GpuBufferHandle { key: 4, len: 6, dtype: DType::F64, ordinal: 0 };
    let out: Tensor<F64> = poly_gpu_output(handle, vec![2, 3], TensorId(8)).unwrap();
    assert_eq!((out.shape(), out.id()), (&[2, 3][..], TensorId(8)));
    assert!(poly_gpu_output::<F64>(handle, vec![7], TensorId(8)).is_err());
}

#[test]
fn gradients_are_computed_where_they_can_be() {
    let plain = t(&[1.0], &[1]);
    let recorded =
        Tensor::from_storage(TensorStorage::cpu(f64(&[1.0])), vec![1], true, TensorId(1)).unwrap();
    let gpu = on_gpu(&[1], 0);
    let lane = |k, x: &Tensor<F64>, g: &Tensor<F64>| unary_grad_lane(k, x, g);
    assert_eq!(lane(SpecialUnaryKind::Erf, &plain, &plain), Ok(GradLane::Skip));
    assert_eq!(lane(SpecialUnaryKind::Erf, &recorded, &plain), Ok(GradLane::Host));
    assert_eq!(lane(SpecialUnaryKind::Erf, &recorded, &gpu), Ok(GradLane::Device));
    assert_eq!(
        lane(SpecialUnaryKind::Multigammaln { p: 2 }, &recorded, &gpu),
        Err(FerrotorchError::NotImplementedOnCuda {
            op: CudaGap::SpecialBackward { kind: SpecialUnaryKind::Multigammaln { p: 2 } }
        })
    );
    assert!(special_needs_grad_unary(&recorded, ctx()));
    assert!(special_needs_grad_binary(&plain, &recorded, ctx()));
    let off = Context { grad_enabled: false, ..ctx() };
    assert!(!special_needs_grad_binary(&plain, &recorded, off));

    assert_eq!(SpecialBinaryKind::Xlogy.wanted_grads(true, false), Ok((true, false)));
    assert_eq!(SpecialBinaryKind::Zeta.wanted_grads(false, true), Ok((false, true)));
    assert_eq!(
        SpecialBinaryKind::Gammainc.wanted_grads(true, true),
        Err(FerrotorchError::InvalidArgument {
            reason: Reason::NoDerivative { kind: SpecialBinaryKind::Gammainc }
        })
    );
}

#[test]
fn functions_and_gradients_have_names() {
    assert_eq!(SpecialOp::ScaledModifiedBesselK1.name(), "scaled_modified_bessel_k1");
    assert_eq!(SpecialUnaryKind::I0e.name(), "SpecialI0EBackward");
    assert_eq!(SpecialUnaryKind::Multigammaln { p: 3 }.op(), "mvlgamma_backward");
    assert_eq!(SpecialBinaryKind::Gammaincc.name(), "IgammacBackward");
}

#[test]
fn series_are_evaluated_from_their_coefficients() {
    assert_eq!(polevl(F64(2.0), &f64(&[1.0, 0.0, -3.0])), F64(1.0));
    assert_eq!(polevl(F64(2.0), &f64(&[])), F64(0.0));
    assert_eq!(chbevl(F64(0.5), &f64(&[4.0])), F64(2.0));
    assert_eq!(chbevl(F64(0.5), &f64(&[1.0, 2.0, 6.0])), F64(2.625));
}

fn tracking(data: &[f64], shape: &[usize], id: u64) -> Tensor<F64> {
    Tensor::from_storage(TensorStorage::cpu(f64(data)), shape.to_vec(), true, TensorId(id))
        .unwrap()
}

fn values(x: &Tensor<F64>) -> Vec<f64> {
    x.data_vec(ctx()).unwrap().ready().unwrap().iter().map(|v| v.0).collect()
}

fn square(input: &Tensor<F64>, ctx: Context) -> Tensor<F64> {
    special_unary(
        SpecialOp::Erf,
        false,
        Some(SpecialUnaryKind::Erf),
        input,
        |x: F64| F64(x.0 * x.0),
        ctx,
        TensorId(7),
    )
    .unwrap()
    .ready()
    .unwrap()
}

#[test]
fn special_unary_keeps_what_its_gradient_needs() {
    let input = tracking(&[1.0, 2.0, 3.0], &[3], 2);
    let out = square(&input, ctx());
    assert_eq!(values(&out), vec![1.0, 4.0, 9.0]);
    assert!(out.requires_grad());
    assert!(!out.is_leaf());
    let edge = out.grad_fn().unwrap();
    assert_eq!(edge.name(), Some("ErfBackward"));
    assert_eq!(edge.inputs().len(), 1);
    assert!(edge.inputs()[0].is_same(&input));
    match &**edge {
        GradFn::SpecialUnary(b) => {
            assert_eq!(values(&b.output), vec![1.0, 4.0, 9.0]);
            assert!(!b.output.requires_grad());
            let grads = b
                .backward(&t(&[1.0, 10.0, 100.0], &[3]), |x: F64, y: F64| F64(2.0 * x.0 + y.0), ctx())
                .unwrap()
                .ready()
                .unwrap()
                .unwrap();
            assert_eq!(values(&grads), vec![3.0, 80.0, 1500.0]);
        }
        _ => panic!("another edge"),
    }
}

#[test]
fn special_unary_without_gradient_is_a_leaf() {
    let plain = t(&[2.0], &[1]);
    assert!(square(&plain, ctx()).grad_fn().is_none());
    let input = tracking(&[2.0], &[1], 2);
    let mut silent = ctx();
    silent.grad_enabled = false;
    let out = square(&input, silent);
    assert!(out.grad_fn().is_none());
    assert!(!out.requires_grad());
    let mut inference = ctx();
    inference.inference = true;
    assert!(square(&input, inference).grad_fn().is_none());
}

#[test]
fn special_unary_on_cuda_is_a_job_or_refused() {
    let mut with_backend = ctx();
    with_backend.backend = true;
    let x = on_gpu(&[2], 0);
    let plan = special_unary(
        SpecialOp::Entr,
        true,
        Some(SpecialUnaryKind::Entr),
        &x,
        |v: F64| v,
        with_backend,
        TensorId(7),
    )
    .unwrap();
    match plan {
        Plan::Device(SpecialApplyJob::Evaluate(j)) => {
            assert_eq!(j.op, SpecialOp::Entr);
            assert_eq!(j.shape, vec![2]);
        }
        _ => panic!("not evaluated on the device"),
    }
    let refused = special_unary(
        SpecialOp::Erf,
        false,
        Some(SpecialUnaryKind::Erf),
        &x,
        |v: F64| v,
        with_backend,
        TensorId(7),
    );
    assert!(matches!(
        refused,
        Err(FerrotorchError::NotImplementedOnCuda { op: CudaGap::Special { .. } })
    ));
}

#[test]
fn unary_gradient_is_skipped_for_an_input_that_tracks_none() {
    let b = SpecialUnaryBackward {
        input: t(&[1.0], &[1]),
        output: t(&[1.0], &[1]),
        kind: SpecialUnaryKind::I0,
    };
    let grads = b.backward(&t(&[1.0], &[1]), |x: F64, _y: F64| x, ctx()).unwrap();
    assert!(grads.ready().unwrap().is_none());
}

fn product(a: &Tensor<F64>, b: &Tensor<F64>) -> Tensor<F64> {
    special_binary(
        SpecialOp::LogBeta,
        BinaryLane::HostOnly,
        SpecialBinaryKind::LogBeta,
        a,
        b,
        |x: F64, y: F64| F64(x.0 * y.0),
        ctx(),
        TensorId(7),
    )
    .unwrap()
    .ready()
    .unwrap()
}

#[test]
fn special_binary_stretches_and_brings_gradients_back() {
    let a = tracking(&[1.0, 2.0, 3.0], &[3], 2);
    let b = tracking(&[10.0, 20.0], &[2, 1], 3);
    let out = product(&a, &b);
    assert_eq!(out.shape(), &[2, 3]);
    assert_eq!(values(&out), vec![10.0, 20.0, 30.0, 20.0, 40.0, 60.0]);
    let edge = out.grad_fn().unwrap();
    assert_eq!(edge.name(), Some("LogBetaBackward"));
    assert_eq!(edge.inputs().len(), 2);
    match &**edge {
        GradFn::SpecialBinary(w) => {
            let grads = w
                .backward(
                    &t(&[1.0, 1.0, 1.0, 1.0, 1.0, 2.0], &[2, 3]),
                    |g: F64, _x: F64, y: F64, _z: F64| F64(g.0 * y.0),
                    |g: F64, x: F64, _y: F64, _z: F64| F64(g.0 * x.0),
                    ctx(),
                    TensorId(101),
                )
                .unwrap()
                .ready()
                .unwrap();
            let first = grads.first.unwrap();
            assert_eq!(first.shape(), &[3]);
            assert_eq!(values(&first), vec![30.0, 30.0, 50.0]);
            let second = grads.second.unwrap();
            assert_eq!(second.shape(), &[2, 1]);
            assert_eq!(values(&second), vec![6.0, 9.0]);
        }
        _ => panic!("another edge"),
    }
}

#[test]
fn special_binary_refuses_shapes_and_unknown_derivatives() {
    let a = tracking(&[1.0, 2.0], &[2], 2);
    let b = t(&[1.0, 2.0, 3.0], &[3]);
    let r = special_binary(
        SpecialOp::Zeta,
        BinaryLane::SameShape,
        SpecialBinaryKind::Zeta,
        &a,
        &b,
        |x: F64, _y: F64| x,
        ctx(),
        TensorId(7),
    );
    assert!(matches!(
        r,
        Err(FerrotorchError::ShapeMismatch { reason: Reason::ShapesDiffer })
    ));
    let w = SpecialBinaryBackward {
        a: tracking(&[1.0], &[1], 2),
        b: t(&[1.0], &[1]),
        output: t(&[1.0], &[1]),
        kind: SpecialBinaryKind::Zeta,
    };
    let keep = |g: F64, _x: F64, _y: F64, _z: F64| g;
    assert!(matches!(
        w.backward(&t(&[1.0], &[1]), keep, keep, ctx(), TensorId(101)),
        Err(FerrotorchError::InvalidArgument { reason: Reason::NoDerivative { .. } })
    ));
}

#[test]
fn gradients_of_a_scalar_operand_are_summed() {
    let grad = f64(&[1.0, 2.0, 4.0, 8.0]);
    let sums = reduce_grad_to_shape(&grad, &[2, 2], &[]);
    assert_eq!(sums, f64(&[15.0]));
    assert_eq!(reduce_grad_to_shape(&grad, &[2, 2], &[2]), f64(&[5.0, 10.0]));
    assert_eq!(reduce_grad_to_shape(&grad, &[2, 2], &[2, 1]), f64(&[3.0, 12.0]));
    assert_eq!(reduce_grad_to_shape(&grad, &[2, 2], &[2, 2]), grad);
}

#[test]
fn functions_of_one_argument_keep_their_edges() {
    let input = tracking(&[2.0], &[1], 2);
    let keep = |x: F64| x;
    let name = |p: Result<Plan<Tensor<F64>, SpecialApplyJob<F64>>, FerrotorchError>| {
        p.unwrap().ready().unwrap().grad_fn().and_then(|g| g.name())
    };
    let id = TensorId(7);
    assert_eq!(name(erf(&input, keep, ctx(), id)), Some("ErfBackward"));
    assert_eq!(name(erfc(&input, keep, ctx(), id)), Some("ErfcBackward"));
    assert_eq!(name(erfinv(&input, keep, ctx(), id)), Some("ErfinvBackward"));
    assert_eq!(name(lgamma(&input, keep, ctx(), id)), Some("LgammaBackward"));
    assert_eq!(name(gammaln(&input, keep, ctx(), id)), Some("LgammaBackward"));
    assert_eq!(name(digamma(&input, keep, ctx(), id)), Some("DigammaBackward"));
    assert_eq!(name(entr(&input, keep, ctx(), id)), Some("SpecialEntrBackward"));
    assert_eq!(name(ndtr(&input, keep, ctx(), id)), Some("SpecialNdtrBackward"));
    assert_eq!(name(ndtri(&input, keep, ctx(), id)), Some("SpecialNdtriBackward"));
    assert_eq!(name(i0(&input, keep, ctx(), id)), Some("SpecialI0Backward"));
    assert_eq!(name(i0e(&input, keep, ctx(), id)), Some("SpecialI0EBackward"));
    assert_eq!(name(i1(&input, keep, ctx(), id)), Some("SpecialI1Backward"));
    assert_eq!(name(i1e(&input, keep, ctx(), id)), Some("SpecialI1EBackward"));
    assert_eq!(name(multigammaln(&input, 2, keep, ctx(), id)), Some("MvlgammaBackward"));
    assert_eq!(name(mvlgamma(&input, 2, keep, ctx(), id)), Some("MvlgammaBackward"));
    assert_eq!(name(spherical_bessel_j0(&input, keep, ctx(), id)), None);
    assert_eq!(name(modified_bessel_k0(&input, keep, ctx(), id)), None);
    assert_eq!(name(scaled_modified_bessel_k0(&input, keep, ctx(), id)), None);
    assert_eq!(name(modified_bessel_k1(&input, keep, ctx(), id)), None);
    assert_eq!(name(scaled_modified_bessel_k1(&input, keep, ctx(), id)), None);
    assert_eq!(name(airy_ai(&input, keep, ctx(), id)), None);
    assert_eq!(name(gammaln_sign(&input, keep, ctx(), id)), None);
}

#[test]
fn functions_of_two_arguments_keep_their_edges() {
    let a = tracking(&[0.0, 2.0], &[2], 2);
    let b = t(&[3.0], &[1]);
    let sum = |x: F64, y: F64| F64(x.0 + y.0);
    let id = TensorId(7);
    let done = |p: Result<Plan<Tensor<F64>, SpecialApplyJob<F64>>, FerrotorchError>| {
        p.unwrap().ready().unwrap()
    };
    let name = |r: &Tensor<F64>| r.grad_fn().and_then(|g| g.name());
    let r = done(zeta(&a, &b, sum, ctx(), id));
    assert_eq!((values(&r), name(&r)), (vec![3.0, 5.0], Some("SpecialZetaBackward")));
    assert_eq!(name(&done(gammainc(&a, &b, sum, ctx(), id))), Some("IgammaBackward"));
    assert_eq!(name(&done(gammaincc(&a, &b, sum, ctx(), id))), Some("IgammacBackward"));
    assert_eq!(name(&done(log_beta(&a, &b, sum, ctx(), id))), Some("LogBetaBackward"));
    assert_eq!(name(&done(beta(&a, &b, sum, ctx(), id))), Some("BetaBackward"));
    let r = done(special_xlogy(&a, &b, |y: F64| F64(y.0.ln()), ctx(), id));
    assert_eq!(name(&r), Some("XlogyBackward"));
    assert_eq!(values(&r), vec![0.0, 2.0 * 3.0f64.ln()]);

    let mut with_backend = ctx();
    with_backend.backend = true;
    let (x, y) = (on_gpu(&[2], 0), on_gpu(&[2], 0));
    assert!(matches!(
        zeta(&x, &y, sum, with_backend, id),
        Ok(Plan::Device(SpecialApplyJob::Evaluate(_)))
    ));
    assert_eq!(
        beta(&x, &y, sum, with_backend, id).err(),
        Some(FerrotorchError::NotImplementedOnCuda { op: CudaGap::Special { op: SpecialOp::Beta } })
    );
}

#[test]
fn gradients_of_xlogy_and_beta() {
    let (zero, two, three) = (F64(0.0), F64(2.0), F64(3.0));
    assert_eq!(xlogy_grad_first(two, three, F64(1.0), zero), F64(0.0));
    assert_eq!(xlogy_grad_first(two, three, three, F64(0.5)), F64(1.0));
    assert_eq!(xlogy_grad_first(two, zero, zero, F64(f64::NEG_INFINITY)), zero);
    assert_eq!(xlogy_grad_second(two, three, F64(4.0)), F64(1.5));
    assert_eq!(beta_grad(SpecialBinaryKind::LogBeta, two, three, F64(5.0), F64(1.0)), F64(8.0));
    assert_eq!(beta_grad(SpecialBinaryKind::Beta, two, three, F64(5.0), F64(1.0)), F64(24.0));
}

#[test]
fn operands_on_two_devices_are_refused() {
    let backend = Context { backend: true, ..ctx() };
    assert_eq!(
        special_gpu_binary(&on_gpu(&[3], 0), &on_gpu(&[3], 1), SpecialOp::Zeta, backend)
            .unwrap_err(),
        FerrotorchError::NotImplementedOnCuda { op: CudaGap::Special { op: SpecialOp::Zeta } }
    );
}
