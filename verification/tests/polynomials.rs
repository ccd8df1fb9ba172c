//! Orthogonal polynomials.

use ferrotorch_core::autograd::{Context, Plan, TensorId};
use ferrotorch_core::bf16::Bf16;
use ferrotorch_core::device::GpuBufferHandle;
use ferrotorch_core::dtype::{DType, Float};
use ferrotorch_core::error::{CudaGap, FerrotorchError, FerrotorchResult};
use ferrotorch_core::polynomial::{
    chebyshev_polynomial_t, chebyshev_polynomial_u, chebyshev_polynomial_v,
    chebyshev_polynomial_w, chebyshev_seeds, hermite_polynomial_h, hermite_polynomial_he,
    hermitian_limit, laguerre_polynomial_l, legendre_polynomial_p, polynomial,
    shifted_chebyshev_polynomial_t, shifted_chebyshev_polynomial_u,
    shifted_chebyshev_polynomial_v, shifted_chebyshev_polynomial_w, Basis, Family, PolynomialJob,
};
use ferrotorch_core::storage::TensorStorage;
use ferrotorch_core::tensor::Tensor;
use ferrotorch_core::update::ScatterKernel;

#[derive(Clone, Copy, Debug, PartialEq)]
struct F64(f64);

impl Float for F64 {
    fn dtype_spec() -> DType {
        DType::F64
    }
    fn zero_spec() -> Self {
        F64(0.0)
    }
    fn one_spec() -> Self {
        F64(1.0)
    }
    fn nan_spec() -> Self {
        F64(f64::NAN)
    }
    fn plus(self, rhs: Self) -> Self {
        F64(self.0 + rhs.0)
    }
    fn minus(self, rhs: Self) -> Self {
        F64(self.0 - rhs.0)
    }
    fn times(self, rhs: Self) -> Self {
        F64(self.0 * rhs.0)
    }
    fn over(self, rhs: Self) -> Self {
        F64(self.0 / rhs.0)
    }
    fn magnitude(self) -> Self {
        F64(self.0.abs())
    }
    fn nearest(n: usize) -> Self {
        F64(n as f64)
    }
    fn below(self, rhs: Self) -> bool {
        self.0 < rhs.0
    }
    fn same(self, rhs: Self) -> bool {
        self.0 == rhs.0
    }
    fn lemma_order(_a: Self, _b: Self, _c: Self) {}
    fn lemma_magnitude(_x: Self) {}
    fn lemma_zero_plus(_x: Self) {}
    fn lemma_units() {}
    fn dtype() -> DType {
        Self::dtype_spec()
    }
    fn zero() -> Self {
        Self::zero_spec()
    }
    fn one() -> Self {
        Self::one_spec()
    }
    fn nan() -> Self {
        Self::nan_spec()
    }
    fn add(self, rhs: Self) -> Self {
        self.plus(rhs)
    }
    fn sub(self, rhs: Self) -> Self {
        self.minus(rhs)
    }
    fn mul(self, rhs: Self) -> Self {
        self.times(rhs)
    }
    fn div(self, rhs: Self) -> Self {
        self.over(rhs)
    }
    fn abs(self) -> Self {
        self.magnitude()
    }
    fn from_usize(n: usize) -> Self {
        Self::nearest(n)
    }
    fn is_below(self, rhs: Self) -> bool {
        self.below(rhs)
    }
    fn is_same(self, rhs: Self) -> bool {
        self.same(rhs)
    }
}

fn f64(data: &[f64]) -> Vec<F64> {
    data.iter().map(|&x| F64(x)).collect()
}

fn ctx() -> Context {
    Context::host(TensorId(100))
}

fn t(data: &[f64], shape: &[usize]) -> Tensor<F64> {
    Tensor::from_storage(TensorStorage::cpu(f64(data)), shape.to_vec(), false, TensorId(1))
        .unwrap()
}

fn done(r: FerrotorchResult<Plan<Tensor<F64>, PolynomialJob<F64>>>) -> Vec<f64> {
    let t = r.unwrap().ready().unwrap();
    t.data().unwrap().iter().map(|x| x.0).collect()
}

fn close(a: f64, b: f64, tol: f64) -> bool {
    (a - b).abs() < tol
}

fn points() -> [f64; 6] {
    [0.0, 0.5, 1.0, -0.5, -1.0, 0.25]
}

fn xs() -> Tensor<F64> {
    t(&points(), &[6])
}

#[test]
fn chebyshev_t_n0_is_one() {
    for v in done(chebyshev_polynomial_t(&xs(), 0, ctx())) {
        assert!(close(v, 1.0, 1e-12));
    }
}

#[test]
fn chebyshev_t_n1_is_x() {
    let r = done(chebyshev_polynomial_t(&xs(), 1, ctx()));
    assert_eq!(r.len(), 6);
    for (a, b) in r.iter().zip(points().iter()) {
        assert!(close(*a, *b, 1e-12));
    }
}

#[test]
fn chebyshev_t_n2_is_2xx_minus_one() {
    let r = done(chebyshev_polynomial_t(&xs(), 2, ctx()));
    for (a, &xv) in r.iter().zip(points().iter()) {
        assert!(close(*a, 2.0 * xv * xv - 1.0, 1e-12));
    }
}

#[test]
fn chebyshev_t_at_endpoints() {
    let pts = t(&[1.0, -1.0], &[2]);
    for n in 0..6 {
        let d = done(chebyshev_polynomial_t(&pts, n, ctx()));
        assert!(close(d[0], 1.0, 1e-12), "T_{n}(1) = {}", d[0]);
        let expected_neg = if n % 2 == 0 { 1.0 } else { -1.0 };
        assert!(close(d[1], expected_neg, 1e-12), "T_{n}(-1) = {}", d[1]);
    }
}

#[test]
fn chebyshev_u_n0_n1_n2() {
    let x = t(&[0.5], &[1]);
    let xv = 0.5;
    assert!(close(done(chebyshev_polynomial_u(&x, 0, ctx()))[0], 1.0, 1e-12));
    assert!(close(done(chebyshev_polynomial_u(&x, 1, ctx()))[0], 2.0 * xv, 1e-12));
    assert!(close(
        done(chebyshev_polynomial_u(&x, 2, ctx()))[0],
        4.0 * xv * xv - 1.0,
        1e-12,
    ));
}

#[test]
fn chebyshev_v_endpoints() {
    let pts = t(&[1.0, 0.0], &[2]);
    for n in 0..4 {
        let r = done(chebyshev_polynomial_v(&pts, n, ctx()));
        assert!(close(r[0], 1.0, 1e-12));
    }
    let r1 = done(chebyshev_polynomial_v(&pts, 1, ctx()));
    assert!(close(r1[1], -1.0, 1e-12));
}

#[test]
fn chebyshev_w_endpoints() {
    let zero = t(&[0.0], &[1]);
    assert!(close(done(chebyshev_polynomial_w(&zero, 1, ctx()))[0], 1.0, 1e-12));
    let one = t(&[1.0], &[1]);
    for n in 0..5 {
        assert_eq!(done(chebyshev_polynomial_w(&one, n, ctx()))[0], (2 * n + 1) as f64);
    }
}

#[test]
fn hermite_h_known_values() {
    let x = t(&[0.5], &[1]);
    let xv = 0.5;
    assert!(close(done(hermite_polynomial_h(&x, 0, ctx()))[0], 1.0, 1e-12));
    assert!(close(done(hermite_polynomial_h(&x, 1, ctx()))[0], 2.0 * xv, 1e-12));
    assert!(close(
        done(hermite_polynomial_h(&x, 2, ctx()))[0],
        4.0 * xv * xv - 2.0,
        1e-12,
    ));
    assert!(close(
        done(hermite_polynomial_h(&x, 3, ctx()))[0],
        8.0 * xv * xv * xv - 12.0 * xv,
        1e-12,
    ));
}

#[test]
fn hermite_he_known_values() {
    let x = t(&[0.5], &[1]);
    let xv = 0.5;
    assert!(close(done(hermite_polynomial_he(&x, 0, ctx()))[0], 1.0, 1e-12));
    assert!(close(done(hermite_polynomial_he(&x, 1, ctx()))[0], xv, 1e-12));
    assert!(close(done(hermite_polynomial_he(&x, 2, ctx()))[0], xv * xv - 1.0, 1e-12));
    assert!(close(
        done(hermite_polynomial_he(&x, 3, ctx()))[0],
        xv * xv * xv - 3.0 * xv,
        1e-12,
    ));
}

#[test]
fn laguerre_l_known_values() {
    let x = t(&[0.5], &[1]);
    let xv = 0.5;
    assert!(close(done(laguerre_polynomial_l(&x, 0, ctx()))[0], 1.0, 1e-12));
    assert!(close(done(laguerre_polynomial_l(&x, 1, ctx()))[0], 1.0 - xv, 1e-12));
    assert!(close(
        done(laguerre_polynomial_l(&x, 2, ctx()))[0],
        (xv * xv - 4.0 * xv + 2.0) / 2.0,
        1e-12,
    ));
}

#[test]
fn legendre_p_known_values() {
    let x = t(&[0.5], &[1]);
    let xv = 0.5;
    assert!(close(done(legendre_polynomial_p(&x, 0, ctx()))[0], 1.0, 1e-12));
    assert!(close(done(legendre_polynomial_p(&x, 1, ctx()))[0], xv, 1e-12));
    assert!(close(
        done(legendre_polynomial_p(&x, 2, ctx()))[0],
        (3.0 * xv * xv - 1.0) / 2.0,
        1e-12,
    ));
    assert!(close(
        done(legendre_polynomial_p(&x, 3, ctx()))[0],
        (5.0 * xv * xv * xv - 3.0 * xv) / 2.0,
        1e-12,
    ));
}

#[test]
fn legendre_p_endpoints() {
    let pts = t(&[1.0, -1.0], &[2]);
    for n in 0..6 {
        let d = done(legendre_polynomial_p(&pts, n, ctx()));
        assert!(close(d[0], 1.0, 1e-12), "P_{n}(1) = {}", d[0]);
        let expected_neg = if n % 2 == 0 { 1.0 } else { -1.0 };
        assert!(close(d[1], expected_neg, 1e-12), "P_{n}(-1) = {}", d[1]);
    }
}

#[test]
fn shifted_chebyshev_t_matches_t_of_2x_minus_1() {
    let x = xs();
    for n in 0..5 {
        let shifted = done(shifted_chebyshev_polynomial_t(&x, n, ctx()));
        let mapped: Vec<f64> = points().iter().map(|v| 2.0 * v - 1.0).collect();
        let mapped_t = t(&mapped, &[mapped.len()]);
        let direct = done(chebyshev_polynomial_t(&mapped_t, n, ctx()));
        for (s, d) in shifted.iter().zip(direct.iter()) {
            assert!(close(*s, *d, 1e-12), "T*_{n} mismatch at n={n}: {s} vs {d}");
        }
    }
}

#[test]
fn polynomial_fns_reject_cuda_tensors_explicitly() {
    let x = t(&[0.0], &[1]);
    assert!(chebyshev_polynomial_t(&x, 3, ctx()).is_ok());

    let half = GpuBufferHandle { key: 1, len: 2, dtype: DType::BF16, ordinal: 0 };
    let x16 =
        Tensor::from_storage(TensorStorage::<Bf16>::gpu(half), vec![2], false, TensorId(1))
            .unwrap();
    let backend = Context { backend: true, ..ctx() };
    assert_eq!(
        chebyshev_polynomial_t(&x16, 3, backend).unwrap_err(),
        FerrotorchError::NotImplementedOnCuda {
            op: CudaGap::Polynomial {
                basis: Basis { family: Family::ChebyshevT, shifted: false }
            }
        }
    );
    let wide = GpuBufferHandle { key: 1, len: 2, dtype: DType::F64, ordinal: 0 };
    let x64 = Tensor::from_storage(TensorStorage::<F64>::gpu(wide), vec![2], false, TensorId(1))
        .unwrap();
    assert_eq!(
        legendre_polynomial_p(&x64, 3, ctx()).unwrap_err(),
        FerrotorchError::DeviceUnavailable
    );
    match shifted_chebyshev_polynomial_w(&x64, 7, backend).unwrap() {
        Plan::Device(PolynomialJob::Evaluate { basis, n, kernel, .. }) => {
            assert_eq!(basis, Basis { family: Family::ChebyshevW, shifted: true });
            assert_eq!((n, kernel), (7, ScatterKernel::F64));
        }
        other => panic!("unexpected plan: {other:?}"),
    }
}

#[test]
fn shifted_families_shift_their_argument() {
    let x = t(&[0.75], &[1]);
    let y = t(&[0.5], &[1]);
    for n in 0..5 {
        assert_eq!(
            done(shifted_chebyshev_polynomial_u(&x, n, ctx())),
            done(chebyshev_polynomial_u(&y, n, ctx()))
        );
        assert_eq!(
            done(shifted_chebyshev_polynomial_v(&x, n, ctx())),
            done(chebyshev_polynomial_v(&y, n, ctx()))
        );
        assert_eq!(
            done(shifted_chebyshev_polynomial_w(&x, n, ctx())),
            done(chebyshev_polynomial_w(&y, n, ctx()))
        );
    }
}

#[test]
fn hermite_polynomials_end_at_the_limit() {
    assert_eq!(hermitian_limit(DType::F32), 128);
    assert_eq!(hermitian_limit(DType::F64), 512);
    assert_eq!(hermitian_limit(DType::BF16), 1024);
    let x = t(&[0.0, 1.0], &[2]);
    assert!(!done(hermite_polynomial_he(&x, 100, ctx()))[0].is_nan());
    assert!(done(hermite_polynomial_h(&x, 513, ctx())).iter().all(|v| v.is_nan()));
    assert!(done(hermite_polynomial_he(&x, 513, ctx())).iter().all(|v| v.is_nan()));
    let zero = t(&[0.0], &[1]);
    assert_eq!(done(hermite_polynomial_he(&zero, 4, ctx())), vec![3.0]);
}

#[test]
fn a_value_that_is_no_number_stays() {
    let x = polynomial(Family::ChebyshevT, 5000, F64(1.0e300));
    assert!(x.0.is_nan() || x.0.is_infinite());
    assert!(polynomial(Family::LegendreP, 9, F64(f64::NAN)).0.is_nan());
    assert!(polynomial(Family::HermiteH, 1, F64(f64::NAN)).0.is_nan());
}

#[test]
fn each_term_follows_from_the_two_before() {
    let x = 0.3;
    let p = |n: usize| polynomial(Family::LaguerreL, n, F64(x)).0;
    for n in 1..8 {
        let k = n as f64;
        assert_eq!(p(n + 1), ((k + k + (1.0 - x)) * p(n) - k * p(n - 1)) / (k + 1.0));
    }
}

#[test]
fn seeds_tell_the_chebyshev_families_apart() {
    assert_eq!(chebyshev_seeds(Family::ChebyshevT), Some((1, 0)));
    assert_eq!(chebyshev_seeds(Family::ChebyshevU), Some((2, 0)));
    assert_eq!(chebyshev_seeds(Family::ChebyshevV), Some((2, -1)));
    assert_eq!(chebyshev_seeds(Family::ChebyshevW), Some((2, 1)));
    assert_eq!(chebyshev_seeds(Family::LegendreP), None);
}

#[test]
fn brain_floats_run_the_same_recurrence() {
    let two = Bf16::one().add(Bf16::one());
    assert_eq!(polynomial(Family::ChebyshevT, 3, two).to_bits(), 0x41D0);
    assert_eq!(polynomial(Family::HermiteHe, 3, two).to_bits(), 0x4000);
}

#[test]
fn chebyshev_t_alternates_at_the_ends() {
    let one = Bf16::one();
    let minus_one = Bf16::zero().sub(one);
    for n in 0..50 {
        assert_eq!(polynomial(Family::ChebyshevT, n, one), one);
        let expected = if n % 2 == 0 { one } else { minus_one };
        assert_eq!(polynomial(Family::ChebyshevT, n, minus_one), expected);
        assert_eq!(polynomial(Family::ChebyshevT, n, F64(1.0)).0, 1.0);
        let sign = if n % 2 == 0 { 1.0 } else { -1.0 };
        assert_eq!(polynomial(Family::ChebyshevT, n, F64(-1.0)).0, sign);
    }
}
