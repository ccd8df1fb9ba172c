//! Two-of-four sparsity.

use ferrotorch_core::autograd::{Context, Plan, TensorId};
use ferrotorch_core::bf16::Bf16;
use ferrotorch_core::device::{CubeBufferHandle, Device, GpuBufferHandle};
use ferrotorch_core::dtype::{DType, Float};
use ferrotorch_core::error::{CudaGap, FerrotorchError, Reason};
use ferrotorch_core::matmul24::{
    finish_matmul_24, sparse_matmul_24, Matmul24Backward, Matmul24Job,
};
use ferrotorch_core::ranking::rank;
use ferrotorch_core::semi24::SemiStructuredSparseTensor;
use ferrotorch_core::storage::TensorStorage;
use ferrotorch_core::tensor::{GradFn, Tensor};
use ferrotorch_core::transfer::TransferJob;
use ferrotorch_core::update::ScatterKernel;

#[derive(Clone, Copy, Debug, PartialEq)]
struct F32(f32);

impl Float for F32 {
    fn dtype_spec() -> DType {
        DType::F32
    }
    fn zero_spec() -> Self {
        F32(0.0)
    }
    fn one_spec() -> Self {
        F32(1.0)
    }
    fn nan_spec() -> Self {
        F32(f32::NAN)
    }
    fn plus(self, rhs: Self) -> Self {
        F32(self.0 + rhs.0)
    }
    fn minus(self, rhs: Self) -> Self {
        F32(self.0 - rhs.0)
    }
    fn times(self, rhs: Self) -> Self {
        F32(self.0 * rhs.0)
    }
    fn over(self, rhs: Self) -> Self {
        F32(self.0 / rhs.0)
    }
    fn magnitude(self) -> Self {
        F32(self.0.abs())
    }
    fn nearest(n: usize) -> Self {
        F32(n as f32)
    }
    fn below(self, rhs: Self) -> bool {
        self.0 < rhs.0
    }
    fn same(self, rhs: Self) -> bool {
        self.0 == rhs.0
    }
    fn lemma_order(_a: Self, _b: Self, _c: Self) {}
    fn lemma_magnitude(_x: Self) {}
    fn lemma_zero_plus(_x: Self) {}
    fn lemma_units() {}
    fn dtype() -> DType {
        Self::dtype_spec()
    }
    fn zero() -> Self {
        Self::zero_spec()
    }
    fn one() -> Self {
        Self::one_spec()
    }
    fn nan() -> Self {
        Self::nan_spec()
    }
    fn add(self, rhs: Self) -> Self {
        self.plus(rhs)
    }
    fn sub(self, rhs: Self) -> Self {
        self.minus(rhs)
    }
    fn mul(self, rhs: Self) -> Self {
        self.times(rhs)
    }
    fn div(self, rhs: Self) -> Self {
        self.over(rhs)
    }
    fn abs(self) -> Self {
        self.magnitude()
    }
    fn from_usize(n: usize) -> Self {
        Self::nearest(n)
    }
    fn is_below(self, rhs: Self) -> bool {
        self.below(rhs)
    }
    fn is_same(self, rhs: Self) -> bool {
        self.same(rhs)
    }
}

fn f32(data: &[f32]) -> Vec<F32> {
    data.iter().map(|&x| F32(x)).collect()
}

#[derive(Clone, Copy, Debug, PartialEq)]
struct F64(f64);

impl Float for F64 {
    fn dtype_spec() -> DType {
        DType::F64
    }
    fn zero_spec() -> Self {
        F64(0.0)
    }
    fn one_spec() -> Self {
        F64(1.0)
    }
    fn nan_spec() -> Self {
        F64(f64::NAN)
    }
    fn plus(self, rhs: Self) -> Self {
        F64(self.0 + rhs.0)
    }
    fn minus(self, rhs: Self) -> Self {
        F64(self.0 - rhs.0)
    }
    fn times(self, rhs: Self) -> Self {
        F64(self.0 * rhs.0)
    }
    fn over(self, rhs: Self) -> Self {
        F64(self.0 / rhs.0)
    }
    fn magnitude(self) -> Self {
        F64(self.0.abs())
    }
    fn nearest(n: usize) -> Self {
        F64(n as f64)
    }
    fn below(self, rhs: Self) -> bool {
        self.0 < rhs.0
    }
    fn same(self, rhs: Self) -> bool {
        self.0 == rhs.0
    }
    fn lemma_order(_a: Self, _b: Self, _c: Self) {}
    fn lemma_magnitude(_x: Self) {}
    fn lemma_zero_plus(_x: Self) {}
    fn lemma_units() {}
    fn dtype() -> DType {
        Self::dtype_spec()
    }
    fn zero() -> Self {
        Self::zero_spec()
    }
    fn one() -> Self {
        Self::one_spec()
    }
    fn nan() -> Self {
        Self::nan_spec()
    }
    fn add(self, rhs: Self) -> Self {
        self.plus(rhs)
    }
    fn sub(self, rhs: Self) -> Self {
        self.minus(rhs)
    }
    fn mul(self, rhs: Self) -> Self {
        self.times(rhs)
    }
    fn div(self, rhs: Self) -> Self {
        self.over(rhs)
    }
    fn abs(self) -> Self {
        self.magnitude()
    }
    fn from_usize(n: usize) -> Self {
        Self::nearest(n)
    }
    fn is_below(self, rhs: Self) -> bool {
        self.below(rhs)
    }
    fn is_same(self, rhs: Self) -> bool {
        self.same(rhs)
    }
}

fn f64(data: &[f64]) -> Vec<F64> {
    data.iter().map(|&x| F64(x)).collect()
}

fn ctx() -> Context {
    Context::host(TensorId(100))
}

fn raw(s: &[F32]) -> Vec<f32> {
    s.iter().map(|x| x.0).collect()
}

fn mk(data: Vec<f32>, shape: Vec<usize>) -> Tensor<F32> {
    Tensor::from_storage(TensorStorage::cpu(f32(&data)), shape, false, TensorId(1)).unwrap()
}

fn compress(t: &Tensor<F32>) -> SemiStructuredSparseTensor<F32> {
    SemiStructuredSparseTensor::compress(t, ctx()).unwrap().ready().unwrap()
}

fn multiply(a: &Tensor<F32>, b: &SemiStructuredSparseTensor<F32>) -> Tensor<F32> {
    sparse_matmul_24(a, b, ctx()).unwrap().ready().unwrap()
}

#[test]
fn semi24_compress_keeps_two_largest_magnitudes_per_group() {
    let t = mk(vec![1.0, 4.0, 2.0, 3.0, -5.0, 2.0, 0.0, 1.0], vec![8]);
    let sp = compress(&t);

    assert_eq!(raw(sp.values()), &[4.0, 3.0, -5.0, 2.0]);
    assert_eq!(sp.mask(), &[0x3A]);
    assert_eq!(sp.num_groups(), 2);
    assert_eq!(sp.group_mask(0), 0xA);
    assert_eq!(sp.group_mask(1), 0x3);
}

#[test]
fn semi24_decompress_roundtrips_compressed_values() {
    let t = mk(vec![1.0, 4.0, 2.0, 3.0, -5.0, 2.0, 0.0, 1.0], vec![8]);
    let sp = compress(&t);
    let dense = sp.decompress(TensorId(2)).unwrap();
    let data = dense.data().unwrap();
    assert_eq!(raw(data), &[0.0, 4.0, 0.0, 3.0, -5.0, 2.0, 0.0, 0.0]);
    assert_eq!(dense.shape(), &[8]);
}

#[test]
fn semi24_compress_decompress_preserves_shape() {
    let data: Vec<f32> = (0..16).map(|i| i as f32).collect();
    let t = mk(data, vec![2, 8]);
    let sp = compress(&t);
    assert_eq!(sp.shape(), &[2, 8]);
    let dense = sp.decompress(TensorId(2)).unwrap();
    assert_eq!(dense.shape(), &[2, 8]);
}

#[test]
fn semi24_rejects_non_multiple_of_4() {
    let t = mk(vec![1.0, 2.0, 3.0, 4.0, 5.0], vec![5]);
    let result = SemiStructuredSparseTensor::compress(&t, ctx());
    assert!(result.is_err());
    assert!(result.unwrap_err().message().contains("multiple of 4"));
}

#[test]
fn semi24_tie_breaking_prefers_lower_position() {
    let t = mk(vec![1.0, 1.0, 1.0, 1.0], vec![4]);
    let sp = compress(&t);
    assert_eq!(sp.group_mask(0), 0x3);
    assert_eq!(raw(sp.values()), &[1.0, 1.0]);
}

#[test]
fn semi24_compression_ratio_is_roughly_half() {
    let n = 1024usize;
    let data: Vec<f32> = (0..n).map(|i| i as f32).collect();
    let t = mk(data, vec![n]);
    let sp = compress(&t);
    let (compressed, dense) = sp.byte_counts();
    assert_eq!((compressed, dense), (2176, 4096));
    let ratio = compressed as f64 / dense as f64;
    assert!(ratio > 0.5 && ratio < 0.6, "unexpected ratio: {ratio}");
}

#[test]
fn semi24_zero_tensor_has_deterministic_mask() {
    let t = mk(vec![0.0; 16], vec![16]);
    let sp = compress(&t);
    assert_eq!(raw(sp.values()), &[0.0; 8]);
    for g in 0..4 {
        assert_eq!(sp.group_mask(g), 0x3);
    }
}

#[test]
fn semi24_negative_and_positive_by_magnitude() {
    let t = mk(vec![-10.0, 1.0, -2.0, 3.0], vec![4]);
    let sp = compress(&t);
    assert_eq!(raw(sp.values()), &[-10.0, 3.0]);
    assert_eq!(sp.group_mask(0), 0x9);
}

#[test]
fn semi24_sparse_matmul_matches_dense_matmul() {
    let a = mk(vec![1.0, 2.0, 3.0, 4.0], vec![2, 2]);
    let b_data = vec![1.0, 4.0, 2.0, 3.0, -5.0, 2.0, 0.0, 1.0];
    let b_dense = mk(b_data.clone(), vec![2, 4]);
    let b_sparse = compress(&b_dense);

    let out = multiply(&a, &b_sparse);
    assert_eq!(out.shape(), &[2, 4]);

    let b_masked = b_sparse.decompress(TensorId(2)).unwrap();
    let b_m = raw(b_masked.data().unwrap());
    let d = raw(out.data().unwrap());
    assert_eq!(d[0], 1.0 * b_m[0] + 2.0 * b_m[4]);
    assert_eq!(d[1], 1.0 * b_m[1] + 2.0 * b_m[5]);
    assert_eq!(d[2], 1.0 * b_m[2] + 2.0 * b_m[6]);
    assert_eq!(d[3], 1.0 * b_m[3] + 2.0 * b_m[7]);
    assert_eq!(d[4], 3.0 * b_m[0] + 4.0 * b_m[4]);
    assert_eq!(d[5], 3.0 * b_m[1] + 4.0 * b_m[5]);
    assert_eq!(d[6], 3.0 * b_m[2] + 4.0 * b_m[6]);
    assert_eq!(d[7], 3.0 * b_m[3] + 4.0 * b_m[7]);
    assert_eq!(d, vec![-10.0, 8.0, 0.0, 3.0, -20.0, 20.0, 0.0, 9.0]);
}

#[test]
fn semi24_sparse_matmul_rejects_non_2d_a() {
    let a = mk(vec![1.0, 2.0, 3.0, 4.0], vec![4]);
    let b_dense = mk(vec![1.0; 16], vec![4, 4]);
    let b_sparse = compress(&b_dense);
    let result = sparse_matmul_24(&a, &b_sparse, ctx());
    assert!(result.is_err());
}

#[test]
fn semi24_sparse_matmul_rejects_inner_dim_mismatch() {
    let a = mk(vec![1.0, 2.0, 3.0], vec![1, 3]);
    let b_dense = mk(vec![1.0; 16], vec![4, 4]);
    let b_sparse = compress(&b_dense);
    let result = sparse_matmul_24(&a, &b_sparse, ctx());
    assert!(result.is_err());
    assert_eq!(
        result.unwrap_err(),
        FerrotorchError::ShapeMismatch { reason: Reason::InnerSizes { left: 3, right: 4 } }
    );
}

#[test]
fn semi24_f64_parity() {
    let t = Tensor::from_storage(
        TensorStorage::cpu(f64(&[1.0, 4.0, 2.0, 3.0, -5.0, 2.0, 0.0, 1.0])),
        vec![8],
        false,
        TensorId(1),
    )
    .unwrap();
    let sp = SemiStructuredSparseTensor::compress(&t, ctx()).unwrap().ready().unwrap();
    assert_eq!(sp.values(), f64(&[4.0, 3.0, -5.0, 2.0]).as_slice());
    let dense = sp.decompress(TensorId(2)).unwrap();
    let data = dense.data().unwrap();
    assert_eq!(data, f64(&[0.0, 4.0, 0.0, 3.0, -5.0, 2.0, 0.0, 0.0]).as_slice());
}

fn apply_2_4_mask(data: &[f32]) -> Vec<f32> {
    let mut out = data.to_vec();
    for group in out.chunks_mut(4) {
        let mut order: Vec<usize> = (0..4).collect();
        order.sort_by(|&i, &j| group[j].abs().total_cmp(&group[i].abs()));
        group[order[2]] = 0.0;
        group[order[3]] = 0.0;
    }
    out
}

#[test]
fn semi24_compress_then_decompress_matches_apply_2_4_mask() {
    let values = [0.1, 0.9, 0.3, 0.5, -0.8, 0.2, 0.7, -0.4, 1.5, -2.0, 0.1, 0.3];
    let sp = compress(&mk(values.to_vec(), vec![12]));
    let dense = sp.decompress(TensorId(2)).unwrap();
    assert_eq!(raw(dense.data().unwrap()), apply_2_4_mask(&values));
    assert_eq!(
        raw(dense.data().unwrap()),
        vec![0.0, 0.9, 0.0, 0.5, -0.8, 0.0, 0.7, 0.0, 1.5, -2.0, 0.0, 0.0]
    );
    assert_eq!(sp.mask(), &[0x5A, 0x03]);
}

#[test]
fn scalars_and_recorded_tensors_are_not_compressed() {
    let scalar = mk(vec![1.0], vec![]);
    assert_eq!(
        SemiStructuredSparseTensor::compress(&scalar, ctx()).unwrap_err(),
        FerrotorchError::InvalidArgument { reason: Reason::NoDimension }
    );
    let recorded = Tensor::from_storage(
        TensorStorage::cpu(f32(&[1.0, 2.0, 3.0, 4.0])),
        vec![4],
        true,
        TensorId(1),
    )
    .unwrap();
    assert_eq!(
        SemiStructuredSparseTensor::compress(&recorded, ctx()).unwrap_err(),
        FerrotorchError::InvalidArgument { reason: Reason::TracksGradients }
    );
    let no_grad = Context { grad_enabled: false, ..ctx() };
    assert!(SemiStructuredSparseTensor::compress(&recorded, no_grad).is_ok());
}

#[test]
fn innermost_dimension_counts_and_not_the_total() {
    let t = mk(vec![1.0; 12], vec![2, 6]);
    assert_eq!(
        SemiStructuredSparseTensor::compress(&t, ctx()).unwrap_err(),
        FerrotorchError::InvalidArgument { reason: Reason::NotMultipleOfFour { size: 6 } }
    );
}

#[test]
fn device_inputs_are_read_back_first() {
    let handle = CubeBufferHandle { key: 3, len: 4, ordinal: 0 };
    let t = Tensor::from_storage(
        TensorStorage::<F32>::xpu_from_handle(handle, 0),
        vec![4],
        false,
        TensorId(1),
    )
    .unwrap();
    match SemiStructuredSparseTensor::compress(&t, ctx()).unwrap() {
        Plan::Device(TransferJob::ReadCubecl { handle: h }) => assert_eq!(h, handle),
        other => panic!("unexpected plan: {other:?}"),
    }
    let sp = SemiStructuredSparseTensor::compress_data(&f32(&[1.0, 0.0, 2.0, 0.0]), &[4]);
    assert_eq!(raw(sp.values()), vec![1.0, 2.0]);
}

#[test]
fn cuda_products_carry_the_dense_weight() {
    let handle = GpuBufferHandle { key: 3, len: 2, dtype: DType::F32, ordinal: 1 };
    let a = Tensor::from_storage(
        TensorStorage::<F32>::gpu(handle),
        vec![1, 2],
        false,
        TensorId(1),
    )
    .unwrap();
    let b = compress(&mk(vec![1.0, 4.0, 2.0, 3.0, -5.0, 2.0, 0.0, 1.0], vec![2, 4]));
    let backend = Context { backend: true, ..ctx() };
    match sparse_matmul_24(&a, &b, backend).unwrap() {
        Plan::Device(Matmul24Job::Multiply { weight, kernel, m, k, n, .. }) => {
            assert_eq!(raw(&weight), vec![0.0, 4.0, 0.0, 3.0, -5.0, 2.0, 0.0, 0.0]);
            assert_eq!((kernel, m, k, n), (ScatterKernel::F32, 1, 2, 4));
        }
        other => panic!("unexpected plan: {other:?}"),
    }
    let out = GpuBufferHandle { key: 4, len: 4, dtype: DType::F32, ordinal: 1 };
    let t = finish_matmul_24(&a, &b, TensorStorage::gpu(out), backend).unwrap();
    assert_eq!((t.shape(), t.device()), (&[1, 4][..], Device::Cuda(1)));

    let half = GpuBufferHandle { key: 5, len: 4, dtype: DType::BF16, ordinal: 1 };
    let a16 = Tensor::from_storage(
        TensorStorage::<Bf16>::gpu(half),
        vec![1, 4],
        false,
        TensorId(1),
    )
    .unwrap();
    let one = Bf16::one();
    let b16 = SemiStructuredSparseTensor::compress_data(&[one; 16], &[4, 4]);
    assert_eq!(
        sparse_matmul_24(&a16, &b16, backend).unwrap_err(),
        FerrotorchError::NotImplementedOnCuda { op: CudaGap::SparseMatmul24 }
    );
}

#[test]
fn gradient_of_a_product_multiplies_by_the_transposed_weight() {
    let a = Tensor::from_storage(
        TensorStorage::cpu(f32(&[1.0, 2.0])),
        vec![1, 2],
        true,
        TensorId(1),
    )
    .unwrap();
    let b = compress(&mk(vec![1.0, 4.0, 2.0, 3.0, -5.0, 2.0, 0.0, 1.0], vec![2, 4]));
    let out = multiply(&a, &b);
    let grad_fn = out.grad_fn().unwrap();
    assert_eq!(grad_fn.name(), Some("Matmul24Backward"));
    match &**grad_fn {
        GradFn::Matmul24(w) => {
            let upstream = mk(vec![1.0, 1.0, 1.0, 1.0], vec![1, 4]);
            let operands = w.backward(&upstream, ctx()).unwrap().ready().unwrap();
            assert!(operands.lhs.is_same(&upstream));
            assert_eq!(operands.rhs.shape(), &[4, 2]);
            assert_eq!(
                raw(operands.rhs.data().unwrap()),
                vec![0.0, -5.0, 4.0, 2.0, 0.0, 0.0, 3.0, 0.0]
            );
        }
        other => panic!("unexpected gradient: {other:?}"),
    }
}

#[test]
fn ranking_is_stable() {
    assert_eq!(rank(&f32(&[1.0, 3.0, 2.0, 3.0])), vec![1, 3, 2, 0]);
    assert_eq!(rank(&f32(&[])), Vec::<usize>::new());
}

#[test]
fn compressing_again_changes_nothing() {
    let dense = mk(vec![0.0, -3.0, 0.0, 0.0, 1.0, 1.0, -1.0, 1.0, 4.0, 3.0, 2.0, 1.0], vec![3, 4]);
    let once = compress(&dense);
    let twice = compress(&once.decompress(TensorId(5)).unwrap());
    assert_eq!(twice.mask(), once.mask());
    assert_eq!(raw(twice.values()), raw(once.values()));
    let copy = once.clone();
    assert_eq!((copy.mask(), copy.shape()), (once.mask(), once.shape()));
    assert_eq!(raw(copy.values()), raw(once.values()));
}

#[test]
fn the_gradient_of_a_product_is_finished_on_its_device() {
    let a = mk(vec![1.0, 2.0], vec![1, 2]);
    let edge = Matmul24Backward {
        a,
        weight: f32(&[1.0, 0.0, 2.0, 0.0, 0.0, 3.0, 0.0, 4.0]),
        k: 2,
        n: 4,
    };
    assert!(edge.is_valid());
    let grad = edge.host_gradient(&f32(&[1.0, 1.0, 1.0, 1.0]), 1, ctx()).unwrap();
    assert_eq!((grad.shape(), raw(grad.data().unwrap())), (&[1, 2][..], vec![3.0, 7.0]));
    let handle = GpuBufferHandle { key: 3, len: 8, dtype: DType::F32, ordinal: 0 };
    let operands = edge.finish_operands(&grad, TensorStorage::gpu(handle), ctx()).unwrap();
    assert_eq!(operands.rhs.shape(), &[4, 2]);
    assert_eq!(operands.rhs.gpu_handle().unwrap().key, 3);
    let made = edge.finish_gradient(TensorStorage::gpu(handle), 3, ctx()).unwrap();
    assert_eq!(made.shape(), &[3, 2]);
    let short = Matmul24Backward { weight: f32(&[1.0]), ..edge };
    assert!(!short.is_valid());
}
