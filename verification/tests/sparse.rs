//! Sparse tensors of any rank.

use ferrotorch_core::autograd::{Context, Plan, TensorId};
use ferrotorch_core::bf16::Bf16;
use ferrotorch_core::device::{Device, GpuBufferHandle};
use ferrotorch_core::dtype::{DType, Float};
use ferrotorch_core::error::{CudaGap, FerrotorchError, Reason};
use ferrotorch_core::sparse_tensor::{DenseJob, ExtractJob, SparseTensor, SpmmJob};
use ferrotorch_core::storage::TensorStorage;
use ferrotorch_core::tensor::{GradFn, Tensor};
use ferrotorch_core::transfer::TransferJob;

#[derive(Clone, Copy, Debug, PartialEq)]
struct F32(f32);

impl Float for F32 {
    fn dtype_spec() -> DType {
        DType::F32
    }
    fn zero_spec() -> Self {
        F32(0.0)
    }
    fn one_spec() -> Self {
        F32(1.0)
    }
    fn nan_spec() -> Self {
        F32(f32::NAN)
    }
    fn plus(self, rhs: Self) -> Self {
        F32(self.0 + rhs.0)
    }
    fn minus(self, rhs: Self) -> Self {
        F32(self.0 - rhs.0)
    }
    fn times(self, rhs: Self) -> Self {
        F32(self.0 * rhs.0)
    }
    fn over(self, rhs: Self) -> Self {
        F32(self.0 / rhs.0)
    }
    fn magnitude(self) -> Self {
        F32(self.0.abs())
    }
    fn nearest(n: usize) -> Self {
        F32(n as f32)
    }
    fn below(self, rhs: Self) -> bool {
        self.0 < rhs.0
    }
    fn same(self, rhs: Self) -> bool {
        self.0 == rhs.0
    }
    fn lemma_order(_a: Self, _b: Self, _c: Self) {}
    fn lemma_magnitude(_x: Self) {}
    fn lemma_zero_plus(_x: Self) {}
    fn lemma_units() {}
    fn dtype() -> DType {
        Self::dtype_spec()
    }
    fn zero() -> Self {
        Self::zero_spec()
    }
    fn one() -> Self {
        Self::one_spec()
    }
    fn nan() -> Self {
        Self::nan_spec()
    }
    fn add(self, rhs: Self) -> Self {
        self.plus(rhs)
    }
    fn sub(self, rhs: Self) -> Self {
        self.minus(rhs)
    }
    fn mul(self, rhs: Self) -> Self {
        self.times(rhs)
    }
    fn div(self, rhs: Self) -> Self {
        self.over(rhs)
    }
    fn abs(self) -> Self {
        self.magnitude()
    }
    fn from_usize(n: usize) -> Self {
        Self::nearest(n)
    }
    fn is_below(self, rhs: Self) -> bool {
        self.below(rhs)
    }
    fn is_same(self, rhs: Self) -> bool {
        self.same(rhs)
    }
}

fn f32(data: &[f32]) -> Vec<F32> {
    data.iter().map(|&x| F32(x)).collect()
}

#[derive(Clone, Copy, Debug, PartialEq)]
struct F64(f64);

impl Float for F64 {
    fn dtype_spec() -> DType {
        DType::F64
    }
    fn zero_spec() -> Self {
        F64(0.0)
    }
    fn one_spec() -> Self {
        F64(1.0)
    }
    fn nan_spec() -> Self {
        F64(f64::NAN)
    }
    fn plus(self, rhs: Self) -> Self {
        F64(self.0 + rhs.0)
    }
    fn minus(self, rhs: Self) -> Self {
        F64(self.0 - rhs.0)
    }
    fn times(self, rhs: Self) -> Self {
        F64(self.0 * rhs.0)
    }
    fn over(self, rhs: Self) -> Self {
        F64(self.0 / rhs.0)
    }
    fn magnitude(self) -> Self {
        F64(self.0.abs())
    }
    fn nearest(n: usize) -> Self {
        F64(n as f64)
    }
    fn below(self, rhs: Self) -> bool {
        self.0 < rhs.0
    }
    fn same(self, rhs: Self) -> bool {
        self.0 == rhs.0
    }
    fn lemma_order(_a: Self, _b: Self, _c: Self) {}
    fn lemma_magnitude(_x: Self) {}
    fn lemma_zero_plus(_x: Self) {}
    fn lemma_units() {}
    fn dtype() -> DType {
        Self::dtype_spec()
    }
    fn zero() -> Self {
        Self::zero_spec()
    }
    fn one() -> Self {
        Self::one_spec()
    }
    fn nan() -> Self {
        Self::nan_spec()
    }
    fn add(self, rhs: Self) -> Self {
        self.plus(rhs)
    }
    fn sub(self, rhs: Self) -> Self {
        self.minus(rhs)
    }
    fn mul(self, rhs: Self) -> Self {
        self.times(rhs)
    }
    fn div(self, rhs: Self) -> Self {
        self.over(rhs)
    }
    fn abs(self) -> Self {
        self.magnitude()
    }
    fn from_usize(n: usize) -> Self {
        Self::nearest(n)
    }
    fn is_below(self, rhs: Self) -> bool {
        self.below(rhs)
    }
    fn is_same(self, rhs: Self) -> bool {
        self.same(rhs)
    }
}

fn f64(data: &[f64]) -> Vec<F64> {
    data.iter().map(|&x| F64(x)).collect()
}

fn ctx() -> Context {
    Context::host(TensorId(100))
}

fn dense32(data: &[f32], shape: Vec<usize>) -> Tensor<F32> {
    Tensor::from_storage(TensorStorage::cpu(f32(data)), shape, false, TensorId(1)).unwrap()
}

fn from_dense(t: &Tensor<F32>, threshold: f32) -> SparseTensor<F32> {
    SparseTensor::from_dense(t, F32(threshold), ctx()).unwrap().ready().unwrap()
}

fn raw(s: &[F32]) -> Vec<f32> {
    s.iter().map(|x| x.0).collect()
}

#[test]
fn test_construction_and_accessors() {
    let indices = vec![vec![0, 1], vec![1, 2], vec![2, 0]];
    let values = f32(&[1.0, 2.0, 3.0]);
    let shape = vec![3, 3];

    let sp = SparseTensor::new(indices.clone(), values.clone(), shape.clone()).unwrap();

    assert_eq!(sp.nnz(), 3);
    assert_eq!(sp.shape(), &[3, 3]);
    assert_eq!(sp.ndim(), 2);
    assert_eq!(raw(sp.values()), &[1.0, 2.0, 3.0]);
    assert_eq!(sp.indices(), &indices);
}

#[test]
fn test_from_dense_with_threshold() {
    let data = [0.0f32, 0.0, 5.0, 0.0, 0.0, 0.0, 3.0, 0.0, 0.0];
    let tensor = dense32(&data, vec![3, 3]);

    let sp = from_dense(&tensor, 0.0);

    assert_eq!(sp.nnz(), 2);
    assert_eq!(sp.shape(), &[3, 3]);

    let dense = sp.to_dense(TensorId(2)).unwrap();
    let d = dense.data().unwrap();
    let idx = |r: usize, c: usize| r * 3 + c;
    assert_eq!(d[idx(0, 2)].0, 5.0);
    assert_eq!(d[idx(2, 0)].0, 3.0);
}

#[test]
fn test_from_dense_threshold_filters_small() {
    let tensor = dense32(&[0.5f32, 1.5, 0.1, 2.0], vec![2, 2]);

    let sp = from_dense(&tensor, 1.0);

    assert_eq!(sp.nnz(), 2);
    let dense = sp.to_dense(TensorId(2)).unwrap();
    let d = dense.data().unwrap();
    assert_eq!(d[0].0, 0.0);
    assert_eq!(d[1].0, 1.5);
    assert_eq!(d[2].0, 0.0);
    assert_eq!(d[3].0, 2.0);
}

#[test]
fn test_to_dense_round_trip() {
    let data = [1.0f64, 0.0, 0.0, 0.0, 2.0, 0.0, 0.0, 0.0, 3.0];
    let original =
        Tensor::from_storage(TensorStorage::cpu(f64(&data)), vec![3, 3], false, TensorId(1))
            .unwrap();

    let sp = SparseTensor::from_dense(&original, F64(0.0), ctx()).unwrap().ready().unwrap();
    let reconstructed = sp.to_dense(TensorId(2)).unwrap();

    let orig_data = original.data().unwrap();
    let recon_data = reconstructed.data().unwrap();

    assert_eq!(orig_data.len(), recon_data.len());
    for (a, b) in orig_data.iter().zip(recon_data.iter()) {
        assert!((a.0 - b.0).abs() < 1e-10);
    }
}

#[test]
fn test_spmm_matches_dense_mm() {
    let sp = SparseTensor::new(
        vec![vec![0, 0], vec![0, 2], vec![1, 1]],
        f32(&[1.0f32, 2.0, 3.0]),
        vec![2, 3],
    )
    .unwrap();
    let dense = dense32(&[1.0f32, 4.0, 2.0, 5.0, 3.0, 6.0], vec![3, 2]);

    let result = sp.spmm(&dense, ctx()).unwrap().ready().unwrap();
    let d = result.data().unwrap();

    assert_eq!(result.shape(), &[2, 2]);
    assert!((d[0].0 - 7.0).abs() < 1e-6);
    assert!((d[1].0 - 16.0).abs() < 1e-6);
    assert!((d[2].0 - 6.0).abs() < 1e-6);
    assert!((d[3].0 - 15.0).abs() < 1e-6);
}

#[test]
fn test_spmm_identity() {
    let sp = SparseTensor::new(
        vec![vec![0, 0], vec![1, 1], vec![2, 2]],
        f32(&[1.0f32; 3]),
        vec![3, 3],
    )
    .unwrap();
    let dense = dense32(&[1.0f32, 2.0, 3.0, 4.0, 5.0, 6.0], vec![3, 2]);

    let result = sp.spmm(&dense, ctx()).unwrap().ready().unwrap();
    let d = result.data().unwrap();
    let expected = dense.data().unwrap();

    assert_eq!(result.shape(), &[3, 2]);
    for (a, b) in d.iter().zip(expected.iter()) {
        assert!((a.0 - b.0).abs() < 1e-6);
    }
}

#[test]
fn test_coalesce_merges_duplicates() {
    let sp = SparseTensor::new(
        vec![vec![0, 0], vec![0, 1], vec![0, 1]],
        f32(&[1.0f32, 3.0, 4.0]),
        vec![1, 3],
    )
    .unwrap();

    let coalesced = sp.coalesce();

    assert_eq!(coalesced.nnz(), 2);

    let dense = coalesced.to_dense(TensorId(2)).unwrap();
    let d = dense.data().unwrap();
    assert!((d[0].0 - 1.0).abs() < 1e-6);
    assert!((d[1].0 - 7.0).abs() < 1e-6);
    assert!((d[2].0 - 0.0).abs() < 1e-6);
}

#[test]
fn test_coalesce_removes_zero_sum() {
    let sp = SparseTensor::new(
        vec![vec![0, 0], vec![0, 0]],
        f32(&[5.0f32, -5.0]),
        vec![1, 1],
    )
    .unwrap();

    let coalesced = sp.coalesce();
    assert_eq!(coalesced.nnz(), 0);
}

#[test]
fn test_transpose() {
    let sp = SparseTensor::new(
        vec![vec![0, 1], vec![2, 0]],
        f32(&[5.0f32, 3.0]),
        vec![3, 4],
    )
    .unwrap();

    let transposed = sp.t().unwrap();

    assert_eq!(transposed.shape(), &[4, 3]);
    assert_eq!(transposed.nnz(), 2);
    assert_eq!(transposed.indices()[0], vec![1, 0]);
    assert_eq!(transposed.indices()[1], vec![0, 2]);
    assert_eq!(raw(transposed.values()), &[5.0, 3.0]);
}

#[test]
fn test_transpose_not_2d() {
    let sp = SparseTensor::new(vec![vec![0, 1, 2]], f32(&[1.0f32]), vec![3, 3, 3]).unwrap();

    assert!(sp.t().is_err());
}

#[test]
fn test_mul_scalar() {
    let sp = SparseTensor::new(
        vec![vec![0, 0], vec![1, 1]],
        f64(&[2.0f64, 3.0]),
        vec![2, 2],
    )
    .unwrap();

    let scaled = sp.mul_scalar(F64(10.0));

    assert_eq!(scaled.values(), &[F64(20.0), F64(30.0)]);
    assert_eq!(scaled.nnz(), 2);
    assert_eq!(scaled.shape(), &[2, 2]);
    assert_eq!(scaled.indices(), sp.indices());
}

#[test]
fn test_add_sparse_tensors() {
    let a = SparseTensor::new(
        vec![vec![0, 0], vec![0, 1]],
        f32(&[1.0f32, 2.0]),
        vec![2, 2],
    )
    .unwrap();
    let b =
        SparseTensor::new(vec![vec![0, 1], vec![1, 0]], f32(&[3.0, 4.0]), vec![2, 2]).unwrap();

    let sum = a.add(&b).unwrap();

    assert_eq!(sum.nnz(), 4);

    let coalesced = sum.coalesce();
    assert_eq!(coalesced.nnz(), 3);

    let dense = coalesced.to_dense(TensorId(2)).unwrap();
    let d = dense.data().unwrap();
    assert!((d[0].0 - 1.0).abs() < 1e-6);
    assert!((d[1].0 - 5.0).abs() < 1e-6);
    assert!((d[2].0 - 4.0).abs() < 1e-6);
    assert!((d[3].0 - 0.0).abs() < 1e-6);
}

#[test]
fn test_add_shape_mismatch() {
    let a = SparseTensor::<F32>::new(vec![], vec![], vec![2, 3]).unwrap();
    let b = SparseTensor::<F32>::new(vec![], vec![], vec![3, 2]).unwrap();

    assert!(a.add(&b).is_err());
}

#[test]
fn test_index_out_of_bounds() {
    let result = SparseTensor::new(vec![vec![3, 0]], f32(&[1.0f32]), vec![3, 3]);

    assert!(result.is_err());
    let err = result.unwrap_err();
    match err {
        FerrotorchError::IndexOutOfBounds { index, axis, size } => {
            assert_eq!(index, 3);
            assert_eq!(axis, 0);
            assert_eq!(size, 3);
        }
        other => panic!("expected IndexOutOfBounds, got: {other:?}"),
    }
}

#[test]
fn test_index_out_of_bounds_second_axis() {
    let result = SparseTensor::new(vec![vec![0, 5]], f64(&[1.0f64]), vec![3, 3]);

    assert!(result.is_err());
    match result.unwrap_err() {
        FerrotorchError::IndexOutOfBounds { index, axis, size } => {
            assert_eq!(index, 5);
            assert_eq!(axis, 1);
            assert_eq!(size, 3);
        }
        other => panic!("expected IndexOutOfBounds, got: {other:?}"),
    }
}

#[test]
fn test_empty_sparse_tensor() {
    let sp = SparseTensor::<F32>::new(vec![], vec![], vec![5, 5]).unwrap();

    assert_eq!(sp.nnz(), 0);
    assert_eq!(sp.shape(), &[5, 5]);

    let dense = sp.to_dense(TensorId(2)).unwrap();
    assert!(dense.data().unwrap().iter().all(|&x| x.0 == 0.0));
}

#[test]
fn test_indices_values_length_mismatch() {
    let result = SparseTensor::new(vec![vec![0, 0], vec![1, 1]], f32(&[1.0f32]), vec![2, 2]);

    assert!(result.is_err());
}

#[test]
fn test_spmm_dimension_mismatch() {
    let sp = SparseTensor::new(vec![vec![0, 0]], f32(&[1.0f32]), vec![2, 3]).unwrap();
    let dense = dense32(&[1.0f32; 8], vec![4, 2]);

    assert!(sp.spmm(&dense, ctx()).is_err());
}

#[test]
fn test_debug_format() {
    let sp = SparseTensor::new(vec![vec![0, 0]], f32(&[1.0f32]), vec![3, 3]).unwrap();

    let debug = format!("{sp:?}");
    assert!(debug.contains("SparseTensor"));
    assert!(debug.contains("nnz: 1"));
}

#[test]
fn test_clone() {
    let sp = SparseTensor::new(vec![vec![0, 1]], f32(&[42.0f32]), vec![2, 2]).unwrap();

    let sp2 = sp.clone();
    assert_eq!(raw(sp2.values()), &[42.0]);
    assert_eq!(sp2.indices(), &[vec![0, 1]]);
    assert_eq!(sp2.shape(), &[2, 2]);
}

#[test]
fn test_coalesce_deterministic_order() {
    let sp = SparseTensor::new(
        vec![vec![1, 0], vec![0, 1], vec![0, 0]],
        f32(&[3.0f32, 2.0, 1.0]),
        vec![2, 2],
    )
    .unwrap();

    let coalesced = sp.coalesce();
    assert_eq!(coalesced.indices()[0], vec![0, 0]);
    assert_eq!(coalesced.indices()[1], vec![0, 1]);
    assert_eq!(coalesced.indices()[2], vec![1, 0]);
}

#[test]
fn test_1d_sparse_tensor() {
    let sp =
        SparseTensor::new(vec![vec![1], vec![4]], f32(&[10.0f32, 20.0]), vec![5]).unwrap();

    assert_eq!(sp.ndim(), 1);
    assert_eq!(sp.nnz(), 2);
    assert_eq!(sp.shape(), &[5]);

    let dense = sp.to_dense(TensorId(2)).unwrap();
    let d = dense.data().unwrap();
    assert_eq!(d.len(), 5);
    assert_eq!(d[0].0, 0.0);
    assert_eq!(d[1].0, 10.0);
    assert_eq!(d[2].0, 0.0);
    assert_eq!(d[3].0, 0.0);
    assert_eq!(d[4].0, 20.0);
}

#[test]
fn test_3d_sparse_tensor() {
    let sp = SparseTensor::new(
        vec![vec![0, 1, 2], vec![1, 0, 0]],
        f64(&[5.0f64, 7.0]),
        vec![2, 2, 3],
    )
    .unwrap();

    assert_eq!(sp.ndim(), 3);
    assert_eq!(sp.nnz(), 2);
    assert_eq!(sp.shape(), &[2, 2, 3]);

    let dense = sp.to_dense(TensorId(2)).unwrap();
    let d = dense.data().unwrap();
    assert_eq!(d.len(), 12);
    assert!((d[5].0 - 5.0).abs() < 1e-10);
    assert!((d[6].0 - 7.0).abs() < 1e-10);
}

#[test]
fn test_zero_dimension_sparse_tensor() {
    let sp = SparseTensor::<F32>::new(vec![], vec![], vec![0, 5]).unwrap();

    assert_eq!(sp.ndim(), 2);
    assert_eq!(sp.nnz(), 0);
    assert_eq!(sp.shape(), &[0, 5]);

    let dense = sp.to_dense(TensorId(2)).unwrap();
    assert_eq!(dense.numel(), 0);
    assert!(dense.data().unwrap().is_empty());
}

#[test]
fn entry_of_wrong_rank_is_refused() {
    let err = SparseTensor::new(vec![vec![0, 0], vec![1]], f32(&[1.0, 2.0]), vec![2, 2])
        .unwrap_err();
    assert_eq!(
        err,
        FerrotorchError::InvalidArgument {
            reason: Reason::IndexRank { entry: 1, got: 1, expected: 2 }
        }
    );
}

#[test]
fn transposing_twice_gives_back_the_entries() {
    let sp = SparseTensor::new(
        vec![vec![0, 1], vec![2, 0], vec![0, 1]],
        f32(&[5.0, 3.0, 1.0]),
        vec![3, 4],
    )
    .unwrap();
    let back = sp.t().unwrap().t().unwrap();
    assert_eq!(back.indices(), sp.indices());
    assert_eq!(back.values(), sp.values());
    assert_eq!(back.shape(), sp.shape());
}

#[test]
fn duplicates_are_summed_in_the_dense_form() {
    let sp = SparseTensor::new(
        vec![vec![0, 1], vec![0, 1], vec![1, 0]],
        f32(&[2.0, 3.0, 4.0]),
        vec![2, 2],
    )
    .unwrap();
    let dense = sp.to_dense(TensorId(2)).unwrap();
    assert_eq!(raw(dense.data().unwrap()), vec![0.0, 5.0, 4.0, 0.0]);
    let merged = sp.coalesce().to_dense(TensorId(3)).unwrap();
    assert_eq!(merged.data().unwrap(), dense.data().unwrap());
}

#[test]
fn product_of_a_recorded_operand_keeps_the_transposed_matrix() {
    let sp =
        SparseTensor::new(vec![vec![0, 2], vec![1, 0]], f32(&[2.0, 3.0]), vec![2, 3]).unwrap();
    let dense = Tensor::from_storage(
        TensorStorage::cpu(f32(&[1.0, 2.0, 3.0])),
        vec![3, 1],
        true,
        TensorId(1),
    )
    .unwrap();
    let out = sp.spmm(&dense, ctx()).unwrap().ready().unwrap();
    assert_eq!(raw(out.data().unwrap()), vec![6.0, 3.0]);
    assert!(out.requires_grad());
    let grad_fn = out.grad_fn().unwrap();
    assert_eq!(grad_fn.name(), Some("SpmmBackward"));
    assert_eq!(grad_fn.inputs().len(), 1);
    match &**grad_fn {
        GradFn::Spmm(b) => {
            let upstream = dense32(&[1.0, 10.0], vec![2, 1]);
            let grad = b.backward(&upstream, ctx()).unwrap().ready().unwrap();
            assert_eq!(raw(grad.data().unwrap()), vec![30.0, 0.0, 2.0]);
        }
        other => panic!("unexpected gradient: {other:?}"),
    }
}

#[test]
fn a_device_gets_the_merged_matrix_compressed_by_rows() {
    let sp = SparseTensor::new(
        vec![vec![1, 2], vec![0, 1], vec![1, 2], vec![1, 0]],
        f32(&[1.0, 2.0, 4.0, 8.0]),
        vec![3, 3],
    )
    .unwrap();
    let with_backend = Context { backend: true, ..ctx() };
    match sp.to_dense_on(Device::Cuda(3), with_backend).unwrap() {
        Plan::Device(DenseJob::Expand(a)) => {
            assert_eq!(a.pointers, vec![0, 1, 3, 3]);
            assert_eq!(a.indices, vec![1, 0, 2]);
            assert_eq!(raw(&a.values), vec![2.0, 8.0, 5.0]);
            assert_eq!((a.ordinal, a.nrows, a.ncols), (3, 3, 3));
        }
        other => panic!("unexpected plan: {other:?}"),
    }
    let handle = GpuBufferHandle { key: 7, len: 6, dtype: DType::F32, ordinal: 2 };
    let dense = Tensor::from_storage(
        TensorStorage::<F32>::gpu(handle),
        vec![3, 2],
        false,
        TensorId(1),
    )
    .unwrap();
    match sp.spmm(&dense, with_backend).unwrap() {
        Plan::Device(SpmmJob::Multiply { sparse, dense, n }) => {
            assert_eq!(sparse.ordinal, 2);
            assert_eq!(dense, handle);
            assert_eq!(n, 2);
        }
        other => panic!("unexpected plan: {other:?}"),
    }
}

#[test]
fn a_dense_form_on_a_device_needs_a_backend_and_kernels() {
    let sp = SparseTensor::<F32>::new(vec![], vec![], vec![2, 2]).unwrap();
    assert_eq!(
        sp.to_dense_on(Device::Cuda(0), ctx()).unwrap_err(),
        FerrotorchError::DeviceUnavailable
    );
    let backend = Context { backend: true, ..ctx() };
    let half = SparseTensor::new(vec![vec![0, 0]], vec![Bf16::one()], vec![1, 1]).unwrap();
    assert_eq!(
        half.to_dense_on(Device::Cuda(0), backend).unwrap_err(),
        FerrotorchError::NotImplementedOnCuda { op: CudaGap::SparseToDense }
    );
    let line = SparseTensor::new(vec![vec![1]], f32(&[2.0]), vec![2]).unwrap();
    match line.to_dense_on(Device::Cuda(0), backend).unwrap() {
        Plan::Device(DenseJob::Move(TransferJob::Upload { data, .. })) => {
            assert_eq!(raw(&data), vec![0.0, 2.0]);
        }
        other => panic!("unexpected plan: {other:?}"),
    }
}

#[test]
fn a_cuda_view_is_gathered_before_its_entries_are_taken() {
    let backend = Context { backend: true, ..ctx() };
    let handle = GpuBufferHandle { key: 7, len: 8, dtype: DType::F32, ordinal: 2 };
    let whole =
        Tensor::from_storage(TensorStorage::<F32>::gpu(handle), vec![4, 2], false, TensorId(1))
            .unwrap();
    let part = whole.stride_view(vec![2, 2], vec![2, 1], 4, TensorId(2));
    assert!(part.is_contiguous());
    match SparseTensor::from_dense(&part, F32(0.0), backend).unwrap() {
        Plan::Device(ExtractJob::MakeContiguous(copy)) => {
            assert_eq!((copy.source, copy.offset, copy.shape), (handle, 4, vec![2, 2]));
        }
        other => panic!("unexpected plan: {other:?}"),
    }
    let identity =
        SparseTensor::new(vec![vec![0, 0], vec![1, 1]], f32(&[1.0, 1.0]), vec![2, 2]).unwrap();
    match identity.spmm(&part, backend).unwrap() {
        Plan::Device(SpmmJob::MakeContiguous(copy)) => assert_eq!(copy.offset, 4),
        other => panic!("unexpected plan: {other:?}"),
    }
    let four = GpuBufferHandle { key: 8, len: 4, dtype: DType::F32, ordinal: 2 };
    let packed = part.packed(TensorStorage::gpu(four), TensorId(3)).unwrap();
    match SparseTensor::from_dense(&packed, F32(0.0), backend).unwrap() {
        Plan::Device(ExtractJob::Extract { dense, m, n }) => {
            assert_eq!((dense, m, n), (four, 2, 2));
        }
        other => panic!("unexpected plan: {other:?}"),
    }
}

#[test]
fn a_product_without_kernels_is_refused_after_its_indices() {
    let backend = Context { backend: true, ..ctx() };
    let handle = GpuBufferHandle { key: 7, len: 1, dtype: DType::BF16, ordinal: 0 };
    let dense = Tensor::from_storage(
        TensorStorage::<Bf16>::gpu(handle),
        vec![1, 1],
        false,
        TensorId(1),
    )
    .unwrap();
    let sp = SparseTensor::new(vec![vec![0, 0]], vec![Bf16::one()], vec![1, 1]).unwrap();
    assert_eq!(
        sp.spmm(&dense, backend).unwrap_err(),
        FerrotorchError::GpuTensorNotAccessible
    );
    let wide_handle = GpuBufferHandle { key: 7, len: 0, dtype: DType::BF16, ordinal: 0 };
    let wide = u32::MAX as usize + 2;
    let no_columns = Tensor::from_storage(
        TensorStorage::<Bf16>::gpu(wide_handle),
        vec![wide, 0],
        false,
        TensorId(1),
    )
    .unwrap();
    let far =
        SparseTensor::new(vec![vec![0, wide - 1]], vec![Bf16::one()], vec![1, wide]).unwrap();
    assert_eq!(
        far.spmm(&no_columns, backend).unwrap_err(),
        FerrotorchError::InvalidArgument { reason: Reason::IndexWidth { value: wide - 1 } }
    );
}

#[test]
fn a_dense_tensor_comes_back_from_its_entries() {
    let t = dense32(&[0.0, 2.0, -3.0, 0.0, 0.0, 1.5], vec![2, 3]);
    let sparse = from_dense(&t, 0.0);
    assert!(sparse.coalesce().nnz() <= sparse.nnz());
    let back = sparse.to_dense(TensorId(9)).unwrap();
    assert_eq!(back.shape(), t.shape());
    assert_eq!(raw(back.data().unwrap()), raw(t.data().unwrap()));
}

#[test]
fn coalescing_twice_changes_nothing() {
    let s = SparseTensor::new(
        vec![vec![1, 0], vec![0, 2], vec![1, 0], vec![0, 2]],
        vec![F64(1.5), F64(2.0), F64(0.5), F64(-2.0)],
        vec![2, 3],
    )
    .unwrap();
    let once = s.coalesce();
    assert_eq!(once.indices(), &[vec![1, 0]]);
    assert_eq!(once.values(), &[F64(2.0)]);
    let twice = once.coalesce();
    assert_eq!(twice.indices(), once.indices());
    assert_eq!(twice.values(), once.values());
}

#[test]
fn a_zero_comes_back_from_its_entries_as_a_zero() {
    let t = dense32(&[-0.0, 2.0, 0.0, -1.0], vec![2, 2]);
    let back = from_dense(&t, 0.0).to_dense(TensorId(9)).unwrap();
    for (x, y) in back.data().unwrap().iter().zip(t.data().unwrap()) {
        assert!(x.is_same(*y));
    }
}
