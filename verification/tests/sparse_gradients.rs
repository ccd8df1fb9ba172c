//! Gradients that touch some rows only.

use ferrotorch_core::autograd::{Context, Plan, TensorId};
use ferrotorch_core::bf16::Bf16;
use ferrotorch_core::device::GpuBufferHandle;
use ferrotorch_core::dtype::{DType, Float};
use ferrotorch_core::error::{CudaGap, FerrotorchError, Reason};
use ferrotorch_core::sparse_grad::{SgdJob, SparseGrad};
use ferrotorch_core::storage::TensorStorage;
use ferrotorch_core::tensor::Tensor;
use ferrotorch_core::transfer::DeviceSource;
use std::sync::Arc;

#[derive(Clone, Copy, Debug, PartialEq)]
struct F32(f32);

impl Float for F32 {
    fn dtype_spec() -> DType {
        DType::F32
    }
    fn zero_spec() -> Self {
        F32(0.0)
    }
    fn one_spec() -> Self {
        F32(1.0)
    }
    fn nan_spec() -> Self {
        F32(f32::NAN)
    }
    fn plus(self, rhs: Self) -> Self {
        F32(self.0 + rhs.0)
    }
    fn minus(self, rhs: Self) -> Self {
        F32(self.0 - rhs.0)
    }
    fn times(self, rhs: Self) -> Self {
        F32(self.0 * rhs.0)
    }
    fn over(self, rhs: Self) -> Self {
        F32(self.0 / rhs.0)
    }
    fn magnitude(self) -> Self {
        F32(self.0.abs())
    }
    fn nearest(n: usize) -> Self {
        F32(n as f32)
    }
    fn below(self, rhs: Self) -> bool {
        self.0 < rhs.0
    }
    fn same(self, rhs: Self) -> bool {
        self.0 == rhs.0
    }
    fn lemma_order(_a: Self, _b: Self, _c: Self) {}
    fn lemma_magnitude(_x: Self) {}
    fn lemma_zero_plus(_x: Self) {}
    fn lemma_units() {}
    fn dtype() -> DType {
        Self::dtype_spec()
    }
    fn zero() -> Self {
        Self::zero_spec()
    }
    fn one() -> Self {
        Self::one_spec()
    }
    fn nan() -> Self {
        Self::nan_spec()
    }
    fn add(self, rhs: Self) -> Self {
        self.plus(rhs)
    }
    fn sub(self, rhs: Self) -> Self {
        self.minus(rhs)
    }
    fn mul(self, rhs: Self) -> Self {
        self.times(rhs)
    }
    fn div(self, rhs: Self) -> Self {
        self.over(rhs)
    }
    fn abs(self) -> Self {
        self.magnitude()
    }
    fn from_usize(n: usize) -> Self {
        Self::nearest(n)
    }
    fn is_below(self, rhs: Self) -> bool {
        self.below(rhs)
    }
    fn is_same(self, rhs: Self) -> bool {
        self.same(rhs)
    }
}

fn f32(data: &[f32]) -> Vec<F32> {
    data.iter().map(|&x| F32(x)).collect()
}

fn ctx() -> Context {
    Context::host(TensorId(100))
}

fn raw(s: &[F32]) -> Vec<f32> {
    s.iter().map(|x| x.0).collect()
}

fn param(data: &[f32], shape: Vec<usize>) -> (Tensor<F32>, TensorStorage<F32>) {
    let t = Tensor::from_storage(TensorStorage::cpu(f32(data)), shape, false, TensorId(1));
    (t.unwrap(), TensorStorage::cpu(f32(data)))
}

#[test]
fn sparse_grad_construction_validates_size() {
    let err = SparseGrad::<F32>::new(vec![0, 2], f32(&[1.0; 5]), vec![3]).unwrap_err();
    assert!(matches!(err, FerrotorchError::ShapeMismatch { .. }));
}

#[test]
fn sparse_grad_is_sparse_predicate() {
    let g = SparseGrad::<F32>::new(vec![0], f32(&[1.0, 2.0]), vec![2]).unwrap();
    assert!(g.is_sparse());
}

#[test]
fn sparse_grad_coalesce_sums_duplicate_indices() {
    let g = SparseGrad::<F32>::new(
        vec![0, 1, 0],
        f32(&[1.0, 2.0, 5.0, 6.0, 3.0, 4.0]),
        vec![2],
    )
    .unwrap();
    let c = g.coalesce();
    assert_eq!(c.indices(), &[0, 1]);
    assert_eq!(raw(c.values()), &[4.0, 6.0, 5.0, 6.0]);
}

#[test]
fn sparse_grad_apply_sgd_updates_only_affected_rows() {
    let (param, mut storage) = param(&[0.0; 12], vec![4, 3]);
    let grad = SparseGrad::<F32>::new(
        vec![1, 3],
        f32(&[1.0, 2.0, 3.0, 4.0, 5.0, 6.0]),
        vec![3],
    )
    .unwrap();
    let done = grad.apply_sgd(&param, &mut storage, F32(1.0), ctx()).unwrap();
    assert!(done.ready().is_some());
    let d = raw(storage.as_slice());
    assert_eq!(&d[0..3], &[0.0, 0.0, 0.0]);
    assert_eq!(&d[3..6], &[-1.0, -2.0, -3.0]);
    assert_eq!(&d[6..9], &[0.0, 0.0, 0.0]);
    assert_eq!(&d[9..12], &[-4.0, -5.0, -6.0]);
}

#[test]
fn sparse_grad_apply_sgd_rejects_oob_index() {
    let (param, mut storage) = param(&[0.0; 6], vec![2, 3]);
    let grad = SparseGrad::<F32>::new(vec![5], f32(&[1.0, 2.0, 3.0]), vec![3]).unwrap();
    let err = grad.apply_sgd(&param, &mut storage, F32(1.0), ctx()).unwrap_err();
    assert!(matches!(err, FerrotorchError::InvalidArgument { .. }));
    assert_eq!(
        err,
        FerrotorchError::InvalidArgument {
            reason: Reason::LeadingIndex { slot: 0, index: 5, size: 2 }
        }
    );
}

#[test]
fn sparse_grad_apply_sgd_rejects_shape_mismatch() {
    let (param, mut storage) = param(&[0.0; 6], vec![2, 3]);
    let grad = SparseGrad::<F32>::new(vec![0], f32(&[1.0; 4]), vec![4]).unwrap();
    let err = grad.apply_sgd(&param, &mut storage, F32(1.0), ctx()).unwrap_err();
    assert!(matches!(err, FerrotorchError::ShapeMismatch { .. }));
}

#[test]
fn slab_sizes_are_products() {
    let scalar = SparseGrad::new(vec![2, 0], f32(&[1.0, 2.0]), vec![]).unwrap();
    assert_eq!(scalar.slab_size(), 1);
    let empty = SparseGrad::<F32>::new(vec![1, 1], vec![], vec![0]).unwrap();
    assert_eq!((empty.slab_size(), empty.nnz()), (0, 2));
    assert_eq!(empty.coalesce().indices(), &[1]);
    assert_eq!(
        SparseGrad::new(vec![1], f32(&[9.0]), vec![0]).unwrap_err(),
        FerrotorchError::ShapeMismatch {
            reason: Reason::SlabCount { values: 1, indices: 1, slab_size: 0 }
        }
    );
    assert_eq!(scalar.slab_shape(), &[] as &[usize]);
}

#[test]
fn duplicate_rows_are_subtracted_one_after_the_other() {
    let (param, mut storage) = param(&[10.0, 20.0], vec![2]);
    let grad = SparseGrad::new(vec![1, 1], f32(&[1.0, 2.0]), vec![]).unwrap();
    grad.apply_sgd(&param, &mut storage, F32(2.0), ctx()).unwrap();
    assert_eq!(raw(storage.as_slice()), vec![10.0, 14.0]);
}

#[test]
fn empty_slabs_change_nothing_but_are_checked() {
    let (param, mut storage) = param(&[], vec![2, 0]);
    let grad = SparseGrad::<F32>::new(vec![1], vec![], vec![0]).unwrap();
    assert!(grad.apply_sgd(&param, &mut storage, F32(1.0), ctx()).is_ok());
    let bad = SparseGrad::<F32>::new(vec![2], vec![], vec![0]).unwrap();
    assert!(bad.apply_sgd(&param, &mut storage, F32(1.0), ctx()).is_err());
}

#[test]
fn a_step_writes_through_a_view() {
    let base = f32(&[0.0, 1.0, 2.0, 3.0, 4.0, 5.0]);
    let whole =
        Tensor::from_storage(TensorStorage::cpu(base.clone()), vec![6], false, TensorId(1))
            .unwrap();
    let view = whole.stride_view(vec![3], vec![2], 0, TensorId(2));
    let mut storage = TensorStorage::cpu(base);
    let grad = SparseGrad::new(vec![2], f32(&[10.0]), vec![]).unwrap();
    grad.apply_sgd(&view, &mut storage, F32(1.0), ctx()).unwrap();
    assert_eq!(raw(storage.as_slice()), vec![0.0, 1.0, 2.0, 3.0, -6.0, 5.0]);
}

#[test]
fn cuda_steps_become_jobs() {
    let backend = Context { backend: true, ..ctx() };
    let handle = GpuBufferHandle { key: 3, len: 6, dtype: DType::F32, ordinal: 1 };
    let param = Tensor::from_storage(
        TensorStorage::<F32>::gpu(handle),
        vec![3, 2],
        false,
        TensorId(1),
    )
    .unwrap();
    let mut storage = TensorStorage::<F32>::gpu(handle);
    let grad = SparseGrad::new(vec![2, 0], f32(&[1.0, 2.0, 3.0, 4.0]), vec![2]).unwrap();
    match grad.apply_sgd(&param, &mut storage, F32(0.5), backend).unwrap() {
        Plan::Device(SgdJob::Update(u)) => {
            assert!(matches!(u.param, DeviceSource::Whole(h) if h == handle));
            assert_eq!(u.indices, vec![2i64, 0]);
            assert_eq!((u.slab_size, u.leading, u.lr.0), (2, 3, 0.5));
        }
        other => panic!("unexpected plan: {other:?}"),
    }
    let none = SparseGrad::<F32>::new(vec![], vec![], vec![2]).unwrap();
    assert!(none
        .apply_sgd(&param, &mut storage, F32(0.5), backend)
        .unwrap()
        .ready()
        .is_some());

    let half = GpuBufferHandle { key: 5, len: 2, dtype: DType::BF16, ordinal: 1 };
    let p16 = Tensor::from_storage(
        TensorStorage::<Bf16>::gpu(half),
        vec![2],
        false,
        TensorId(1),
    )
    .unwrap();
    let mut s16 = TensorStorage::<Bf16>::gpu(half);
    let g16 = SparseGrad::new(vec![0], vec![Bf16::one()], vec![]).unwrap();
    assert_eq!(
        g16.apply_sgd(&p16, &mut s16, Bf16::one(), backend).unwrap_err(),
        FerrotorchError::NotImplementedOnCuda { op: CudaGap::SparseSgd }
    );
}

#[test]
fn a_parameter_reads_its_new_elements() {
    let (p, mut storage) = param(&[1.0, 2.0, 3.0, 4.0], vec![2, 2]);
    let grad = SparseGrad::new(vec![1], f32(&[10.0, 20.0]), vec![2]).unwrap();
    grad.apply_sgd(&p, &mut storage, F32(0.5), ctx()).unwrap();
    let now = p.over_storage(&Arc::new(storage));
    assert!(now.is_same(&p));
    assert_eq!(raw(now.data().unwrap()), vec![1.0, 2.0, -2.0, -6.0]);
}

#[test]
fn a_cuda_view_is_gathered_for_its_step() {
    let backend = Context { backend: true, ..ctx() };
    let handle = GpuBufferHandle { key: 3, len: 6, dtype: DType::F32, ordinal: 1 };
    let whole =
        Tensor::from_storage(TensorStorage::<F32>::gpu(handle), vec![6], false, TensorId(1))
            .unwrap();
    let view = whole.stride_view(vec![3], vec![2], 1, TensorId(2));
    let mut storage = TensorStorage::<F32>::gpu(handle);
    let grad = SparseGrad::new(vec![2], f32(&[1.0]), vec![]).unwrap();
    match grad.apply_sgd(&view, &mut storage, F32(0.5), backend).unwrap() {
        Plan::Device(SgdJob::Update(u)) => match u.param {
            DeviceSource::Gather(copy) => {
                assert_eq!((copy.source, copy.offset, copy.strides), (handle, 1, vec![2]));
            }
            other => panic!("unexpected source: {other:?}"),
        },
        other => panic!("unexpected plan: {other:?}"),
    }
}

#[test]
fn a_copy_of_a_sparse_gradient_is_equal() {
    let grad = SparseGrad::new(vec![1, 0], f32(&[1.0, 2.0]), vec![1]).unwrap();
    let copy = grad.clone();
    assert_eq!((copy.indices.clone(), copy.slab_shape.clone()), (vec![1, 0], vec![1]));
    assert_eq!(raw(&copy.values), raw(&grad.values));
}
