//! Strided views, copies and scatters.

use ferrotorch_core::autograd::{Context, Plan, TensorId};
use ferrotorch_core::bf16::Bf16;
use ferrotorch_core::device::GpuBufferHandle;
use ferrotorch_core::dtype::{DType, Float};
use ferrotorch_core::error::{CudaGap, FerrotorchError, Reason};
use ferrotorch_core::storage::TensorStorage;
use ferrotorch_core::stride_tricks::{
    as_strided, as_strided_copy, as_strided_scatter, exact_contiguous, same_shape,
    AsStridedScatterBackward, BackwardJob, ScatterJob,
};
use ferrotorch_core::strided::{
    maybe_overlapping_memory, reachable_span, stride_extent, strided_offsets, validate_bounds,
};
use ferrotorch_core::tensor::{GradFn, Tensor};
use ferrotorch_core::transfer::DeviceSource;

#[derive(Clone, Copy, Debug, PartialEq)]
struct F64(f64);

impl Float for F64 {
    fn dtype_spec() -> DType {
        DType::F64
    }
    fn zero_spec() -> Self {
        F64(0.0)
    }
    fn one_spec() -> Self {
        F64(1.0)
    }
    fn nan_spec() -> Self {
        F64(f64::NAN)
    }
    fn plus(self, rhs: Self) -> Self {
        F64(self.0 + rhs.0)
    }
    fn minus(self, rhs: Self) -> Self {
        F64(self.0 - rhs.0)
    }
    fn times(self, rhs: Self) -> Self {
        F64(self.0 * rhs.0)
    }
    fn over(self, rhs: Self) -> Self {
        F64(self.0 / rhs.0)
    }
    fn magnitude(self) -> Self {
        F64(self.0.abs())
    }
    fn nearest(n: usize) -> Self {
        F64(n as f64)
    }
    fn below(self, rhs: Self) -> bool {
        self.0 < rhs.0
    }
    fn same(self, rhs: Self) -> bool {
        self.0 == rhs.0
    }
    fn lemma_order(_a: Self, _b: Self, _c: Self) {}
    fn lemma_magnitude(_x: Self) {}
    fn lemma_zero_plus(_x: Self) {}
    fn lemma_units() {}
    fn dtype() -> DType {
        Self::dtype_spec()
    }
    fn zero() -> Self {
        Self::zero_spec()
    }
    fn one() -> Self {
        Self::one_spec()
    }
    fn nan() -> Self {
        Self::nan_spec()
    }
    fn add(self, rhs: Self) -> Self {
        self.plus(rhs)
    }
    fn sub(self, rhs: Self) -> Self {
        self.minus(rhs)
    }
    fn mul(self, rhs: Self) -> Self {
        self.times(rhs)
    }
    fn div(self, rhs: Self) -> Self {
        self.over(rhs)
    }
    fn abs(self) -> Self {
        self.magnitude()
    }
    fn from_usize(n: usize) -> Self {
        Self::nearest(n)
    }
    fn is_below(self, rhs: Self) -> bool {
        self.below(rhs)
    }
    fn is_same(self, rhs: Self) -> bool {
        self.same(rhs)
    }
}

fn f64(data: &[f64]) -> Vec<F64> {
    data.iter().map(|&x| F64(x)).collect()
}

fn ctx() -> Context {
    Context::host(TensorId(100))
}

fn t(data: &[f64], shape: &[usize]) -> Tensor<F64> {
    Tensor::from_storage(TensorStorage::cpu(f64(data)), shape.to_vec(), false, TensorId(1))
        .unwrap()
}

fn recorded(data: &[f64], shape: &[usize]) -> Tensor<F64> {
    Tensor::from_storage(TensorStorage::cpu(f64(data)), shape.to_vec(), true, TensorId(1)).unwrap()
}

fn zeros(shape: &[usize]) -> Tensor<F64> {
    t(&vec![0.0; shape.iter().product()], shape)
}

fn data_vec(t: &Tensor<F64>) -> Vec<f64> {
    t.data_vec(ctx()).unwrap().ready().unwrap().iter().map(|x| x.0).collect()
}

#[test]
fn as_strided_reshape_to_2x3() {
    let a = t(&[1.0, 2.0, 3.0, 4.0, 5.0, 6.0], &[6]);
    let v = a.as_strided(&[2, 3], &[3, 1], None, ctx()).unwrap();
    assert_eq!(v.shape(), &[2, 3]);
    assert_eq!(data_vec(&v), vec![1.0, 2.0, 3.0, 4.0, 5.0, 6.0]);
}

#[test]
fn as_strided_overlapping_sliding_window() {
    let a = t(&[1.0, 2.0, 3.0, 4.0, 5.0], &[5]);
    let v = a.as_strided(&[3, 3], &[1, 1], None, ctx()).unwrap();
    assert_eq!(v.shape(), &[3, 3]);
    assert_eq!(data_vec(&v), vec![1.0, 2.0, 3.0, 2.0, 3.0, 4.0, 3.0, 4.0, 5.0]);
}

#[test]
fn as_strided_negative_stride_reverses() {
    let a = t(&[1.0, 2.0, 3.0, 4.0], &[4]);
    let v = a.as_strided(&[4], &[-1], Some(3), ctx()).unwrap();
    assert_eq!(data_vec(&v), vec![4.0, 3.0, 2.0, 1.0]);
}

#[test]
fn as_strided_zero_stride_broadcast() {
    let a = t(&[7.0, 8.0, 9.0], &[3]);
    let v = a.as_strided(&[5], &[0], Some(1), ctx()).unwrap();
    assert_eq!(data_vec(&v), vec![8.0, 8.0, 8.0, 8.0, 8.0]);
}

#[test]
fn as_strided_rejects_out_of_bounds() {
    let a = t(&[1.0, 2.0, 3.0], &[3]);
    let err = a.as_strided(&[4], &[1], Some(0), ctx()).unwrap_err();
    assert!(
        matches!(err, FerrotorchError::InvalidArgument { .. }),
        "expected InvalidArgument, got {err:?}"
    );
    assert_eq!(
        err,
        FerrotorchError::InvalidArgument {
            reason: Reason::ReachBeyondStorage { hi: 3, len: 3 }
        }
    );
}

#[test]
fn as_strided_rejects_negative_reach() {
    let a = t(&[1.0, 2.0, 3.0], &[3]);
    let err = a.as_strided(&[3], &[-1], Some(1), ctx()).unwrap_err();
    assert!(matches!(err, FerrotorchError::InvalidArgument { .. }));
    assert_eq!(
        err,
        FerrotorchError::InvalidArgument { reason: Reason::NegativeReach { lo: -1 } }
    );
}

#[test]
fn as_strided_rejects_size_stride_length_mismatch() {
    let a = t(&[1.0, 2.0, 3.0, 4.0], &[4]);
    let err = a.as_strided(&[2, 2], &[1], None, ctx()).unwrap_err();
    assert!(matches!(err, FerrotorchError::InvalidArgument { .. }));
}

#[test]
fn as_strided_zero_size_dim_is_valid() {
    let a = t(&[1.0, 2.0, 3.0], &[3]);
    let v = a.as_strided(&[0, 5], &[100, 100], Some(0), ctx()).unwrap();
    assert_eq!(v.shape(), &[0, 5]);
    assert_eq!(data_vec(&v), Vec::<f64>::new());
}

#[test]
fn as_strided_shares_storage() {
    let a = t(&[1.0, 2.0, 3.0, 4.0, 5.0, 6.0], &[6]);
    let v = a.as_strided(&[3], &[2], Some(0), ctx()).unwrap();
    assert_eq!(data_vec(&v), vec![1.0, 3.0, 5.0]);
    assert_eq!(v.storage().len(), a.storage().len());
    assert!(std::sync::Arc::ptr_eq(v.inner_storage_arc(), a.inner_storage_arc()));
}

#[test]
fn as_strided_copy_makes_contiguous_2x3() {
    let a = t(&[1.0, 2.0, 3.0, 4.0, 5.0, 6.0], &[6]);
    let copy = a.as_strided_copy(&[2, 3], &[3, 1], None, ctx()).unwrap().ready().unwrap();
    assert_eq!(copy.shape(), &[2, 3]);
    assert!(copy.is_contiguous());
    assert_eq!(data_vec(&copy), vec![1.0, 2.0, 3.0, 4.0, 5.0, 6.0]);
}

#[test]
fn as_strided_copy_collects_overlapping_window() {
    let a = t(&[1.0, 2.0, 3.0, 4.0, 5.0], &[5]);
    let copy = a.as_strided_copy(&[3, 3], &[1, 1], None, ctx()).unwrap().ready().unwrap();
    assert!(copy.is_contiguous());
    assert_eq!(data_vec(&copy), vec![1.0, 2.0, 3.0, 2.0, 3.0, 4.0, 3.0, 4.0, 5.0]);
}

#[test]
fn as_strided_scatter_writes_into_view_positions() {
    let dst = t(&[0.0, 0.0, 0.0, 0.0, 0.0, 0.0], &[6]);
    let src = t(&[10.0, 20.0, 30.0], &[3]);
    let out = dst.as_strided_scatter(&src, &[3], &[2], Some(0), ctx()).unwrap().ready().unwrap();
    assert_eq!(data_vec(&out), vec![10.0, 0.0, 20.0, 0.0, 30.0, 0.0]);
}

#[test]
fn as_strided_scatter_preserves_non_view_positions() {
    let dst = t(&[1.0, 2.0, 3.0, 4.0, 5.0, 6.0], &[6]);
    let src = t(&[100.0, 200.0], &[2]);
    let out = dst.as_strided_scatter(&src, &[2], &[2], Some(1), ctx()).unwrap().ready().unwrap();
    assert_eq!(data_vec(&out), vec![1.0, 100.0, 3.0, 200.0, 5.0, 6.0]);
}

#[test]
fn as_strided_scatter_2d_view_into_1d_dst() {
    let dst = zeros(&[6]);
    let src = t(&[1.0, 2.0, 3.0, 4.0, 5.0, 6.0], &[2, 3]);
    let out =
        dst.as_strided_scatter(&src, &[2, 3], &[3, 1], Some(0), ctx()).unwrap().ready().unwrap();
    assert_eq!(data_vec(&out), vec![1.0, 2.0, 3.0, 4.0, 5.0, 6.0]);
}

#[test]
fn as_strided_scatter_rejects_shape_mismatch() {
    let dst = zeros(&[5]);
    let src = t(&[1.0, 2.0, 3.0], &[3]);
    let err = dst.as_strided_scatter(&src, &[2], &[1], Some(0), ctx()).unwrap_err();
    assert!(matches!(err, FerrotorchError::ShapeMismatch { .. }));
}

fn gradient_of_sum(input: &Tensor<F64>, size: &[usize], stride: &[isize]) -> Vec<f64> {
    let view = input.as_strided(size, stride, None, ctx()).unwrap();
    let ones = t(&vec![1.0; size.iter().product()], size);
    let grad_fn = view.grad_fn().expect("the view is recorded");
    assert_eq!(grad_fn.name(), Some("AsStridedBackward"));
    assert!(grad_fn.inputs()[0].is_same(input));
    let grad = match &**grad_fn {
        GradFn::AsStrided(b) => b.backward(&ones, ctx()).unwrap().ready().unwrap(),
        other => panic!("unexpected gradient: {other:?}"),
    };
    let mut slot = None;
    let done = Tensor::accumulate_into(&mut slot, &grad.unwrap(), ctx()).unwrap();
    assert!(done.ready().is_some());
    let g = slot.expect("input should have a gradient");
    assert_eq!(g.shape(), input.shape());
    data_vec(&g)
}

#[test]
fn as_strided_backward_scatters_into_input_shape() {
    let input = recorded(&[1.0, 2.0, 3.0, 4.0, 5.0, 6.0], &[6]);
    assert_eq!(gradient_of_sum(&input, &[2, 3], &[3, 1]), vec![1.0; 6]);
}

#[test]
fn as_strided_backward_overlapping_view_sums_gradients() {
    let input = recorded(&[1.0, 2.0, 3.0, 4.0, 5.0], &[5]);
    assert_eq!(gradient_of_sum(&input, &[3, 3], &[1, 1]), vec![1.0, 2.0, 3.0, 2.0, 1.0]);
}

#[test]
fn hidden_elements_have_a_zero_gradient() {
    let input = recorded(&[1.0, 2.0, 3.0, 4.0], &[4]);
    assert_eq!(gradient_of_sum(&input, &[2], &[2]), vec![1.0, 0.0, 1.0, 0.0]);
}

#[test]
fn free_functions_do_what_the_methods_do() {
    let a = t(&[1.0, 2.0, 3.0, 4.0], &[4]);
    let v = as_strided(&a, &[2], &[3], None, ctx()).unwrap();
    assert_eq!(data_vec(&v), vec![1.0, 4.0]);
    let c = as_strided_copy(&a, &[2], &[3], None, ctx()).unwrap().ready().unwrap();
    assert_eq!(data_vec(&c), vec![1.0, 4.0]);
    let s = as_strided_scatter(&a, &t(&[8.0, 9.0], &[2]), &[2], &[3], None, ctx())
        .unwrap()
        .ready()
        .unwrap();
    assert_eq!(data_vec(&s), vec![8.0, 2.0, 3.0, 9.0]);
    let back = as_strided_copy(&s, &[2], &[3], None, ctx()).unwrap().ready().unwrap();
    assert_eq!(data_vec(&back), vec![8.0, 9.0]);
}

#[test]
fn gradient_of_a_scatter_splits_between_the_two_inputs() {
    let input = recorded(&[1.0, 2.0, 3.0], &[3]);
    let src = recorded(&[9.0], &[1]);
    let b = AsStridedScatterBackward::new(input, src, vec![1], vec![1], 1);
    let upstream = t(&[5.0, 6.0, 7.0], &[3]);
    let (to_input, to_src) =
        b.backward(&upstream, ctx(), TensorId(7)).unwrap().ready().unwrap();
    assert_eq!(data_vec(&to_input.unwrap()), vec![5.0, 0.0, 7.0]);
    assert_eq!(data_vec(&to_src.unwrap()), vec![6.0]);
}

#[test]
fn cuda_views_and_gradients_become_jobs() {
    let backend = Context { backend: true, ..ctx() };
    let handle = GpuBufferHandle { key: 3, len: 6, dtype: DType::F64, ordinal: 0 };
    let a = Tensor::from_storage(TensorStorage::<F64>::gpu(handle), vec![6], false, TensorId(1))
        .unwrap();
    match a.as_strided_copy(&[3], &[2], Some(1), backend).unwrap() {
        Plan::Device(job) => {
            assert_eq!((job.source, job.offset), (handle, 1));
            assert_eq!((job.shape, job.strides), (vec![3], vec![2]));
        }
        other => panic!("unexpected plan: {other:?}"),
    }
    match exact_contiguous(&a.as_strided(&[3], &[2], None, backend).unwrap(), backend).unwrap() {
        Plan::Device(_) => {}
        other => panic!("unexpected plan: {other:?}"),
    }
    let half = GpuBufferHandle { key: 1, len: 6, dtype: DType::BF16, ordinal: 0 };
    let a16 =
        Tensor::from_storage(TensorStorage::<Bf16>::gpu(half), vec![6], true, TensorId(1))
            .unwrap();
    assert_eq!(
        a16.as_strided_copy(&[3], &[2], None, backend).unwrap_err(),
        FerrotorchError::NotImplementedOnCuda { op: CudaGap::AsStridedCopy }
    );
    let empty = a16.as_strided(&[0], &[1], None, backend).unwrap();
    let none = Tensor::from_storage(TensorStorage::cpu(vec![]), vec![0], false, TensorId(2));
    match &**empty.grad_fn().unwrap() {
        GradFn::AsStrided(b) => match b.backward(&none.unwrap(), backend).unwrap() {
            Plan::Device(BackwardJob::Zeros { .. }) => {}
            other => panic!("unexpected plan: {other:?}"),
        },
        other => panic!("unexpected gradient: {other:?}"),
    }
}

#[test]
fn spans_and_overlaps() {
    assert_eq!(stride_extent(&[3, 2], &[-2, 5]), (-4, 5));
    assert_eq!(reachable_span(&[3, 2], &[-2, 5], 10), (6, 15));
    assert_eq!(strided_offsets(&[2, 2], &[-1, 2], 1, 4), vec![1, 3, 0, 2]);
    assert!(validate_bounds(&[2, 2], &[3, 1], 0, 5).is_ok());
    assert!(validate_bounds(&[2, 2], &[3, 1], 1, 5).is_err());
    assert_eq!(
        validate_bounds(&[0], &[1], 6, 5),
        Err(FerrotorchError::InvalidArgument {
            reason: Reason::OffsetBeyondStorage { offset: 6, len: 5 }
        })
    );
    assert!(!maybe_overlapping_memory(&[2, 3], &[3, 1]));
    assert!(maybe_overlapping_memory(&[3, 3], &[1, 1]));
    assert!(maybe_overlapping_memory(&[2], &[0]));
    assert!(same_shape(&[1, 2], &[1, 2]) && !same_shape(&[1, 2], &[2, 1]));
}

#[test]
fn a_strided_copy_holds_what_the_view_shows() {
    let a = t(&[1.0, 2.0, 3.0, 4.0, 5.0, 6.0], &[6]);
    let view = a.as_strided(&[2, 3], &[-1, 2], Some(1), ctx()).unwrap();
    let copy = a.as_strided_copy(&[2, 3], &[-1, 2], Some(1), ctx()).unwrap().ready().unwrap();
    assert_eq!(data_vec(&view), vec![2.0, 4.0, 6.0, 1.0, 3.0, 5.0]);
    assert_eq!(data_vec(&copy), data_vec(&view));
    assert!(copy.is_contiguous() && !view.is_contiguous());
}

#[test]
fn a_view_whose_positions_are_no_machine_integers_is_refused() {
    let err = FerrotorchError::InvalidArgument { reason: Reason::ReachOverflow { offset: 0 } };
    assert_eq!(validate_bounds(&[5], &[1 << 62], 0, 10).unwrap_err(), err);
    assert_eq!(validate_bounds(&[5], &[isize::MIN], 0, 10).unwrap_err(), err);
    let a = t(&[0.0; 10], &[10]);
    assert_eq!(a.as_strided(&[5], &[1 << 62], Some(0), ctx()).unwrap_err(), err);
    assert_eq!(a.as_strided_copy(&[5], &[1 << 62], Some(0), ctx()).unwrap_err(), err);
    let src = t(&[1.0; 5], &[5]);
    assert_eq!(a.as_strided_scatter(&src, &[5], &[1 << 62], Some(0), ctx()).unwrap_err(), err);
    assert!(validate_bounds(&[0, 5], &[1 << 62, 1 << 62], 10, 10).is_ok());
}

#[test]
fn a_copy_of_a_scatter_gives_the_source_back() {
    let base = t(&[0.0, 1.0, 2.0, 3.0, 4.0, 5.0], &[6]);
    let src = t(&[7.0, 8.0, 9.0], &[3]);
    let scattered =
        base.as_strided_scatter(&src, &[3], &[2], Some(1), ctx()).unwrap().ready().unwrap();
    let copy = scattered.as_strided_copy(&[3], &[2], Some(1), ctx()).unwrap().ready().unwrap();
    assert_eq!(data_vec(&copy), data_vec(&src));
    assert_eq!(data_vec(&scattered), vec![0.0, 7.0, 2.0, 8.0, 4.0, 9.0]);
}

#[test]
fn a_cuda_source_that_is_a_view_is_gathered() {
    let backend = Context { backend: true, ..ctx() };
    let handle = GpuBufferHandle { key: 3, len: 6, dtype: DType::F64, ordinal: 0 };
    let a = Tensor::from_storage(TensorStorage::<F64>::gpu(handle), vec![6], false, TensorId(1))
        .unwrap();
    let view = a.as_strided(&[2], &[1], Some(3), backend).unwrap();
    match a.as_strided_scatter(&view, &[2], &[3], None, backend).unwrap() {
        Plan::Device(ScatterJob::Cuda(job)) => match job.source {
            DeviceSource::Gather(copy) => assert_eq!((copy.source, copy.offset), (handle, 3)),
            other => panic!("unexpected source: {other:?}"),
        },
        other => panic!("unexpected plan: {other:?}"),
    }
}

#[test]
fn gradients_of_a_scatter_on_a_device_are_finished_one_by_one() {
    let backend = Context { backend: true, ..ctx() };
    let edge = AsStridedScatterBackward::new(
        recorded(&[1.0, 2.0, 3.0], &[3]),
        t(&[9.0, 8.0], &[2]),
        vec![2],
        vec![2],
        0,
    );
    assert_eq!(edge.due(), (true, false));
    assert!(edge.is_valid(3) && !edge.is_valid(2));
    let zeros = edge.zero_source(TensorId(8)).unwrap();
    assert_eq!(data_vec(&zeros), vec![0.0, 0.0]);

    let handle = GpuBufferHandle { key: 3, len: 3, dtype: DType::F64, ordinal: 0 };
    let on_gpu = |h: GpuBufferHandle, n: usize| {
        Tensor::from_storage(TensorStorage::<F64>::gpu(h), vec![n], false, TensorId(1)).unwrap()
    };
    let grad = on_gpu(handle, 3);
    assert!(matches!(
        edge.backward(&grad, backend, TensorId(7)).unwrap(),
        Plan::Device(BackwardJob::Exact)
    ));
    let device_zeros = on_gpu(GpuBufferHandle { key: 4, len: 2, ..handle }, 2);
    match edge.input_step(&grad, &device_zeros, backend).unwrap() {
        Some(Plan::Device(ScatterJob::Cuda(job))) => {
            assert_eq!((job.size, job.stride, job.offset), (vec![2], vec![2], 0));
            assert!(matches!(job.source, DeviceSource::Whole(h) if h.key == 4));
        }
        other => panic!("unexpected step: {other:?}"),
    }
    let made = GpuBufferHandle { key: 6, ..handle };
    let input = edge
        .finish_input(&grad, &device_zeros, TensorStorage::gpu(made), backend)
        .unwrap();
    assert_eq!((input.shape(), input.gpu_handle().unwrap().key), (&[3][..], 6));
    assert!(!input.requires_grad());
    assert!(edge.src_step(&grad, backend).unwrap().is_none());

    let both = AsStridedScatterBackward::new(
        t(&[1.0, 2.0, 3.0], &[3]),
        recorded(&[9.0, 8.0], &[2]),
        vec![2],
        vec![2],
        0,
    );
    assert!(both.input_step(&grad, &device_zeros, backend).unwrap().is_none());
    match both.src_step(&grad, backend).unwrap() {
        Some(Plan::Device(copy)) => assert_eq!((copy.source, copy.strides), (handle, vec![2])),
        other => panic!("unexpected step: {other:?}"),
    }
    let part = GpuBufferHandle { key: 7, len: 2, ..handle };
    let src = both.finish_src(&grad, TensorStorage::gpu(part), backend).unwrap();
    assert_eq!((src.shape(), src.gpu_handle().unwrap().key), (&[2][..], 7));
}

#[test]
fn a_gradient_made_on_a_device_has_the_shape_of_the_input() {
    let input = recorded(&[1.0, 2.0, 3.0, 4.0], &[2, 2]);
    let view = input.as_strided(&[3], &[1], None, Context { grad_enabled: true, ..ctx() }).unwrap();
    match &**view.grad_fn().unwrap() {
        GradFn::AsStrided(edge) => {
            assert!(edge.is_valid());
            let made = GpuBufferHandle { key: 6, len: 4, dtype: DType::F64, ordinal: 0 };
            let grad = edge.finish_backward(TensorStorage::gpu(made), ctx()).unwrap();
            assert_eq!((grad.shape(), grad.gpu_handle().unwrap().key), (&[2, 2][..], 6));
            let short = GpuBufferHandle { len: 3, ..made };
            assert!(edge.finish_backward(TensorStorage::gpu(short), ctx()).is_err());
        }
        other => panic!("unexpected gradient: {other:?}"),
    }
}
