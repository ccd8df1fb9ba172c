//! Tensors: construction, access, moves, conversions and gradients.

use ferrotorch_core::autograd::{Context, Plan, TensorId};
use ferrotorch_core::bf16::Bf16;
use ferrotorch_core::device::{CubeBufferHandle, Device, GpuBufferHandle};
use ferrotorch_core::dtype::{DType, Float};
use ferrotorch_core::error::{CudaGap, FerrotorchError, Reason};
use ferrotorch_core::gradients::GradStore;
use ferrotorch_core::storage::{CloneJob, TensorStorage};
use ferrotorch_core::tensor::{GradFn, MemoryFormat, Tensor};
use ferrotorch_core::transfer::{
    sum_gradients, AccumulateJob, ConvertJob, CopyKernel, DeviceSource, TransferJob, UnpackJob,
};
use ferrotorch_core::update::ScatterKernel;
use std::sync::Arc;

#[derive(Clone, Copy, Debug, PartialEq)]
struct F32(f32);

impl Float for F32 {
    fn dtype_spec() -> DType {
        DType::F32
    }
    fn zero_spec() -> Self {
        F32(0.0)
    }
    fn one_spec() -> Self {
        F32(1.0)
    }
    fn nan_spec() -> Self {
        F32(f32::NAN)
    }
    fn plus(self, rhs: Self) -> Self {
        F32(self.0 + rhs.0)
    }
    fn minus(self, rhs: Self) -> Self {
        F32(self.0 - rhs.0)
    }
    fn times(self, rhs: Self) -> Self {
        F32(self.0 * rhs.0)
    }
    fn over(self, rhs: Self) -> Self {
        F32(self.0 / rhs.0)
    }
    fn magnitude(self) -> Self {
        F32(self.0.abs())
    }
    fn nearest(n: usize) -> Self {
        F32(n as f32)
    }
    fn below(self, rhs: Self) -> bool {
        self.0 < rhs.0
    }
    fn same(self, rhs: Self) -> bool {
        self.0 == rhs.0
    }
    fn lemma_order(_a: Self, _b: Self, _c: Self) {}
    fn lemma_magnitude(_x: Self) {}
    fn lemma_zero_plus(_x: Self) {}
    fn lemma_units() {}
    fn dtype() -> DType {
        Self::dtype_spec()
    }
    fn zero() -> Self {
        Self::zero_spec()
    }
    fn one() -> Self {
        Self::one_spec()
    }
    fn nan() -> Self {
        Self::nan_spec()
    }
    fn add(self, rhs: Self) -> Self {
        self.plus(rhs)
    }
    fn sub(self, rhs: Self) -> Self {
        self.minus(rhs)
    }
    fn mul(self, rhs: Self) -> Self {
        self.times(rhs)
    }
    fn div(self, rhs: Self) -> Self {
        self.over(rhs)
    }
    fn abs(self) -> Self {
        self.magnitude()
    }
    fn from_usize(n: usize) -> Self {
        Self::nearest(n)
    }
    fn is_below(self, rhs: Self) -> bool {
        self.below(rhs)
    }
    fn is_same(self, rhs: Self) -> bool {
        self.same(rhs)
    }
}

fn f32(data: &[f32]) -> Vec<F32> {
    data.iter().map(|&x| F32(x)).collect()
}

#[derive(Clone, Copy, Debug, PartialEq)]
struct F64(f64);

impl Float for F64 {
    fn dtype_spec() -> DType {
        DType::F64
    }
    fn zero_spec() -> Self {
        F64(0.0)
    }
    fn one_spec() -> Self {
        F64(1.0)
    }
    fn nan_spec() -> Self {
        F64(f64::NAN)
    }
    fn plus(self, rhs: Self) -> Self {
        F64(self.0 + rhs.0)
    }
    fn minus(self, rhs: Self) -> Self {
        F64(self.0 - rhs.0)
    }
    fn times(self, rhs: Self) -> Self {
        F64(self.0 * rhs.0)
    }
    fn over(self, rhs: Self) -> Self {
        F64(self.0 / rhs.0)
    }
    fn magnitude(self) -> Self {
        F64(self.0.abs())
    }
    fn nearest(n: usize) -> Self {
        F64(n as f64)
    }
    fn below(self, rhs: Self) -> bool {
        self.0 < rhs.0
    }
    fn same(self, rhs: Self) -> bool {
        self.0 == rhs.0
    }
    fn lemma_order(_a: Self, _b: Self, _c: Self) {}
    fn lemma_magnitude(_x: Self) {}
    fn lemma_zero_plus(_x: Self) {}
    fn lemma_units() {}
    fn dtype() -> DType {
        Self::dtype_spec()
    }
    fn zero() -> Self {
        Self::zero_spec()
    }
    fn one() -> Self {
        Self::one_spec()
    }
    fn nan() -> Self {
        Self::nan_spec()
    }
    fn add(self, rhs: Self) -> Self {
        self.plus(rhs)
    }
    fn sub(self, rhs: Self) -> Self {
        self.minus(rhs)
    }
    fn mul(self, rhs: Self) -> Self {
        self.times(rhs)
    }
    fn div(self, rhs: Self) -> Self {
        self.over(rhs)
    }
    fn abs(self) -> Self {
        self.magnitude()
    }
    fn from_usize(n: usize) -> Self {
        Self::nearest(n)
    }
    fn is_below(self, rhs: Self) -> bool {
        self.below(rhs)
    }
    fn is_same(self, rhs: Self) -> bool {
        self.same(rhs)
    }
}

fn f64(data: &[f64]) -> Vec<F64> {
    data.iter().map(|&x| F64(x)).collect()
}

fn ctx() -> Context {
    Context::host(TensorId(100))
}

fn with_backend() -> Context {
    Context { backend: true, ..ctx() }
}

fn raw(s: &[F32]) -> Vec<f32> {
    s.iter().map(|x| x.0).collect()
}

fn mk(data: &[f32], shape: Vec<usize>, requires_grad: bool) -> Tensor<F32> {
    Tensor::from_storage(TensorStorage::cpu(f32(data)), shape, requires_grad, TensorId(1)).unwrap()
}

fn gpu(shape: Vec<usize>, len: usize) -> Tensor<F32> {
    let handle = GpuBufferHandle { key: 5, len, dtype: DType::F32, ordinal: 1 };
    Tensor::from_storage(TensorStorage::gpu(handle), shape, false, TensorId(2)).unwrap()
}

fn to_bf16(x: f32) -> Option<Bf16> {
    Some(Bf16::from_bits(half::bf16::from_f32(x).to_bits()))
}

fn convert_bf16(t: &Tensor<F32>) -> Tensor<Bf16> {
    match t.to_dtype(DType::BF16, ctx()).unwrap() {
        Plan::Device(ConvertJob::Host(v)) => {
            let converted = v.iter().map(|x| to_bf16(x.0)).collect();
            t.finish_to_dtype(converted, TensorId(3)).unwrap()
        }
        other => panic!("unexpected plan: {other:?}"),
    }
}

#[test]
fn test_tensor_from_storage() {
    let storage = TensorStorage::cpu(f32(&[1.0f32, 2.0, 3.0, 4.0, 5.0, 6.0]));
    let t = Tensor::from_storage(storage, vec![2, 3], false, TensorId(1)).unwrap();

    assert_eq!(t.shape(), &[2, 3]);
    assert_eq!(t.strides(), &[3, 1]);
    assert_eq!(t.ndim(), 2);
    assert_eq!(t.numel(), 6);
    assert!(t.is_contiguous());
    assert!(t.is_leaf());
    assert!(!t.requires_grad());
    assert_eq!(t.device(), Device::Cpu);
}

#[test]
fn test_tensor_shape_mismatch() {
    let storage = TensorStorage::cpu(f32(&[1.0f32, 2.0, 3.0]));
    let result = Tensor::from_storage(storage, vec![2, 3], false, TensorId(1));
    assert!(result.is_err());
    assert_eq!(
        result.unwrap_err(),
        FerrotorchError::ShapeMismatch { reason: Reason::StorageTooSmall { numel: 6, len: 3 } }
    );
}

#[test]
fn test_tensor_data_access() {
    let storage = TensorStorage::cpu(f64(&[1.0f64, 2.0, 3.0]));
    let t = Tensor::from_storage(storage, vec![3], false, TensorId(1)).unwrap();
    assert_eq!(t.data().unwrap(), f64(&[1.0, 2.0, 3.0]).as_slice());
    assert_eq!(t.data_ref().unwrap(), t.data().unwrap());
}

#[test]
fn test_tensor_scalar() {
    let t = mk(&[42.0f32], vec![], false);
    assert!(t.is_scalar());
    assert_eq!(t.item().unwrap().0, 42.0);
}

#[test]
fn test_tensor_detach() {
    let t = mk(&[1.0f32, 2.0], vec![2], true);
    assert!(t.requires_grad());

    let d = t.detach(TensorId(2));
    assert!(!d.requires_grad());
    assert!(d.is_leaf());
    assert!(d.grad_fn().is_none());
}

#[test]
fn test_tensor_is_send_sync() {
    fn assert_send_sync<T: Send + Sync>() {}
    assert_send_sync::<Tensor<F32>>();
    assert_send_sync::<Tensor<F64>>();
}

#[test]
fn test_clone_shares_identity() {
    let t = mk(&[1.0f32, 2.0], vec![2], true);
    let t2 = t.clone();

    assert!(t.is_same(&t2));
    assert_eq!(t.id(), t2.id());
}

#[test]
fn test_view_operation_shares_storage() {
    let t = mk(&[1.0f32, 2.0, 3.0, 4.0, 5.0, 6.0], vec![2, 3], true);
    let grad_fn = GradFn::External { key: 1, inputs: vec![t.clone()] };
    let view = t.view_operation(vec![6], grad_fn, TensorId(2)).unwrap().ready().unwrap();
    assert!(
        Arc::ptr_eq(t.inner_storage_arc(), view.inner_storage_arc()),
        "view_operation must share storage"
    );
    assert!(!t.is_same(&view), "view_operation creates new tensor identity");
    assert!(view.requires_grad() && !view.is_leaf());
    assert_eq!(view.grad_fn().unwrap().inputs().len(), 1);
}

#[test]
fn test_clone_shares_grad() {
    let mut grads = GradStore::new();
    let t = mk(&[1.0f32, 2.0, 3.0], vec![3], true);
    let t2 = t.clone();

    let g = mk(&[0.1, 0.2, 0.3], vec![3], false);
    t.accumulate_grad(&mut grads, &g, ctx()).unwrap();

    let grad = t2.grad(&grads).unwrap();
    let data = grad.data().unwrap();
    assert!((data[0].0 - 0.1).abs() < 1e-7);
}

#[test]
fn test_tensor_grad_accumulation() {
    let mut grads = GradStore::new();
    let t = mk(&[1.0f32, 2.0, 3.0], vec![3], true);

    assert!(t.grad(&grads).is_none());

    let g1 = mk(&[0.1, 0.2, 0.3], vec![3], false);
    t.accumulate_grad(&mut grads, &g1, ctx()).unwrap();

    let grad = t.grad(&grads).unwrap();
    let data = raw(grad.data().unwrap());
    assert!((data[0] - 0.1).abs() < 1e-7);

    let g2 = mk(&[1.0, 1.0, 1.0], vec![3], false);
    t.accumulate_grad(&mut grads, &g2, ctx()).unwrap();

    let grad = t.grad(&grads).unwrap();
    let data = raw(grad.data().unwrap());
    assert!((data[0] - 1.1).abs() < 1e-6);
    assert!((data[1] - 1.2).abs() < 1e-6);
    assert!((data[2] - 1.3).abs() < 1e-6);
}

#[test]
fn gradients_are_kept_apart_by_identity() {
    let mut grads = GradStore::new();
    let t = mk(&[1.0], vec![1], true);
    let other = t.detach(TensorId(77));
    t.set_grad(&mut grads, Some(mk(&[5.0], vec![1], false)));
    assert!(other.grad(&grads).is_none());
    other.set_grad(&mut grads, Some(mk(&[6.0], vec![1], false)));
    t.zero_grad(&mut grads);
    assert!(t.grad(&grads).is_none());
    assert_eq!(raw(other.grad(&grads).unwrap().data().unwrap()), vec![6.0]);
}

#[test]
fn to_dtype_same_dtype_is_zero_copy_clone() {
    let t = mk(&[1.0f32, 2.0, 3.0], vec![3], false);
    let same = t.to_dtype(DType::F32, ctx()).unwrap().ready().unwrap();
    assert_eq!(same.shape(), &[3usize]);
    assert_eq!(raw(same.data().unwrap()), &[1.0_f32, 2.0, 3.0]);
    assert_eq!(same.id(), t.id());
}

#[test]
fn to_dtype_cpu_f32_to_bf16_round_trips_bf16_representable_values() {
    let t = mk(&[1.0f32, -2.0, 0.5, 100.0], vec![4], false);
    let bf16 = convert_bf16(&t);
    assert_eq!(bf16.shape(), &[4usize]);
    let bits: Vec<u16> = bf16.data().unwrap().iter().map(|b| b.to_bits()).collect();
    let expect: Vec<u16> = [1.0f32, -2.0, 0.5, 100.0]
        .iter()
        .map(|&v| half::bf16::from_f32(v).to_bits())
        .collect();
    assert_eq!(bits, expect);
}

#[test]
fn to_dtype_cpu_bf16_to_f32_widens_exactly() {
    let bf16_data: Vec<Bf16> =
        [1.0f32, 1.5, -2.25, 100.0].iter().map(|&v| to_bf16(v).unwrap()).collect();
    let storage = TensorStorage::cpu(bf16_data.clone());
    let t = Tensor::from_storage(storage, vec![4], false, TensorId(1)).unwrap();
    let f32_t: Tensor<F32> = match t.to_dtype(DType::F32, ctx()).unwrap() {
        Plan::Device(ConvertJob::Host(v)) => {
            let wide =
                v.iter().map(|x| Some(F32(half::bf16::from_bits(x.to_bits()).to_f32()))).collect();
            t.finish_to_dtype(wide, TensorId(3)).unwrap()
        }
        other => panic!("unexpected plan: {other:?}"),
    };
    let got = f32_t.data().unwrap();
    let want: Vec<f32> = vec![1.0, 1.5, -2.25, 100.0];
    assert_eq!(got.len(), want.len());
    for (g, w) in got.iter().zip(want.iter()) {
        assert_eq!(g.0.to_bits(), w.to_bits());
    }
}

#[test]
fn to_dtype_cpu_saturating_cast_errors() {
    let big = TensorStorage::cpu(f64(&[1e300_f64, -1e300_f64]));
    let t = Tensor::from_storage(big, vec![2], false, TensorId(1)).unwrap();
    let narrow = |x: &F64| {
        let y = x.0 as f32;
        if x.0.is_finite() && !y.is_finite() { None } else { Some(F32(y)) }
    };
    let result = match t.to_dtype(DType::F32, ctx()).unwrap() {
        Plan::Device(ConvertJob::Host(v)) => {
            t.finish_to_dtype(v.iter().map(narrow).collect(), TensorId(3))
        }
        other => panic!("unexpected plan: {other:?}"),
    };
    assert!(result.is_err(), "expected saturation error casting 1e300_f64 to f32, got Ok");
    assert_eq!(
        result.unwrap_err(),
        FerrotorchError::InvalidArgument { reason: Reason::NotRepresentable { index: 0 } }
    );
}

#[test]
fn to_dtype_cpu_preserves_shape() {
    let t = mk(&[1.0f32, 2.0, 3.0, 4.0, 5.0, 6.0], vec![2, 3], false);
    let bf16 = convert_bf16(&t);
    assert_eq!(bf16.shape(), &[2usize, 3]);
    assert_eq!(bf16.numel(), 6);
}

#[test]
fn identifiers_count_up_and_wrap() {
    let mut counter = u64::MAX;
    assert_eq!(TensorId::next(&mut counter), TensorId(u64::MAX));
    assert_eq!(TensorId::next(&mut counter), TensorId(0));
    assert_eq!(counter, 1);
}

#[test]
fn items_need_exactly_one_element() {
    assert_eq!(
        mk(&[1.0, 2.0], vec![2], false).item().unwrap_err(),
        FerrotorchError::InvalidArgument { reason: Reason::NotScalar { numel: 2 } }
    );
    assert_eq!(mk(&[3.0], vec![1, 1], false).item().unwrap().0, 3.0);
}

#[test]
fn views_that_do_not_run_through_memory_have_no_slice() {
    let t = mk(&[1.0, 2.0, 3.0, 4.0], vec![2, 2], false);
    let transposed = t.stride_view(vec![2, 2], vec![1, 2], 0, TensorId(2));
    assert!(!transposed.is_contiguous());
    assert_eq!(
        transposed.data().unwrap_err(),
        FerrotorchError::InvalidArgument { reason: Reason::NotContiguous }
    );
    assert_eq!(raw(&transposed.host_vec().unwrap()), vec![1.0, 3.0, 2.0, 4.0]);
    let reshaped = transposed.view_reshape(vec![4], TensorId(3)).unwrap().ready().unwrap();
    assert_eq!(raw(reshaped.data().unwrap()), vec![1.0, 3.0, 2.0, 4.0]);
    assert!(t.view_reshape(vec![3], TensorId(3)).is_err());
    let tail = t.stride_view(vec![2], vec![1], 2, TensorId(4));
    assert_eq!(raw(tail.data().unwrap()), vec![3.0, 4.0]);
    assert_eq!((tail.storage_offset(), tail.storage_len()), (2, 4));
}

#[test]
fn moves_follow_the_devices() {
    let t = mk(&[1.0, 2.0], vec![2], false);
    assert!(t.to(Device::Cpu, ctx()).unwrap().ready().unwrap().is_same(&t));
    assert_eq!(t.cuda(ctx()).unwrap_err(), FerrotorchError::DeviceUnavailable);
    match t.to(Device::Cuda(2), with_backend()).unwrap() {
        Plan::Device(TransferJob::Upload { data, ordinal, dtype }) => {
            assert_eq!(raw(&data), vec![1.0, 2.0]);
            assert_eq!((ordinal, dtype), (2, DType::F32));
        }
        other => panic!("unexpected plan: {other:?}"),
    }
    match t.to_pinned(Device::Cuda(2), with_backend()).unwrap() {
        Plan::Device(TransferJob::UploadPinned(u)) => assert_eq!((u.bytes, u.pinned), (8, true)),
        other => panic!("unexpected plan: {other:?}"),
    }
    assert_eq!(
        t.to(Device::Xpu(0), ctx()).unwrap_err(),
        FerrotorchError::InvalidArgument { reason: Reason::CpuToXpu }
    );
    let meta = t.to(Device::Meta, ctx()).unwrap().ready().unwrap();
    assert!(meta.is_meta());
    assert_eq!(
        meta.to(Device::Cpu, ctx()).unwrap_err(),
        FerrotorchError::InvalidArgument {
            reason: Reason::MetaToDevice { target: Device::Cpu }
        }
    );
    assert_eq!(
        meta.data_vec(ctx()).unwrap_err(),
        FerrotorchError::InvalidArgument { reason: Reason::MetaHasNoData }
    );
    let g = gpu(vec![2, 2], 4);
    match g.cpu(with_backend()).unwrap() {
        Plan::Device(TransferJob::Download { source }) => assert_eq!(source.key, 5),
        other => panic!("unexpected plan: {other:?}"),
    }
    let part = g.stride_view(vec![2], vec![2], 1, TensorId(4));
    match part.cpu(with_backend()).unwrap() {
        Plan::Device(TransferJob::GatherDownload(c)) => {
            assert_eq!((c.offset, c.kernel), (1, CopyKernel::F32));
        }
        other => panic!("unexpected plan: {other:?}"),
    }
    let deep = g.stride_view(vec![1; 9], vec![1; 9], 0, TensorId(4));
    assert_eq!(
        deep.cpu(with_backend()).unwrap_err(),
        FerrotorchError::NotImplementedOnCuda { op: CudaGap::ReadBackRank }
    );
    match g.to(Device::Xpu(0), with_backend()).unwrap() {
        Plan::Device(TransferJob::ThroughCpu { target }) => assert_eq!(target, Device::Xpu(0)),
        other => panic!("unexpected plan: {other:?}"),
    }
}

#[test]
fn a_recorded_move_keeps_an_edge_to_its_source() {
    let t = mk(&[1.0, 2.0], vec![2], true);
    let handle = GpuBufferHandle { key: 8, len: 2, dtype: DType::F32, ordinal: 0 };
    let moved = t.finish_transfer(TensorStorage::gpu(handle), with_backend()).unwrap();
    assert_eq!(moved.grad_fn().unwrap().name(), Some("ToDeviceBackward"));
    assert!(moved.grad_fn().unwrap().inputs()[0].is_same(&t));
    let inference = Context { inference: true, ..with_backend() };
    let plain = t.finish_transfer(TensorStorage::gpu(handle), inference).unwrap();
    assert!(plain.grad_fn().is_none());
}

#[test]
fn bytes_that_come_back_must_be_whole_elements() {
    assert_eq!(Tensor::<F32>::readback_len(12), Ok(3));
    assert_eq!(
        Tensor::<F32>::readback_len(10),
        Err(FerrotorchError::InvalidArgument {
            reason: Reason::ReadBackBytes { bytes: 10, size: 4 }
        })
    );
    assert!(Tensor::<F32>::check_xpu_element().is_ok());
    assert_eq!(
        Tensor::<F64>::check_xpu_element(),
        Err(FerrotorchError::InvalidArgument { reason: Reason::XpuElementSize { size: 8 } })
    );
}

#[test]
fn taking_the_storage_out_copies_only_if_it_is_shared() {
    let t = mk(&[1.0, 2.0, 3.0], vec![3], false);
    let keep = t.clone();
    let (s, shape) = t.into_storage_and_shape(ctx()).unwrap().ready().unwrap();
    assert_eq!((raw(s.as_slice()), shape), (vec![1.0, 2.0, 3.0], vec![3]));
    let tail = keep.stride_view(vec![2], vec![1], 1, TensorId(2));
    let (s, _) = tail.into_storage_and_shape(ctx()).unwrap().ready().unwrap();
    assert_eq!(raw(s.as_slice()), vec![2.0, 3.0]);
    let g = gpu(vec![2, 2], 4).stride_view(vec![2, 2], vec![1, 2], 0, TensorId(3));
    match g.into_storage_and_shape(with_backend()).unwrap() {
        Plan::Device(UnpackJob::ThroughHost { device }) => assert_eq!(device, Device::Cuda(1)),
        other => panic!("unexpected plan: {other:?}"),
    }
}

#[test]
fn gradients_add_up_elementwise_or_are_refused() {
    let sum = sum_gradients(f32(&[1.0, 2.0]), &f32(&[3.0, 4.0])).unwrap();
    assert_eq!(raw(&sum), vec![4.0, 6.0]);
    let mut slot = Some(mk(&[1.0, 2.0], vec![2], false));
    let err =
        Tensor::accumulate_into(&mut slot, &mk(&[1.0], vec![1], false), ctx()).unwrap_err();
    assert_eq!(
        err,
        FerrotorchError::ShapeMismatch { reason: Reason::NumelMismatch { got: 1, expected: 2 } }
    );
    let mut on_gpu = Some(gpu(vec![2], 2));
    match Tensor::accumulate_into(&mut on_gpu, &gpu(vec![2], 2), with_backend()).unwrap() {
        Plan::Device(AccumulateJob::AddOnDevice { single, .. }) => assert!(single),
        other => panic!("unexpected plan: {other:?}"),
    }
    match Tensor::accumulate_into(&mut on_gpu, &mk(&[1.0, 2.0], vec![2], false), with_backend())
        .unwrap()
    {
        Plan::Device(AccumulateJob::ThroughHost { device }) => {
            assert_eq!(device, Device::Cuda(1));
        }
        other => panic!("unexpected plan: {other:?}"),
    }
}

#[test]
fn memory_formats_rearrange_and_keep_the_elements() {
    let data: Vec<f32> = (0..16).map(|i| i as f32).collect();
    let t = mk(&data, vec![1, 4, 2, 2], false);
    assert!(t.is_contiguous_for(MemoryFormat::Contiguous));
    assert!(!t.is_contiguous_for(MemoryFormat::ChannelsLast));
    let cl = t.to_memory_format(MemoryFormat::ChannelsLast, ctx()).unwrap().ready().unwrap();
    assert_eq!(cl.strides(), &[16, 1, 8, 4]);
    assert!(cl.is_contiguous_for(MemoryFormat::ChannelsLast));
    assert_eq!(raw(&cl.host_vec().unwrap()), data);
    assert_eq!(raw(&cl.storage().as_slice()[0..4]), vec![0.0, 4.0, 8.0, 12.0]);
    let back = cl.contiguous_in(MemoryFormat::Contiguous, ctx()).unwrap().ready().unwrap();
    assert_eq!(raw(back.data().unwrap()), data);
    let flat = mk(&[1.0, 2.0], vec![2], false);
    assert_eq!(
        flat.to_memory_format(MemoryFormat::ChannelsLast, ctx()).unwrap_err(),
        FerrotorchError::InvalidArgument {
            reason: Reason::FormatRank { expected: 4, got: 1 }
        }
    );
    let five = mk(&[0.0; 8], vec![1, 2, 2, 1, 2], false);
    let cl3 = five.to_memory_format(MemoryFormat::ChannelsLast3d, ctx()).unwrap().ready().unwrap();
    assert_eq!(cl3.strides(), &[8, 1, 4, 4, 2]);
}

#[test]
fn in_place_updates_write_the_storage() {
    let t = mk(&[0.0; 4], vec![2, 2], false);
    let mut storage = TensorStorage::cpu(f32(&[0.0; 4]));
    t.update_data(&mut storage, &f32(&[1.0, 2.0, 3.0, 4.0]), ctx()).unwrap();
    assert_eq!(raw(storage.as_slice()), vec![1.0, 2.0, 3.0, 4.0]);
    let col = t.stride_view(vec![2], vec![2], 1, TensorId(2));
    col.update_data(&mut storage, &f32(&[8.0, 9.0]), ctx()).unwrap();
    assert_eq!(raw(storage.as_slice()), vec![1.0, 8.0, 3.0, 9.0]);
    t.data_mut(&mut storage).unwrap()[0] = F32(7.0);
    assert_eq!(raw(storage.as_slice()), vec![7.0, 8.0, 3.0, 9.0]);
    assert_eq!(
        t.update_data(&mut storage, &f32(&[1.0]), ctx()).unwrap_err(),
        FerrotorchError::ShapeMismatch { reason: Reason::NumelMismatch { got: 1, expected: 4 } }
    );
    let repeated = t.stride_view(vec![3], vec![0], 0, TensorId(3));
    assert_eq!(
        repeated.update_data(&mut storage, &f32(&[1.0, 2.0, 3.0]), ctx()).unwrap_err(),
        FerrotorchError::InvalidArgument { reason: Reason::OverlappingWrite }
    );
    let handle = GpuBufferHandle { key: 5, len: 4, dtype: DType::F32, ordinal: 1 };
    assert_eq!(
        t.update_storage(&mut storage, TensorStorage::gpu(handle), ctx()).unwrap_err(),
        FerrotorchError::DeviceMismatch { expected: Device::Cpu, got: Device::Cuda(1) }
    );
    t.update_storage(&mut storage, TensorStorage::cpu(f32(&[5.0; 4])), ctx()).unwrap();
    assert_eq!(raw(storage.as_slice()), vec![5.0; 4]);
    assert_eq!(
        t.update_storage_and_shape(&mut storage, TensorStorage::cpu(f32(&[1.0; 6])), &[3, 2], true)
            .unwrap_err(),
        FerrotorchError::InvalidArgument { reason: Reason::Aliased }
    );
    let strides = t
        .update_storage_and_shape(&mut storage, TensorStorage::cpu(f32(&[1.0; 6])), &[3, 2], false)
        .unwrap();
    assert_eq!((strides, storage.len()), (vec![2, 1], 6));
    let g = gpu(vec![2], 4).stride_view(vec![2], vec![2], 0, TensorId(4));
    let mut on_gpu = TensorStorage::<F32>::gpu(handle);
    let two = GpuBufferHandle { key: 6, len: 2, dtype: DType::F32, ordinal: 1 };
    match g.update_storage(&mut on_gpu, TensorStorage::gpu(two), with_backend()).unwrap() {
        Plan::Device(j) => assert_eq!((j.kernel, j.source.key), (ScatterKernel::F32, 6)),
        other => panic!("unexpected plan: {other:?}"),
    }
}

#[test]
fn handles_are_found_only_on_their_device() {
    let t = mk(&[1.0], vec![1], false);
    assert_eq!(
        t.gpu_handle().unwrap_err(),
        FerrotorchError::InvalidArgument { reason: Reason::NotOnGpu }
    );
    assert_eq!(gpu(vec![2], 2).gpu_handle().unwrap().key, 5);
    assert_eq!(gpu(vec![2], 2).data().unwrap_err(), FerrotorchError::GpuTensorNotAccessible);
    let cube = CubeBufferHandle { key: 3, len: 2, ordinal: 0 };
    let x = Tensor::from_storage(
        TensorStorage::<F32>::xpu_from_handle(cube, 0),
        vec![2],
        false,
        TensorId(1),
    )
    .unwrap();
    assert!(x.is_xpu() && !x.is_cuda() && !x.is_cpu());
    let requires = mk(&[1.0], vec![1], false).requires_grad_(true, TensorId(8));
    assert!(requires.requires_grad());
}

#[test]
fn another_object_of_the_same_node_is_not_the_same_tensor() {
    let t = mk(&[1.0, 2.0], vec![2], false);
    assert!(t.is_same(&t.clone()));
    let u = t.clone().requires_grad_(true, TensorId(8));
    assert_eq!((u.id(), u.object()), (t.id(), TensorId(8)));
    assert!(!t.is_same(&u) && u.is_same(&u.clone()));
    assert_eq!(raw(u.data().unwrap()), vec![1.0, 2.0]);
}

#[test]
fn a_gradient_belongs_to_one_object() {
    let t = mk(&[1.0], vec![1], false);
    let u = t.clone().requires_grad_(true, TensorId(8));
    let mut grads = GradStore::new();
    t.set_grad(&mut grads, Some(mk(&[5.0], vec![1], false)));
    assert!(t.clone().grad(&grads).is_some());
    assert!(u.grad(&grads).is_none());
}

#[test]
fn nothing_moves_to_a_metal_device() {
    let refused = FerrotorchError::InvalidArgument { reason: Reason::MpsNotWired };
    let host = mk(&[1.0], vec![1], false);
    assert_eq!(host.to(Device::Mps(0), ctx()).unwrap_err(), refused);
    assert_eq!(host.to_pinned(Device::Mps(0), with_backend()).unwrap_err(), refused);
    assert_eq!(gpu(vec![2], 2).to(Device::Mps(1), with_backend()).unwrap_err(), refused);
    let meta =
        Tensor::from_storage(TensorStorage::<F32>::meta(2), vec![2], false, TensorId(1)).unwrap();
    assert_eq!(meta.to(Device::Mps(0), ctx()).unwrap_err(), refused);
}

#[test]
fn a_conversion_to_the_same_type_shares_storage_and_wants_no_gradient() {
    let t = mk(&[1.0, 2.0], vec![2], true);
    let same = t.to_dtype(DType::F32, ctx()).unwrap().ready().unwrap();
    assert!(!same.requires_grad() && same.is_leaf() && same.grad_fn().is_none());
    assert!(Arc::ptr_eq(&same.inner.storage, &t.inner.storage));
    assert!(!same.is_same(&t));
    let plain = mk(&[1.0], vec![1], false);
    assert!(plain.to_dtype(DType::F32, ctx()).unwrap().ready().unwrap().is_same(&plain));
}

#[test]
fn a_write_shows_in_every_tensor_over_the_storage() {
    let whole = mk(&[0.0, 1.0, 2.0, 3.0, 4.0, 5.0], vec![6], false);
    let view = whole.stride_view(vec![3], vec![2], 0, TensorId(3));
    let other = whole.stride_view(vec![2], vec![1], 2, TensorId(4));
    let mut storage = TensorStorage::cpu(f32(&[0.0, 1.0, 2.0, 3.0, 4.0, 5.0]));
    view.update_data(&mut storage, &f32(&[7.0, 8.0, 9.0]), ctx()).unwrap();
    let written = Arc::new(storage);
    let now = view.over_storage(&written);
    assert!(now.is_same(&view));
    assert_eq!((now.id(), now.strides()), (view.id(), view.strides()));
    assert_eq!(raw(&now.data_vec(ctx()).unwrap().ready().unwrap()), vec![7.0, 8.0, 9.0]);
    assert_eq!(raw(other.over_storage(&written).data().unwrap()), vec![8.0, 3.0]);
    assert_eq!(
        raw(whole.over_storage(&written).data().unwrap()),
        vec![7.0, 1.0, 8.0, 3.0, 9.0, 5.0]
    );
}

#[test]
fn a_resized_tensor_reads_its_new_storage() {
    let t = mk(&[0.0, 1.0], vec![2], false);
    let mut storage = TensorStorage::cpu(f32(&[0.0, 1.0]));
    let new = TensorStorage::cpu(f32(&[1.0, 2.0, 3.0, 4.0]));
    let strides = t.update_storage_and_shape(&mut storage, new, &[2, 2], false).unwrap();
    let now = t.resized_over(&Arc::new(storage), &[2, 2], strides);
    assert!(now.is_same(&t));
    assert_eq!(now.shape(), &[2, 2]);
    assert_eq!(raw(now.data().unwrap()), vec![1.0, 2.0, 3.0, 4.0]);
}

#[test]
fn changes_in_place_are_read_afterwards() {
    let t = mk(&[0.0, 1.0, 2.0], vec![3], false);
    let tail = t.stride_view(vec![2], vec![1], 1, TensorId(3));
    let mut storage = TensorStorage::cpu(f32(&[0.0, 1.0, 2.0]));
    tail.data_mut(&mut storage).unwrap()[1] = F32(9.0);
    let written = Arc::new(storage);
    assert_eq!(raw(tail.over_storage(&written).data().unwrap()), vec![1.0, 9.0]);
    assert_eq!(raw(t.over_storage(&written).data().unwrap()), vec![0.0, 1.0, 9.0]);
}

#[test]
fn cuda_views_are_gathered_before_the_whole_buffer_is_read() {
    let part = gpu(vec![4], 4).stride_view(vec![2], vec![1], 1, TensorId(3));
    match part.to_dtype(DType::F64, with_backend()).unwrap() {
        Plan::Device(ConvertJob::MakeContiguous(copy)) => {
            assert_eq!((copy.offset, copy.shape, copy.source.key), (1, vec![2], 5));
        }
        other => panic!("unexpected plan: {other:?}"),
    }
    let two = GpuBufferHandle { key: 6, len: 2, dtype: DType::F32, ordinal: 1 };
    let packed = part.packed(TensorStorage::gpu(two), TensorId(4)).unwrap();
    assert!(packed.is_whole_buffer() && !part.is_whole_buffer());
    match packed.to_dtype(DType::F64, with_backend()).unwrap() {
        Plan::Device(ConvertJob::Cast { source, target }) => {
            assert_eq!((source, target), (two, DType::F64));
        }
        other => panic!("unexpected plan: {other:?}"),
    }
    let short = GpuBufferHandle { key: 6, len: 1, dtype: DType::F32, ordinal: 1 };
    assert_eq!(
        part.packed(TensorStorage::gpu(short), TensorId(4)).unwrap_err(),
        FerrotorchError::ShapeMismatch { reason: Reason::NumelMismatch { got: 1, expected: 2 } }
    );
    let mut slot = Some(gpu(vec![2], 2));
    match Tensor::accumulate_into(&mut slot, &part, with_backend()).unwrap() {
        Plan::Device(AccumulateJob::AddOnDevice {
            existing: DeviceSource::Whole(h),
            incoming: DeviceSource::Gather(copy),
            ..
        }) => assert_eq!((h.key, copy.offset), (5, 1)),
        other => panic!("unexpected plan: {other:?}"),
    }
}

#[test]
fn the_first_gradient_of_a_device_is_a_copy_of_its_buffer() {
    let mut slot = None;
    let incoming = gpu(vec![2], 2);
    assert_eq!(
        Tensor::accumulate_into(&mut slot, &incoming, ctx()).unwrap_err(),
        FerrotorchError::DeviceUnavailable
    );
    match Tensor::accumulate_into(&mut slot, &incoming, with_backend()).unwrap() {
        Plan::Device(AccumulateJob::Unpack(UnpackJob::Clone(CloneJob::Gpu(h)))) => {
            assert_eq!(h, *incoming.gpu_handle().unwrap());
        }
        other => panic!("unexpected plan: {other:?}"),
    }
    assert!(slot.is_none());
    let copy = GpuBufferHandle { key: 9, len: 2, dtype: DType::F32, ordinal: 1 };
    let made = TensorStorage::gpu(copy);
    Tensor::finish_accumulate(&mut slot, &incoming, made, with_backend()).unwrap();
    let first = slot.clone().unwrap();
    assert_eq!((first.gpu_handle().unwrap().key, first.shape()), (9, &[2][..]));
    assert!(!first.requires_grad() && first.is_leaf());

    let sum = GpuBufferHandle { key: 10, ..copy };
    let column = gpu(vec![2, 1], 2);
    Tensor::finish_accumulate(&mut slot, &column, TensorStorage::gpu(sum), ctx()).unwrap();
    assert_eq!(slot.clone().unwrap().shape(), &[2]);
    let short = GpuBufferHandle { len: 1, ..copy };
    assert!(Tensor::finish_accumulate(&mut slot, &column, TensorStorage::gpu(short), ctx())
        .is_err());
    assert_eq!(slot.unwrap().gpu_handle().unwrap().key, 10);
}

#[test]
fn a_gradient_from_a_device_enters_the_store() {
    let t = mk(&[1.0, 2.0], vec![2], true);
    let mut grads = GradStore::new();
    let incoming = gpu(vec![2], 2);
    let copy = GpuBufferHandle { key: 9, len: 2, dtype: DType::F32, ordinal: 1 };
    t.finish_accumulate_grad(&mut grads, &incoming, TensorStorage::gpu(copy), ctx()).unwrap();
    assert_eq!(t.grad(&grads).unwrap().gpu_handle().unwrap().key, 9);
}

#[test]
fn part_of_a_meta_storage_has_no_fill() {
    let whole = Tensor::from_storage(
        TensorStorage::meta_filled(4, F32(2.0)),
        vec![4],
        false,
        TensorId(1),
    )
    .unwrap();
    let part = whole.stride_view(vec![2], vec![1], 1, TensorId(2));
    let (storage, shape) = part.into_storage_and_shape(ctx()).unwrap().ready().unwrap();
    assert_eq!((storage.len(), shape), (2, vec![2]));
    assert!(storage.meta_fill_value().is_none());
    let mut slot = None;
    Tensor::accumulate_into(&mut slot, &whole, ctx()).unwrap();
    assert_eq!(slot.unwrap().meta_fill_value(), Some(&F32(2.0)));
}

#[test]
fn a_view_is_read_from_its_whole_buffer() {
    let cube = CubeBufferHandle { key: 3, len: 6, ordinal: 0 };
    let whole = Tensor::from_storage(
        TensorStorage::<F32>::xpu_from_handle(cube, 0),
        vec![6],
        false,
        TensorId(1),
    )
    .unwrap();
    let view = whole.stride_view(vec![2], vec![-2], 5, TensorId(2));
    let buffer = f32(&[0.0, 1.0, 2.0, 3.0, 4.0, 5.0]);
    assert_eq!(raw(&view.shown_of(&buffer).unwrap()), vec![5.0, 3.0]);
    assert_eq!(
        view.shown_of(&buffer[..4]).unwrap_err(),
        FerrotorchError::InvalidArgument { reason: Reason::ViewBeyondStorage }
    );
}

#[test]
fn a_converted_buffer_keeps_the_shape() {
    let made = GpuBufferHandle { key: 8, len: 2, dtype: DType::F64, ordinal: 1 };
    let t = gpu(vec![2, 1], 2).finish_cast::<F64>(TensorStorage::gpu(made), TensorId(3)).unwrap();
    assert_eq!((t.shape(), t.gpu_handle().unwrap().key), (&[2, 1][..], 8));
    assert!(!t.requires_grad());
}
