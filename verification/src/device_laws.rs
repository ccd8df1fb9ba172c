//! What the jobs for a device say: the buffers, views and kernels that they name are those
//! of the operands.

use crate::autograd::{Context, Plan, TensorId};
use crate::device::{Device, GpuBufferHandle};
use crate::dtype::{DType, Float};
use crate::error::FerrotorchError;
use crate::polynomial::{polynomial_outcome, Basis, PolynomialJob};
use crate::special::{SpecialBinaryKind, SpecialOp, SpecialUnaryKind};
use crate::special_apply::{
    special_binary_outcome, special_unary_outcome, BinaryLane, SpecialApplyJob,
};
use crate::storage::{CloneJob, StorageBuffer, TensorStorage};
use crate::stride_tricks::ScatterJob;
use crate::tensor::Tensor;
use crate::transfer::{copy_kernel_spec, CopyKernel, DeviceSource, StridedCopy, TransferJob};
use crate::update::{scatter_kernel_spec, ScatterKernel, StridedScatter};
use vstd::prelude::*;

verus! {

/// Single-width and double-width elements have kernels of their width, half-width ones a
/// copy kernel alone.
pub proof fn lemma_kernels()
    ensures
        copy_kernel_spec(DType::F32) == CopyKernel::F32,
        copy_kernel_spec(DType::F64) == CopyKernel::F64,
        copy_kernel_spec(DType::F16) == CopyKernel::U16,
        copy_kernel_spec(DType::BF16) == CopyKernel::U16,
        scatter_kernel_spec(DType::F32) == Some(ScatterKernel::F32),
        scatter_kernel_spec(DType::F64) == Some(ScatterKernel::F64),
        scatter_kernel_spec(DType::F16) is None,
        scatter_kernel_spec(DType::BF16) is None,
{
}

/// What is read back of a CUDA tensor: its whole buffer, where it shows all of it in
/// order, and else what its shape, strides and offset name of it.
pub proof fn lemma_read_back<T: Float>(
    t: &Tensor<T>,
    h: GpuBufferHandle,
    ctx: Context,
    job: TransferJob<T>,
)
    requires
        t.inner.storage.data == StorageBuffer::<T>::Gpu(h),
        t.inner.storage.device is Cuda,
        t.to_outcome(Device::Cpu, ctx, Ok(Plan::Device(job))),
    ensures
        t.contiguous_spec() && t.inner.offset == 0 && t.inner.storage.spec_len() == t.count() ==> (
        job matches TransferJob::Download { source } && source == h),
        !(t.contiguous_spec() && t.inner.offset == 0 && t.inner.storage.spec_len() == t.count())
            ==> (job matches TransferJob::GatherDownload(c) && c.source == h && c.shape@
            == t.inner.shape@ && c.strides@ == t.inner.strides@ && c.offset == t.inner.offset
            && c.kernel == copy_kernel_spec(T::dtype_spec())),
{
}

/// An operand on a device is named as its whole buffer, where it shows all of it in order,
/// and else by its shape, strides and offset.
pub proof fn lemma_source_named<T: Float>(t: &Tensor<T>, source: DeviceSource)
    requires
        t.is_source(source),
    ensures
        t.contiguous_spec() && t.inner.offset == 0 && t.inner.storage.spec_len() == t.count() ==> (
        source matches DeviceSource::Whole(h) && h == t.inner.storage.data->Gpu_0),
        !(t.contiguous_spec() && t.inner.offset == 0 && t.inner.storage.spec_len() == t.count())
            ==> (source matches DeviceSource::Gather(c) && c.source == t.inner.storage.data->Gpu_0
            && c.shape@ == t.inner.shape@ && c.strides@ == t.inner.strides@ && c.offset
            == t.inner.offset),
{
}

/// A strided copy on a CUDA device reads the buffer of its source by the shape, strides
/// and offset that were asked for.
pub proof fn lemma_copy_on_device<T: Float>(
    t: &Tensor<T>,
    size: Seq<usize>,
    stride: Seq<isize>,
    offset: usize,
    ctx: Context,
    c: StridedCopy,
)
    requires
        t.copy_outcome(size, stride, offset, ctx, Ok(Plan::Device(c))),
    ensures
        t.inner.storage.data is Gpu,
        c.source == t.inner.storage.data->Gpu_0,
        c.shape@ == size,
        c.strides@ == stride,
        c.offset == offset,
        c.kernel == copy_kernel_spec(T::dtype_spec()),
{
}

/// A strided scatter on a CUDA device copies its base by the base's own shape, strides and
/// offset, and writes the source by those that were asked for.
pub proof fn lemma_scatter_on_device<T: Float>(
    base: &Tensor<T>,
    src: &Tensor<T>,
    size: Seq<usize>,
    stride: Seq<isize>,
    offset: usize,
    ctx: Context,
    job: ScatterJob,
)
    requires
        base.inner.storage.data is Gpu,
        src.inner.storage.data is Gpu,
        base.scatter_outcome(src, size, stride, offset, ctx, Ok(Plan::Device(job))),
    ensures
        size == src.inner.shape@,
        job matches ScatterJob::Cuda(j) && j.base.source == base.inner.storage.data->Gpu_0
            && j.base.shape@ == base.inner.shape@ && j.base.strides@ == base.inner.strides@
            && j.base.offset == base.inner.offset && src.is_source(j.source) && j.size@ == size
            && j.stride@ == stride && j.offset == offset && Some(j.kernel) == scatter_kernel_spec(
            T::dtype_spec(),
        ),
{
}

/// A write through a view of a CUDA buffer goes from the new buffer to the old one by the
/// shape, strides and offset of the tensor, and changes nothing by itself.
pub proof fn lemma_update_on_device<T: Float>(
    t: &Tensor<T>,
    before: TensorStorage<T>,
    new_storage: TensorStorage<T>,
    ctx: Context,
    after: TensorStorage<T>,
    j: StridedScatter,
)
    requires
        t.update_storage_outcome(before, new_storage, ctx, after, Ok(Plan::Device(j))),
    ensures
        after == before,
        before.data is Gpu,
        j.source == new_storage.data->Gpu_0,
        j.target == before.data->Gpu_0,
        j.shape@ == t.inner.shape@,
        j.strides@ == t.inner.strides@,
        j.offset == t.inner.offset,
        new_storage.spec_len() == t.count(),
{
}

/// A part of a CUDA buffer is read from the byte of its first element on before that of
/// the element behind its last, with four bytes for a single-width element, eight for a
/// double-width one and two for a half-width one.
pub proof fn lemma_subregion_bytes<T: Float>(
    s: &TensorStorage<T>,
    offset: usize,
    numel: usize,
    ctx: Context,
    job: CloneJob,
)
    requires
        s.data is Gpu,
        s.subregion_outcome(offset, numel, ctx, Ok(Plan::Device(job))),
    ensures
        ({
            let size = match T::dtype_spec() {
                DType::F32 => 4int,
                DType::F64 => 8int,
                _ => 2int,
            };
            &&& offset == 0 && numel == s.spec_len() ==> job == CloneJob::Gpu(s.data->Gpu_0)
            &&& !(offset == 0 && numel == s.spec_len()) ==> (job matches CloneJob::GpuBytes {
                source,
                start,
                end,
            } && source == s.data->Gpu_0 && start == offset * size && end == (offset + numel) * size
                && offset + numel <= s.spec_len())
        }),
{
}

/// A polynomial on a CUDA device is that of the basis and the degree at the elements of
/// the input.
pub proof fn lemma_polynomial_on_device<T: Float>(
    basis: Basis,
    input: &Tensor<T>,
    n: usize,
    ctx: Context,
    job: PolynomialJob<T>,
)
    requires
        input.inner.storage.device is Cuda,
        polynomial_outcome(basis, input, n, ctx, Ok(Plan::Device(job))),
    ensures
        job matches PolynomialJob::Evaluate { input: i, basis: b, n: m, kernel } && i == *input && b
            == basis && m == n && Some(kernel) == scatter_kernel_spec(T::dtype_spec()),
{
}

/// A special function on a CUDA device is evaluated at the input, in its shape.
pub proof fn lemma_unary_on_device<T: Float, F: Fn(T) -> T>(
    op: SpecialOp,
    has_kernel: bool,
    kind: Option<SpecialUnaryKind>,
    input: &Tensor<T>,
    f: F,
    ctx: Context,
    saved: TensorId,
    r: Result<Plan<Tensor<T>, SpecialApplyJob<T>>, FerrotorchError>,
)
    requires
        input.inner.storage.device is Cuda,
        special_unary_outcome(op, has_kernel, kind, input, f, ctx, saved, r),
    ensures
        r is Ok <==> has_kernel && scatter_kernel_spec(T::dtype_spec()) is Some && ctx.backend,
        r matches Ok(p) ==> (p matches Plan::Device(SpecialApplyJob::Evaluate(j)) && j.op == op
            && j.x == *input && j.y is None && j.shape@ == input.inner.shape@),
{
}

/// A special function of two CUDA tensors is evaluated at both, in their common shape
/// where it stretches them.
pub proof fn lemma_binary_on_device<T: Float>(
    op: SpecialOp,
    lane: BinaryLane,
    kind: SpecialBinaryKind,
    a: &Tensor<T>,
    b: &Tensor<T>,
    gives: spec_fn(T, T, T) -> bool,
    ctx: Context,
    saved: TensorId,
    r: Result<Plan<Tensor<T>, SpecialApplyJob<T>>, FerrotorchError>,
)
    requires
        a.inner.storage.device is Cuda || b.inner.storage.device is Cuda,
        special_binary_outcome(op, lane, kind, a, b, gives, ctx, saved, r),
    ensures
        lane is HostOnly ==> r is Err,
        a.inner.storage.device != b.inner.storage.device ==> r is Err,
        lane is SameShape && a.inner.shape@ != b.inner.shape@ ==> r is Err,
        r matches Ok(p) ==> (p matches Plan::Device(SpecialApplyJob::Evaluate(j)) && j.op == op
            && j.x == *a && j.y == Some(*b) && (lane is SameShape ==> j.shape@
            == a.inner.shape@) && (lane is Stretched ==> j.shape@
            == crate::broadcast::common_shape(a.inner.shape@, b.inner.shape@))),
{
}

} // verus!
