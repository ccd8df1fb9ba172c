//! Strided views, copies and scatters, and their gradients.

use crate::autograd::{Context, Plan, TensorId};
use crate::device::GpuBufferHandle;
use crate::dtype::{DType, Float};
use crate::error::{CudaGap, FerrotorchError, FerrotorchResult, Reason};
use crate::limits::{fits_shape, fits_view};
use crate::scatter::{self, cell_sum, copied, filled, gather, scatter_add};
use crate::shape;
use crate::storage::{StorageBuffer, TensorStorage};
use crate::strided::{self, offset_at};
use crate::tensor::{GradFn, Tensor};
use crate::transfer::{copy_kernel, copy_kernel_spec, DeviceSource, StridedCopy};
use crate::update::{
    lemma_write_then_read, positions, read_through, scatter_kernel, scatter_kernel_spec,
    written_through, ScatterKernel,
};
use vstd::prelude::*;

verus! {

/// The gradient of a strided view or copy.
#[derive(Debug)]
pub struct AsStridedBackward<T: Float> {
    pub input: Tensor<T>,
    pub size: Vec<usize>,
    pub stride: Vec<isize>,
    pub storage_offset: usize,
}

/// The gradient of a strided scatter.
#[derive(Debug)]
pub struct AsStridedScatterBackward<T: Float> {
    pub input: Tensor<T>,
    pub src: Tensor<T>,
    pub size: Vec<usize>,
    pub stride: Vec<isize>,
    pub storage_offset: usize,
}

impl<T: Float> AsStridedBackward<T> {
    /// The gradient of this view of `input`.
    pub open spec fn is(
        &self,
        input: Tensor<T>,
        size: Seq<usize>,
        stride: Seq<isize>,
        offset: usize,
    ) -> bool {
        &&& self.input == input
        &&& self.size@ == size
        &&& self.stride@ == stride
        &&& self.storage_offset == offset
    }

    /// The gradient of a view of `input`.
    pub fn new(input: Tensor<T>, size: Vec<usize>, stride: Vec<isize>, storage_offset: usize) -> (r:
        Self)
        ensures
            r.is(input, size@, stride@, storage_offset),
    {
        AsStridedBackward { input, size, stride, storage_offset }
    }
}

impl<T: Float> AsStridedScatterBackward<T> {
    /// The gradient of this scatter of `src` into `input`.
    pub open spec fn is(
        &self,
        input: Tensor<T>,
        src: Tensor<T>,
        size: Seq<usize>,
        stride: Seq<isize>,
        offset: usize,
    ) -> bool {
        &&& self.input == input
        &&& self.src == src
        &&& self.size@ == size
        &&& self.stride@ == stride
        &&& self.storage_offset == offset
    }

    /// The gradient of a scatter of `src` into `input`.
    pub fn new(
        input: Tensor<T>,
        src: Tensor<T>,
        size: Vec<usize>,
        stride: Vec<isize>,
        storage_offset: usize,
    ) -> (r: Self)
        ensures
            r.is(input, src, size@, stride@, storage_offset),
    {
        AsStridedScatterBackward { input, src, size, stride, storage_offset }
    }
}

/// An offset that may be left out.
pub open spec fn offset_or(given: Option<usize>, default: usize) -> usize {
    match given {
        Some(o) => o,
        None => default,
    }
}

/// A gather on the device, or an error, for an element type with a full-width kernel.
pub open spec fn wide_copy_outcome(
    source: GpuBufferHandle,
    sh: Seq<usize>,
    strides: Seq<isize>,
    offset: usize,
    dtype: DType,
    gap: CudaGap,
    ctx: Context,
    r: FerrotorchResult<StridedCopy>,
) -> bool {
    if !ctx.backend {
        r matches Err(e) && e == FerrotorchError::DeviceUnavailable
    } else if scatter_kernel_spec(dtype) is None {
        r matches Err(e) && e == (FerrotorchError::NotImplementedOnCuda { op: gap })
    } else {
        r matches Ok(c) && c.is(source, sh, strides, offset, copy_kernel_spec(dtype))
    }
}

fn wide_copy(
    source: GpuBufferHandle,
    sh: &[usize],
    strides: &[isize],
    offset: usize,
    dtype: DType,
    gap: CudaGap,
    ctx: Context,
) -> (r: FerrotorchResult<StridedCopy>)
    ensures
        wide_copy_outcome(source, sh@, strides@, offset, dtype, gap, ctx, r),
{
    if !ctx.backend {
        return Err(FerrotorchError::DeviceUnavailable);
    }
    match scatter_kernel(dtype) {
        None => Err(FerrotorchError::NotImplementedOnCuda { op: gap }),
        Some(_) => Ok(
            StridedCopy {
                source,
                shape: copied(sh),
                strides: copied(strides),
                offset,
                kernel: copy_kernel(dtype),
            },
        ),
    }
}

/// The elements that a view shows of a host slice.
pub(crate) fn read_view<T: Float>(
    data: &[T],
    size: &[usize],
    stride: &[isize],
    offset: usize,
) -> (r: Vec<T>)
    requires
        shape::shape_fits(size@),
        strided::within(size@, stride@, offset as int, data@.len() as int),
        strided::reach_fits(size@, stride@, offset as int),
    ensures
        r@ == read_through(data@, size@, stride@, offset as int),
{
    let at: Vec<usize> = view_positions(size, stride, offset, data.len());
    let r: Vec<T> = gather(data, at.as_slice());
    proof {
        assert forall|k: int| 0 <= k < r@.len() implies r@[k] == read_through(
            data@,
            size@,
            stride@,
            offset as int,
        )[k] by {
            strided::lemma_within_offset(
                size@,
                stride@,
                offset as int,
                data@.len() as int,
                k,
            );
        }
        assert(r@ =~= read_through(data@, size@, stride@, offset as int));
    }
    r
}

/// The storage positions of a view of storage with `len` elements.
fn view_positions(size: &[usize], stride: &[isize], offset: usize, len: usize) -> (r: Vec<usize>)
    requires
        shape::shape_fits(size@),
        strided::within(size@, stride@, offset as int, len as int),
        strided::reach_fits(size@, stride@, offset as int),
    ensures
        r@ == positions(size@, stride@, offset as int),
        r@.len() == shape::prod(size@),
        forall|k: int| 0 <= k < r@.len() ==> #[trigger] r@[k] < len,
        forall|k: int|
            0 <= k < r@.len() ==> #[trigger] r@[k] as int == offset_at(
                size@,
                stride@,
                offset as int,
                k,
            ),
{
    if shape::numel(size) == 0 {
        let none: Vec<usize> = Vec::new();
        proof {
            assert(none@ =~= positions(size@, stride@, offset as int));
        }
        return none;
    }
    proof {
        strided::lemma_within_offset(size@, stride@, offset as int, len as int, 0);
        strided::lemma_extent_signs(size@, stride@);
    }
    let at: Vec<usize> = strided::strided_offsets(size, stride, offset as i64, len);
    proof {
        assert(at@ =~= positions(size@, stride@, offset as int));
    }
    at
}

/// What has to be done to scatter on a CUDA device: gather the base, then scatter
/// the source into the result.
#[derive(Debug)]
pub struct CudaScatter {
    pub base: StridedCopy,
    pub source: DeviceSource,
    pub size: Vec<usize>,
    pub stride: Vec<isize>,
    pub offset: usize,
    pub kernel: ScatterKernel,
}

/// What has to be done to scatter where the elements are not in host memory.
#[derive(Debug)]
pub enum ScatterJob {
    /// Scatter on the CUDA device.
    Cuda(CudaScatter),
    /// List the elements of both tensors on the host first.
    ThroughHost,
}

impl<T: Float> Tensor<T> {
    /// The gradient part of a strided view or copy.
    pub open spec fn strided_grad(
        &self,
        source: &Tensor<T>,
        size: Seq<usize>,
        stride: Seq<isize>,
        offset: usize,
        recorded: bool,
    ) -> bool {
        if recorded {
            &&& self.inner.grad_fn matches Some(g) && (*g matches GradFn::AsStrided(b) && b.is(
                *source,
                size,
                stride,
                offset,
            ))
            &&& self.inner.requires_grad
            &&& !self.inner.is_leaf
        } else {
            self.is_plain(false)
        }
    }

    /// A view with the given shape, strides and offset. Without an offset, that of
    /// the tensor is used.
    pub fn as_strided(
        &self,
        size: &[usize],
        stride: &[isize],
        storage_offset: Option<usize>,
        ctx: Context,
    ) -> (r: FerrotorchResult<Tensor<T>>)
        requires
            self.inner.storage.wf(),
            shape::shape_fits(size@),
        ensures
            ({
                let offset = offset_or(storage_offset, self.inner.offset);
                match strided::bounds_error(
                    size@,
                    stride@,
                    offset,
                    self.inner.storage.spec_len() as usize,
                ) {
                    Some(reason) => r matches Err(e) && e == (FerrotorchError::InvalidArgument {
                        reason,
                    }),
                    None => r matches Ok(t) && t.is_view_of(self, ctx.fresh, size@, stride@, offset)
                        && t.strided_grad(
                        self,
                        size@,
                        stride@,
                        offset,
                        ctx.grad_enabled && self.inner.requires_grad,
                    ) && t.wf() && t.in_bounds(),
                }
            }),
    {
        let offset: usize = match storage_offset {
            Some(o) => o,
            None => self.storage_offset(),
        };
        strided::validate_bounds(size, stride, offset, self.storage_len())?;
        if !ctx.grad_enabled || !self.requires_grad() {
            return Ok(self.stride_view(copied(size), copied(stride), offset, ctx.fresh));
        }
        let grad_fn = GradFn::AsStrided(
            AsStridedBackward::new(self.clone(), copied(size), copied(stride), offset),
        );
        Ok(
            self.stride_view_operation(copied(size), copied(stride), offset, grad_fn, ctx.fresh),
        )
    }

    /// A contiguous copy of the elements that [`Tensor::as_strided`] shows.
    pub fn as_strided_copy(
        &self,
        size: &[usize],
        stride: &[isize],
        storage_offset: Option<usize>,
        ctx: Context,
    ) -> (r: FerrotorchResult<Plan<Tensor<T>, StridedCopy>>)
        requires
            self.inner.storage.wf(),
            shape::shape_fits(size@),
        ensures
            self.copy_outcome(
                size@,
                stride@,
                offset_or(storage_offset, self.inner.offset),
                ctx,
                r,
            ),
    {
        let offset: usize = match storage_offset {
            Some(o) => o,
            None => self.storage_offset(),
        };
        strided::validate_bounds(size, stride, offset, self.storage_len())?;
        match &self.inner.storage.data {
            StorageBuffer::Gpu(h) => {
                let c: StridedCopy = wide_copy(
                    *h,
                    size,
                    stride,
                    offset,
                    T::dtype(),
                    CudaGap::AsStridedCopy,
                    ctx,
                )?;
                Ok(Plan::Device(c))
            },
            StorageBuffer::Cpu(v) => {
                let data: Vec<T> = read_view(v.as_slice(), size, stride, offset);
                let t: Tensor<T> = self.finish_strided_copy(
                    TensorStorage::cpu(data),
                    size,
                    stride,
                    offset,
                    ctx,
                )?;
                Ok(Plan::Ready(t))
            },
            _ => Err(FerrotorchError::NotImplementedOnCuda { op: CudaGap::AsStridedCopy }),
        }
    }

    /// The tensor over the storage that a strided copy was made into.
    pub fn finish_strided_copy(
        &self,
        storage: TensorStorage<T>,
        size: &[usize],
        stride: &[isize],
        offset: usize,
        ctx: Context,
    ) -> (r: FerrotorchResult<Tensor<T>>)
        requires
            storage.wf(),
            shape::shape_fits(size@),
        ensures
            match r {
                Ok(t) => {
                    &&& shape::prod(size@) <= storage.spec_len()
                    &&& t.is_dense(ctx.fresh, storage, size@)
                    &&& t.strided_grad(
                        self,
                        size@,
                        stride@,
                        offset,
                        ctx.grad_enabled && self.inner.requires_grad && !ctx.inference,
                    )
                    &&& t.wf()
                    &&& t.in_bounds()
                },
                Err(e) => {
                    &&& shape::prod(size@) > storage.spec_len()
                    &&& e == crate::tensor::too_small(size@, storage)
                },
            },
    {
        if ctx.grad_enabled && self.requires_grad() {
            let grad_fn = GradFn::AsStrided(
                AsStridedBackward::new(self.clone(), copied(size), copied(stride), offset),
            );
            Tensor::from_operation(storage, copied(size), grad_fn, ctx)
        } else {
            Tensor::from_storage(storage, copied(size), false, ctx.fresh)
        }
    }

    /// The outcome of a strided copy.
    pub open spec fn copy_outcome(
        &self,
        size: Seq<usize>,
        stride: Seq<isize>,
        offset: usize,
        ctx: Context,
        r: FerrotorchResult<Plan<Tensor<T>, StridedCopy>>,
    ) -> bool {
        match strided::bounds_error(size, stride, offset, self.inner.storage.spec_len() as usize) {
            Some(reason) => r matches Err(e) && e == (FerrotorchError::InvalidArgument { reason }),
            None => match self.inner.storage.data {
                StorageBuffer::Cpu(v) => r matches Ok(Plan::Ready(t)) && t.is_dense_cpu(
                    ctx.fresh,
                    read_through(v@, size, stride, offset as int),
                    size,
                ) && t.strided_grad(
                    self,
                    size,
                    stride,
                    offset,
                    ctx.grad_enabled && self.inner.requires_grad && !ctx.inference,
                ) && t.wf() && t.in_bounds(),
                StorageBuffer::Gpu(h) => match r {
                    Ok(Plan::Ready(_)) => false,
                    Ok(Plan::Device(c)) => wide_copy_outcome(
                        h,
                        size,
                        stride,
                        offset,
                        T::dtype_spec(),
                        CudaGap::AsStridedCopy,
                        ctx,
                        Ok(c),
                    ),
                    Err(e) => wide_copy_outcome(
                        h,
                        size,
                        stride,
                        offset,
                        T::dtype_spec(),
                        CudaGap::AsStridedCopy,
                        ctx,
                        Err(e),
                    ),
                },
                _ => r matches Err(e) && e == (FerrotorchError::NotImplementedOnCuda {
                    op: CudaGap::AsStridedCopy,
                }),
            },
        }
    }

    /// The gradient part of a strided scatter.
    pub open spec fn scatter_grad(
        &self,
        base: &Tensor<T>,
        src: &Tensor<T>,
        size: Seq<usize>,
        stride: Seq<isize>,
        offset: usize,
        ctx: Context,
    ) -> bool {
        if ctx.grad_enabled && (base.inner.requires_grad || src.inner.requires_grad)
            && !ctx.inference {
            &&& self.inner.grad_fn matches Some(g) && (*g matches GradFn::AsStridedScatter(b)
                && b.is(*base, *src, size, stride, offset))
            &&& self.inner.requires_grad
            &&& !self.inner.is_leaf
        } else {
            self.is_plain(false)
        }
    }

    /// The outcome of a strided scatter.
    pub open spec fn scatter_outcome(
        &self,
        src: &Tensor<T>,
        size: Seq<usize>,
        stride: Seq<isize>,
        offset: usize,
        ctx: Context,
        r: FerrotorchResult<Plan<Tensor<T>, ScatterJob>>,
    ) -> bool {
        match strided::bounds_error(size, stride, offset, self.count() as usize) {
            Some(reason) => r matches Err(e) && e == (FerrotorchError::InvalidArgument { reason }),
            None => if size != src.inner.shape@ {
                r matches Err(e) && e == (FerrotorchError::ShapeMismatch {
                    reason: Reason::ScatterShape,
                })
            } else if (self.inner.storage.device is Cuda) != (src.inner.storage.device is Cuda) {
                r matches Err(e) && e == (FerrotorchError::DeviceMismatch {
                    expected: self.inner.storage.device,
                    got: src.inner.storage.device,
                })
            } else {
                match (self.inner.storage.data, src.inner.storage.data) {
                    (StorageBuffer::Gpu(h), StorageBuffer::Gpu(_)) => if !ctx.backend {
                        r matches Err(e) && e == FerrotorchError::DeviceUnavailable
                    } else {
                        match scatter_kernel_spec(T::dtype_spec()) {
                            None => r matches Err(e) && e == (
                            FerrotorchError::NotImplementedOnCuda {
                                op: CudaGap::AsStridedScatter,
                            }),
                            Some(k) => r matches Ok(Plan::Device(ScatterJob::Cuda(j))) && j.base.is(
                                h,
                                self.inner.shape@,
                                self.inner.strides@,
                                self.inner.offset,
                                copy_kernel_spec(T::dtype_spec()),
                            ) && src.is_source(j.source) && j.size@ == size && j.stride@ == stride
                                && j.offset == offset && j.kernel == k,
                        }
                    },
                    (StorageBuffer::Meta { .. }, _) => r matches Err(e) && e == (
                    FerrotorchError::InvalidArgument { reason: Reason::MetaHasNoData }),
                    (StorageBuffer::Cpu(_), StorageBuffer::Cpu(_)) => if !self.readable() {
                        r matches Err(e) && self.data_error() == Some(e)
                    } else if !src.readable() {
                        r matches Err(e) && src.data_error() == Some(e)
                    } else {
                        r matches Ok(Plan::Ready(t)) && t.is_dense_cpu(
                            ctx.fresh,
                            written_through(
                                self.logical(),
                                size,
                                stride,
                                offset as int,
                                src.logical(),
                            ),
                            self.inner.shape@,
                        ) && t.scatter_grad(self, src, size, stride, offset, ctx) && t.wf()
                            && t.in_bounds()
                    },
                    (StorageBuffer::Cpu(_), StorageBuffer::Meta { .. }) => r matches Err(e)
                        && if self.readable() {
                        e == (FerrotorchError::InvalidArgument { reason: Reason::MetaHasNoData })
                    } else {
                        self.data_error() == Some(e)
                    },
                    (StorageBuffer::Cpu(_), _) => if self.readable() {
                        r matches Ok(Plan::Device(ScatterJob::ThroughHost))
                    } else {
                        r matches Err(e) && self.data_error() == Some(e)
                    },
                    _ => r matches Ok(Plan::Device(ScatterJob::ThroughHost)),
                }
            },
        }
    }

    /// A copy of the tensor with `src` written, in row-major order, to the positions
    /// of a view of its elements. Without an offset the view starts at zero.
    pub fn as_strided_scatter(
        &self,
        src: &Tensor<T>,
        size: &[usize],
        stride: &[isize],
        storage_offset: Option<usize>,
        ctx: Context,
    ) -> (r: FerrotorchResult<Plan<Tensor<T>, ScatterJob>>)
        requires
            self.wf(),
            src.wf(),
            self.inner.storage.on_host() && !self.contiguous_spec() ==> self.in_bounds(),
            src.inner.storage.on_host() && !src.contiguous_spec() ==> src.in_bounds(),
        ensures
            self.scatter_outcome(src, size@, stride@, offset_or(storage_offset, 0), ctx, r),
    {
        let offset: usize = match storage_offset {
            Some(o) => o,
            None => 0,
        };
        strided::validate_bounds(size, stride, offset, self.numel())?;
        if !same_shape(size, src.shape()) {
            return Err(FerrotorchError::ShapeMismatch { reason: Reason::ScatterShape });
        }
        if self.is_cuda() != src.is_cuda() {
            return Err(
                FerrotorchError::DeviceMismatch { expected: self.device(), got: src.device() },
            );
        }
        if self.is_cuda() {
            return self.scatter_on_cuda(src, size, stride, offset, ctx);
        }
        if self.is_meta() {
            return Err(FerrotorchError::InvalidArgument { reason: Reason::MetaHasNoData });
        }
        if !self.inner.storage.is_cpu() {
            return Ok(Plan::Device(ScatterJob::ThroughHost));
        }
        let mut buf: Vec<T> = self.host_vec()?;
        if src.is_meta() {
            return Err(FerrotorchError::InvalidArgument { reason: Reason::MetaHasNoData });
        }
        if !src.inner.storage.is_cpu() {
            return Ok(Plan::Device(ScatterJob::ThroughHost));
        }
        let values: Vec<T> = src.host_vec()?;
        let n: usize = buf.len();
        let ghost before = buf@;
        let at: Vec<usize> = view_positions(size, stride, offset, n);
        scatter::scatter(&mut buf, at.as_slice(), values.as_slice());
        proof {
            assert(buf@ =~= written_through(before, size@, stride@, offset as int, values@));
        }
        let t: Tensor<T> = self.finish_strided_scatter(
            src,
            TensorStorage::cpu(buf),
            size,
            stride,
            offset,
            ctx,
        )?;
        Ok(Plan::Ready(t))
    }

    fn scatter_on_cuda(
        &self,
        src: &Tensor<T>,
        size: &[usize],
        stride: &[isize],
        offset: usize,
        ctx: Context,
    ) -> (r: FerrotorchResult<Plan<Tensor<T>, ScatterJob>>)
        requires
            self.wf(),
            src.wf(),
            self.inner.storage.device is Cuda,
            src.inner.storage.device is Cuda,
            strided::bounds_error(size@, stride@, offset, self.count() as usize) is None,
            size@ == src.inner.shape@,
        ensures
            self.scatter_outcome(src, size@, stride@, offset, ctx, r),
    {
        if !ctx.backend {
            return Err(FerrotorchError::DeviceUnavailable);
        }
        let kernel: ScatterKernel = match scatter_kernel(T::dtype()) {
            Some(k) => k,
            None => return Err(
                FerrotorchError::NotImplementedOnCuda { op: CudaGap::AsStridedScatter },
            ),
        };
        let base: GpuBufferHandle = *self.gpu_handle()?;
        let source: GpuBufferHandle = *src.gpu_handle()?;
        Ok(
            Plan::Device(
                ScatterJob::Cuda(
                    CudaScatter {
                        base: StridedCopy {
                            source: base,
                            shape: copied(self.inner.shape.as_slice()),
                            strides: copied(self.inner.strides.as_slice()),
                            offset: self.inner.offset,
                            kernel: copy_kernel(T::dtype()),
                        },
                        source: src.source_in(source),
                        size: copied(size),
                        stride: copied(stride),
                        offset,
                        kernel,
                    },
                ),
            ),
        )
    }

    /// The tensor over the storage that a strided scatter was made into.
    pub fn finish_strided_scatter(
        &self,
        src: &Tensor<T>,
        storage: TensorStorage<T>,
        size: &[usize],
        stride: &[isize],
        offset: usize,
        ctx: Context,
    ) -> (r: FerrotorchResult<Tensor<T>>)
        requires
            self.wf(),
            storage.wf(),
        ensures
            match r {
                Ok(t) => {
                    &&& self.count() <= storage.spec_len()
                    &&& t.is_dense(ctx.fresh, storage, self.inner.shape@)
                    &&& t.scatter_grad(self, src, size@, stride@, offset, ctx)
                    &&& t.wf()
                    &&& t.in_bounds()
                },
                Err(e) => {
                    &&& self.count() > storage.spec_len()
                    &&& e == crate::tensor::too_small(self.inner.shape@, storage)
                },
            },
    {
        let sh: Vec<usize> = copied(self.inner.shape.as_slice());
        if ctx.grad_enabled && (self.requires_grad() || src.requires_grad()) {
            let grad_fn = GradFn::AsStridedScatter(
                AsStridedScatterBackward::new(
                    self.clone(),
                    src.clone(),
                    copied(size),
                    copied(stride),
                    offset,
                ),
            );
            Tensor::from_operation(storage, sh, grad_fn, ctx)
        } else {
            Tensor::from_storage(storage, sh, false, ctx.fresh)
        }
    }
}

/// Whether two shapes are equal.
pub fn same_shape(a: &[usize], b: &[usize]) -> (r: bool)
    ensures
        r == (a@ == b@),
{
    if a.len() != b.len() {
        return false;
    }
    let mut i: usize = 0;
    while i < a.len()
        invariant
            i <= a.len(),
            a@.len() == b@.len(),
            forall|j: int| 0 <= j < i ==> #[trigger] a@[j] == b@[j],
        decreases a.len() - i,
    {
        if a[i] != b[i] {
            return false;
        }
        i = i + 1;
    }
    proof {
        assert(a@ =~= b@);
    }
    true
}

/// A view with the given shape, strides and offset.
pub fn as_strided<T: Float>(
    input: &Tensor<T>,
    size: &[usize],
    stride: &[isize],
    storage_offset: Option<usize>,
    ctx: Context,
) -> (r: FerrotorchResult<Tensor<T>>)
    requires
        input.inner.storage.wf(),
        shape::shape_fits(size@),
    ensures
        ({
            let offset = offset_or(storage_offset, input.inner.offset);
            match strided::bounds_error(
                size@,
                stride@,
                offset,
                input.inner.storage.spec_len() as usize,
            ) {
                Some(reason) => r matches Err(e) && e == (FerrotorchError::InvalidArgument {
                    reason,
                }),
                None => r matches Ok(t) && t.is_view_of(input, ctx.fresh, size@, stride@, offset)
                    && t.strided_grad(
                    input,
                    size@,
                    stride@,
                    offset,
                    ctx.grad_enabled && input.inner.requires_grad,
                ) && t.wf() && t.in_bounds(),
            }
        }),
{
    input.as_strided(size, stride, storage_offset, ctx)
}

/// A contiguous copy of the elements that a strided view shows.
pub fn as_strided_copy<T: Float>(
    input: &Tensor<T>,
    size: &[usize],
    stride: &[isize],
    storage_offset: Option<usize>,
    ctx: Context,
) -> (r: FerrotorchResult<Plan<Tensor<T>, StridedCopy>>)
    requires
        input.inner.storage.wf(),
        shape::shape_fits(size@),
    ensures
        input.copy_outcome(
            size@,
            stride@,
            offset_or(storage_offset, input.inner.offset),
            ctx,
            r,
        ),
{
    input.as_strided_copy(size, stride, storage_offset, ctx)
}

/// A copy of `input` with `src` written to the positions of a view.
pub fn as_strided_scatter<T: Float>(
    input: &Tensor<T>,
    src: &Tensor<T>,
    size: &[usize],
    stride: &[isize],
    storage_offset: Option<usize>,
    ctx: Context,
) -> (r: FerrotorchResult<Plan<Tensor<T>, ScatterJob>>)
    requires
        input.wf(),
        src.wf(),
        input.inner.storage.on_host() && !input.contiguous_spec() ==> input.in_bounds(),
        src.inner.storage.on_host() && !src.contiguous_spec() ==> src.in_bounds(),
    ensures
        input.scatter_outcome(src, size@, stride@, offset_or(storage_offset, 0), ctx, r),
{
    input.as_strided_scatter(src, size, stride, storage_offset, ctx)
}

/// A strided copy holds the elements that the strided view of the same shape, strides
/// and offset shows.
pub proof fn lemma_copy_of_view<T: Float>(
    source: &Tensor<T>,
    view: &Tensor<T>,
    copy: &Tensor<T>,
    size: Seq<usize>,
    stride: Seq<isize>,
    offset: usize,
    view_id: TensorId,
    copy_id: TensorId,
)
    requires
        source.inner.storage.on_host(),
        copy.wf(),
        view.is_view_of(source, view_id, size, stride, offset),
        copy.is_dense_cpu(
            copy_id,
            read_through(source.inner.storage.elements(), size, stride, offset as int),
            size,
        ),
    ensures
        copy.logical() == view.logical(),
{
    copy.lemma_dense();
    assert(copy.logical() =~= view.logical());
}

/// Where the overlap test answers `false`, a strided copy of a strided scatter
/// gives the source back, and every other position keeps its element.
pub proof fn lemma_scatter_then_copy<T>(
    data: Seq<T>,
    size: Seq<usize>,
    stride: Seq<isize>,
    offset: int,
    src: Seq<T>,
)
    requires
        strided::within(size, stride, offset, data.len() as int),
        strided::strides_nest(size, stride),
        data.len() <= usize::MAX,
        src.len() == shape::prod(size),
    ensures
        read_through(written_through(data, size, stride, offset, src), size, stride, offset)
            == src,
        forall|p: int|
            0 <= p < data.len() && (forall|k: int|
                0 <= k < shape::prod(size) ==> #[trigger] offset_at(size, stride, offset, k) != p)
                ==> #[trigger] written_through(data, size, stride, offset, src)[p] == data[p],
{
    assert forall|j: int, k: int|
        0 <= j < k < shape::prod(size) implies #[trigger] offset_at(size, stride, offset, j)
        != #[trigger] offset_at(size, stride, offset, k) by {
        if offset_at(size, stride, offset, j) == offset_at(size, stride, offset, k) {
            strided::lemma_nested_offsets_distinct(size, stride, offset, j, k);
        }
    }
    lemma_write_then_read(data, size, stride, offset, src);
}

/// A strided copy of a strided scatter holds the elements of the source of the scatter,
/// where the overlap test answers `false`.
pub proof fn lemma_copy_of_scatter<T: Float>(
    base: &Tensor<T>,
    src: &Tensor<T>,
    scattered: &Tensor<T>,
    copy: &Tensor<T>,
    size: Seq<usize>,
    stride: Seq<isize>,
    offset: usize,
    scattered_id: TensorId,
    copy_id: TensorId,
)
    requires
        base.wf(),
        src.wf(),
        copy.wf(),
        size == src.inner.shape@,
        strided::bounds_error(size, stride, offset, base.count() as usize) is None,
        strided::strides_nest(size, stride),
        scattered.is_dense_cpu(
            scattered_id,
            written_through(base.logical(), size, stride, offset as int, src.logical()),
            base.inner.shape@,
        ),
        copy.is_dense_cpu(
            copy_id,
            read_through(scattered.inner.storage.elements(), size, stride, offset as int),
            size,
        ),
    ensures
        copy.logical() == src.logical(),
{
    let sh = base.inner.shape@;
    assert(sh.take(sh.len() as int) =~= sh);
    assert(shape::prod(sh.take(sh.len() as int)) <= usize::MAX);
    lemma_scatter_then_copy(base.logical(), size, stride, offset as int, src.logical());
    copy.lemma_dense();
    assert(copy.logical() =~= src.logical());
}

/// What a storage position receives in the gradient of a strided view: the sum of
/// the gradients `g` of the view elements at that position, shared among the input
/// elements at that position where there are several.
pub open spec fn cell_grad<T: Float>(
    view_at: Seq<usize>,
    g: Seq<T>,
    input_at: Seq<usize>,
    overlap: bool,
    p: int,
) -> T {
    let total = cell_sum(T::zero_spec(), view_at, g, view_at.len() as int, p);
    let visits = cell_sum(T::zero_spec(), input_at, ones(input_at.len()), input_at.len() as int, p);
    if overlap && T::one_spec().below(visits) {
        total.over(visits)
    } else {
        total
    }
}

/// `n` ones.
pub open spec fn ones<T: Float>(n: nat) -> Seq<T> {
    Seq::new(n, |i: int| T::one_spec())
}

/// Adding at positions that all are moved by the same distance gives the same sums.
proof fn lemma_cell_sum_shift<T: Float>(
    init: T,
    at: Seq<usize>,
    moved: Seq<usize>,
    vals: Seq<T>,
    n: int,
    p: int,
    by: int,
)
    requires
        0 <= n <= at.len(),
        n <= moved.len(),
        forall|i: int| 0 <= i < n ==> #[trigger] moved[i] == at[i] - by,
    ensures
        cell_sum(init, at, vals, n, p) == cell_sum(init, moved, vals, n, p - by),
    decreases n,
{
    if n > 0 {
        assert(moved[n - 1] == at[n - 1] - by);
        lemma_cell_sum_shift(init, at, moved, vals, n - 1, p, by);
    }
}

/// How the upstream gradient gets into the base buffer of a CUDA backward pass.
#[derive(Debug)]
pub enum BaseFill {
    /// Each element is added at its position.
    AddAt(Vec<usize>),
    /// The elements, which do not share positions, are scattered into a view.
    Scatter { size: Vec<usize>, stride: Vec<isize>, offset: usize },
}

/// The steps of a CUDA backward pass: fill a base buffer of zeros, divide it by the
/// number of visits where the input overlaps itself, and gather the input's view.
#[derive(Debug)]
pub struct CudaBackward {
    pub grad: DeviceSource,
    pub base_len: usize,
    pub fill: BaseFill,
    pub visits: Option<Vec<usize>>,
    pub shape: Vec<usize>,
    pub strides: Vec<isize>,
    pub offset: usize,
    pub kernel: ScatterKernel,
}

/// What has to be done for a gradient that does not reside in host memory.
#[derive(Debug)]
pub enum BackwardJob {
    /// A tensor of zeros of the input's shape on the input's device.
    Zeros { device: crate::device::Device },
    /// The steps on a CUDA device.
    Cuda(CudaBackward),
    /// Gather a view into a contiguous CUDA buffer.
    Gather(StridedCopy),
    /// The upstream gradient is the whole of its buffer: go on with it.
    Exact,
    /// List the gradient on the host first.
    ThroughHost,
}

/// The positions are those of a view, moved down by `by`.
pub open spec fn positions_from(
    at: Seq<usize>,
    sh: Seq<usize>,
    strides: Seq<isize>,
    base: int,
    by: int,
) -> bool {
    &&& at.len() == shape::prod(sh)
    &&& forall|k: int| 0 <= k < at.len() ==> #[trigger] at[k] == offset_at(sh, strides, base, k)
        - by
}

impl<T: Float> AsStridedBackward<T> {
    /// The view and its input lie within the same storage.
    pub open spec fn wf(&self) -> bool {
        &&& self.input.wf()
        &&& self.input.in_bounds()
        &&& shape::shape_fits(self.size@)
        &&& strided::within(
            self.size@,
            self.stride@,
            self.storage_offset as int,
            self.input.inner.storage.spec_len() as int,
        )
        &&& strided::reach_fits(self.size@, self.stride@, self.storage_offset as int)
    }

    /// Neither the view nor its input is empty.
    pub open spec fn reads(&self) -> bool {
        shape::prod(self.size@) > 0 && self.input.count() > 0
    }

    /// The lowest position that the view or its input reaches.
    pub open spec fn low(&self) -> int {
        let a = self.input.inner.offset + strided::low_extent(
            self.input.inner.shape@,
            self.input.inner.strides@,
        );
        let b = self.storage_offset + strided::low_extent(self.size@, self.stride@);
        if a <= b {
            a
        } else {
            b
        }
    }

    /// The highest position that the view or its input reaches.
    pub open spec fn high(&self) -> int {
        let a = self.input.inner.offset + strided::high_extent(
            self.input.inner.shape@,
            self.input.inner.strides@,
        );
        let b = self.storage_offset + strided::high_extent(self.size@, self.stride@);
        if a >= b {
            a
        } else {
            b
        }
    }

    /// Whether input elements may share positions.
    pub open spec fn input_overlaps(&self) -> bool {
        !strided::strides_nest(self.input.inner.shape@, self.input.inner.strides@)
    }

    /// The gradient of the input for the upstream gradient `g`.
    pub open spec fn grad_input(&self, g: Seq<T>) -> Seq<T> {
        let input_at = positions(
            self.input.inner.shape@,
            self.input.inner.strides@,
            self.input.inner.offset as int,
        );
        let view_at = positions(self.size@, self.stride@, self.storage_offset as int);
        Seq::new(
            self.input.count(),
            |k: int|
                cell_grad(view_at, g, input_at, self.input_overlaps(), input_at[k] as int),
        )
    }

    proof fn lemma_nonempty(&self)
        requires
            self.wf(),
            self.reads(),
        ensures
            !strided::is_empty_shape(self.size@),
            !strided::is_empty_shape(self.input.inner.shape@),
            0 <= self.low() <= self.high(),
            self.high() < self.input.inner.storage.spec_len(),
            self.high() <= i64::MAX,
    {
        let len = self.input.inner.storage.spec_len() as int;
        strided::lemma_within_offset(
            self.size@,
            self.stride@,
            self.storage_offset as int,
            len,
            0,
        );
        strided::lemma_within_offset(
            self.input.inner.shape@,
            self.input.inner.strides@,
            self.input.inner.offset as int,
            len,
            0,
        );
        strided::lemma_extent_signs(self.size@, self.stride@);
        strided::lemma_extent_signs(self.input.inner.shape@, self.input.inner.strides@);
    }

    /// The gradient of the input, computed in host memory.
    fn backward_cpu(&self, g: &[T], base_len: usize, view_base: i64, input_base: i64, overlap: bool)
        -> (r: Vec<T>)
        requires
            self.wf(),
            self.reads(),
            g@.len() == shape::prod(self.size@),
            base_len == self.high() - self.low() + 1,
            view_base == self.storage_offset - self.low(),
            input_base == self.input.inner.offset - self.low(),
            overlap == self.input_overlaps(),
        ensures
            r@ == self.grad_input(g@),
    {
        let len: usize = self.input.storage_len();
        let ghost low = self.low();
        let ghost sh = self.input.inner.shape@;
        let ghost st = self.input.inner.strides@;
        proof {
            self.lemma_nonempty();
            strided::lemma_extent_signs(self.size@, self.stride@);
            strided::lemma_extent_signs(sh, st);
        }
        let view_at: Vec<usize> = strided::strided_offsets(
            self.size.as_slice(),
            self.stride.as_slice(),
            view_base,
            base_len,
        );
        let input_at: Vec<usize> = strided::strided_offsets(
            self.input.inner.shape.as_slice(),
            self.input.inner.strides.as_slice(),
            input_base,
            base_len,
        );
        let zero: T = T::zero();
        let one: T = T::one();
        let mut base: Vec<T> = filled(zero, base_len);
        scatter_add(&mut base, view_at.as_slice(), g);
        let ghost totals = base@;
        let ghost va = positions(self.size@, self.stride@, self.storage_offset as int);
        let ghost ia = positions(sh, st, self.input.inner.offset as int);
        proof {
            assert forall|k: int| 0 <= k < va.len() implies #[trigger] view_at@[k] == va[k]
                - low by {
                strided::lemma_within_offset(
                    self.size@,
                    self.stride@,
                    self.storage_offset as int,
                    len as int,
                    k,
                );
            }
            assert forall|k: int| 0 <= k < ia.len() implies #[trigger] input_at@[k] == ia[k]
                - low by {
                strided::lemma_within_offset(
                    sh,
                    st,
                    self.input.inner.offset as int,
                    len as int,
                    k,
                );
            }
        }
        if overlap {
            let mut visits: Vec<T> = filled(zero, base_len);
            let each: Vec<T> = filled(one, input_at.len());
            scatter_add(&mut visits, input_at.as_slice(), each.as_slice());
            proof {
                assert(each@ =~= ones(ia.len()));
            }
            let mut p: usize = 0;
            while p < base_len
                invariant
                    p <= base_len,
                    base@.len() == base_len,
                    totals.len() == base_len,
                    visits@.len() == base_len,
                    one == T::one_spec(),
                    forall|q: int| p <= q < base_len ==> #[trigger] base@[q] == totals[q],
                    forall|q: int|
                        0 <= q < p ==> #[trigger] base@[q] == (if T::one_spec().below(visits@[q]) {
                            totals[q].over(visits@[q])
                        } else {
                            totals[q]
                        }),
                decreases base_len - p,
            {
                if one.is_below(visits[p]) {
                    let share: T = base[p].div(visits[p]);
                    base.set(p, share);
                }
                p = p + 1;
            }
            proof {
                assert forall|k: int| 0 <= k < ia.len() implies #[trigger] base@[input_at@[k] as int]
                    == cell_grad(va, g@, ia, true, ia[k] as int) by {
                    let q = ia[k] - low;
                    assert(input_at@[k] == q);
                    lemma_cell_sum_shift(
                        T::zero_spec(),
                        va,
                        view_at@,
                        g@,
                        va.len() as int,
                        ia[k] as int,
                        low,
                    );
                    lemma_cell_sum_shift(
                        T::zero_spec(),
                        ia,
                        input_at@,
                        ones(ia.len()),
                        ia.len() as int,
                        ia[k] as int,
                        low,
                    );
                    assert(base@[q] == base@[input_at@[k] as int]);
                    assert(visits@[q] == cell_sum(
                        T::zero_spec(),
                        input_at@,
                        ones(ia.len()),
                        ia.len() as int,
                        q,
                    ));
                    assert(totals[q] == cell_sum(
                        T::zero_spec(),
                        view_at@,
                        g@,
                        va.len() as int,
                        q,
                    ));
                }
            }
        } else {
            proof {
                assert forall|k: int| 0 <= k < ia.len() implies #[trigger] base@[input_at@[k] as int]
                    == cell_grad(va, g@, ia, false, ia[k] as int) by {
                    assert(input_at@[k] == ia[k] - low);
                    lemma_cell_sum_shift(
                        T::zero_spec(),
                        va,
                        view_at@,
                        g@,
                        va.len() as int,
                        ia[k] as int,
                        low,
                    );
                }
            }
        }
        let out: Vec<T> = gather(base.as_slice(), input_at.as_slice());
        proof {
            assert forall|k: int| 0 <= k < out@.len() implies out@[k] == self.grad_input(g@)[k] by {
                assert(out@[k] == base@[input_at@[k] as int]);
            }
            assert(out@ =~= self.grad_input(g@));
        }
        out
    }

    /// The steps that compute the gradient of the input on a CUDA device.
    pub open spec fn cuda_outcome(
        &self,
        grad_output: &Tensor<T>,
        ctx: Context,
        r: FerrotorchResult<CudaBackward>,
    ) -> bool {
        match scatter_kernel_spec(T::dtype_spec()) {
            None => r matches Err(e) && e == (FerrotorchError::NotImplementedOnCuda {
                op: CudaGap::AsStridedBackward,
            }),
            Some(k) => if !ctx.backend {
                r matches Err(e) && e == FerrotorchError::DeviceUnavailable
            } else {
                r matches Ok(j) && ({
                    &&& j.base_len == self.high() - self.low() + 1
                    &&& j.shape@ == self.input.inner.shape@
                    &&& j.strides@ == self.input.inner.strides@
                    &&& j.offset == self.input.inner.offset - self.low()
                    &&& j.kernel == k
                    &&& grad_output.is_source(j.grad)
                    &&& match j.fill {
                        BaseFill::AddAt(at) => !strided::strides_nest(self.size@, self.stride@)
                            && positions_from(
                            at@,
                            self.size@,
                            self.stride@,
                            self.storage_offset as int,
                            self.low(),
                        ),
                        BaseFill::Scatter { size, stride, offset } => strided::strides_nest(
                            self.size@,
                            self.stride@,
                        ) && size@ == self.size@ && stride@ == self.stride@ && offset
                            == self.storage_offset - self.low(),
                    }
                    &&& match j.visits {
                        Some(at) => self.input_overlaps() && positions_from(
                            at@,
                            self.input.inner.shape@,
                            self.input.inner.strides@,
                            self.input.inner.offset as int,
                            self.low(),
                        ),
                        None => !self.input_overlaps(),
                    }
                })
            },
        }
    }

    fn backward_cuda(
        &self,
        grad_output: &Tensor<T>,
        base_len: usize,
        view_base: i64,
        input_base: i64,
        overlap: bool,
        ctx: Context,
    ) -> (r: FerrotorchResult<CudaBackward>)
        requires
            self.wf(),
            self.reads(),
            grad_output.wf(),
            grad_output.inner.storage.data is Gpu,
            base_len == self.high() - self.low() + 1,
            view_base == self.storage_offset - self.low(),
            input_base == self.input.inner.offset - self.low(),
            overlap == self.input_overlaps(),
        ensures
            self.cuda_outcome(grad_output, ctx, r),
    {
        let kernel: ScatterKernel = match scatter_kernel(T::dtype()) {
            Some(k) => k,
            None => return Err(
                FerrotorchError::NotImplementedOnCuda { op: CudaGap::AsStridedBackward },
            ),
        };
        if !ctx.backend {
            return Err(FerrotorchError::DeviceUnavailable);
        }
        proof {
            self.lemma_nonempty();
            strided::lemma_extent_signs(self.size@, self.stride@);
            strided::lemma_extent_signs(
                self.input.inner.shape@,
                self.input.inner.strides@,
            );
        }
        let handle: GpuBufferHandle = *grad_output.gpu_handle()?;
        let grad: DeviceSource = grad_output.source_in(handle);
        let fill: BaseFill = if strided::maybe_overlapping_memory(
            self.size.as_slice(),
            self.stride.as_slice(),
        ) {
            BaseFill::AddAt(
                strided::strided_offsets(
                    self.size.as_slice(),
                    self.stride.as_slice(),
                    view_base,
                    base_len,
                ),
            )
        } else {
            BaseFill::Scatter {
                size: copied(self.size.as_slice()),
                stride: copied(self.stride.as_slice()),
                offset: view_base as usize,
            }
        };
        let visits: Option<Vec<usize>> = if overlap {
            Some(
                strided::strided_offsets(
                    self.input.inner.shape.as_slice(),
                    self.input.inner.strides.as_slice(),
                    input_base,
                    base_len,
                ),
            )
        } else {
            None
        };
        Ok(
            CudaBackward {
                grad,
                base_len,
                fill,
                visits,
                shape: copied(self.input.shape()),
                strides: copied(self.input.strides()),
                offset: input_base as usize,
                kernel,
            },
        )
    }

    /// The outcome of a backward pass.
    pub open spec fn backward_outcome(
        &self,
        grad_output: &Tensor<T>,
        ctx: Context,
        r: FerrotorchResult<Plan<Option<Tensor<T>>, BackwardJob>>,
    ) -> bool {
        let sh = self.input.inner.shape@;
        if !self.input.inner.requires_grad {
            r matches Ok(Plan::Ready(t)) && t is None
        } else if !self.reads() {
            if self.input.inner.storage.device is Cuda {
                r matches Ok(Plan::Device(BackwardJob::Zeros { device })) && device
                    == self.input.inner.storage.device
            } else {
                r matches Ok(Plan::Ready(Some(t))) && t.is_dense_cpu(
                    ctx.fresh,
                    Seq::new(self.input.count(), |i: int| T::zero_spec()),
                    sh,
                ) && t.is_plain(false) && t.wf() && t.in_bounds()
            }
        } else {
            match grad_output.inner.storage.data {
                StorageBuffer::Gpu(_) => match r {
                    Ok(Plan::Device(BackwardJob::Cuda(j))) => self.cuda_outcome(
                        grad_output,
                        ctx,
                        Ok(j),
                    ),
                    Ok(_) => false,
                    Err(e) => self.cuda_outcome(grad_output, ctx, Err(e)),
                },
                StorageBuffer::Cpu(_) => if grad_output.readable() {
                    r matches Ok(Plan::Ready(Some(t))) && t.is_dense_cpu(
                        ctx.fresh,
                        self.grad_input(grad_output.logical()),
                        sh,
                    ) && t.is_plain(false) && t.wf() && t.in_bounds()
                } else {
                    r matches Err(e) && grad_output.data_error() == Some(e)
                },
                StorageBuffer::Meta { .. } => r matches Err(e) && e == (
                FerrotorchError::InvalidArgument { reason: Reason::MetaHasNoData }),
                StorageBuffer::Cubecl(_) => r matches Ok(Plan::Device(BackwardJob::ThroughHost)),
            }
        }
    }

    /// The gradient of the input, if it wants one.
    pub fn backward(&self, grad_output: &Tensor<T>, ctx: Context) -> (r: FerrotorchResult<
        Plan<Option<Tensor<T>>, BackwardJob>,
    >)
        requires
            self.wf(),
            grad_output.wf(),
            grad_output.inner.storage.on_host() && !grad_output.contiguous_spec()
                ==> grad_output.in_bounds(),
            grad_output.count() == shape::prod(self.size@),
        ensures
            self.backward_outcome(grad_output, ctx, r),
    {
        if !self.input.requires_grad() {
            return Ok(Plan::Ready(None));
        }
        let view_n: usize = shape::numel(self.size.as_slice());
        let input_n: usize = self.input.numel();
        if view_n == 0 || input_n == 0 {
            if self.input.is_cuda() {
                return Ok(Plan::Device(BackwardJob::Zeros { device: self.input.device() }));
            }
            let zeros: Vec<T> = filled(T::zero(), input_n);
            proof {
                assert(zeros@ =~= Seq::new(self.input.count(), |i: int| T::zero_spec()));
            }
            let t: Tensor<T> = Tensor::from_storage(
                TensorStorage::cpu(zeros),
                copied(self.input.shape()),
                false,
                ctx.fresh,
            )?;
            return Ok(Plan::Ready(Some(t)));
        }
        let len: usize = self.input.storage_len();
        proof {
            self.lemma_nonempty();
            assert(self.high() < len);
        }
        let (in_lo, in_hi): (i64, i64) = strided::reachable_span(
            self.input.shape(),
            self.input.strides(),
            self.input.storage_offset(),
        );
        let (out_lo, out_hi): (i64, i64) = strided::reachable_span(
            self.size.as_slice(),
            self.stride.as_slice(),
            self.storage_offset,
        );
        let shared: i64 = if in_lo <= out_lo {
            in_lo
        } else {
            out_lo
        };
        let top: i64 = if in_hi >= out_hi {
            in_hi
        } else {
            out_hi
        };
        let base_len: usize = (top - shared) as usize + 1;
        proof {
            strided::lemma_extent_signs(self.size@, self.stride@);
            strided::lemma_extent_signs(self.input.inner.shape@, self.input.inner.strides@);
        }
        let input_base: i64 = self.input.storage_offset() as i64 - shared;
        let view_base: i64 = self.storage_offset as i64 - shared;
        let overlap: bool = strided::maybe_overlapping_memory(
            self.input.shape(),
            self.input.strides(),
        );
        if grad_output.is_cuda() {
            let j: CudaBackward = self.backward_cuda(
                grad_output,
                base_len,
                view_base,
                input_base,
                overlap,
                ctx,
            )?;
            return Ok(Plan::Device(BackwardJob::Cuda(j)));
        }
        if grad_output.is_meta() {
            return Err(FerrotorchError::InvalidArgument { reason: Reason::MetaHasNoData });
        }
        if !grad_output.is_cpu() {
            return Ok(Plan::Device(BackwardJob::ThroughHost));
        }
        let g: Vec<T> = grad_output.host_vec()?;
        let out: Vec<T> = self.backward_cpu(
            g.as_slice(),
            base_len,
            view_base,
            input_base,
            overlap,
        );
        let t: Tensor<T> = Tensor::from_storage(
            TensorStorage::cpu(out),
            copied(self.input.shape()),
            false,
            ctx.fresh,
        )?;
        Ok(Plan::Ready(Some(t)))
    }
}

impl<T: Float> AsStridedBackward<T> {
    /// Where neither the view nor its input overlaps itself, an input element that
    /// the view shows receives the gradient of that view element on top of zero.
    pub proof fn lemma_grad_of_shown(&self, g: Seq<T>, j: int, k: int)
        requires
            self.wf(),
            self.input.inner.storage.spec_len() <= usize::MAX,
            strided::strides_nest(self.size@, self.stride@),
            !self.input_overlaps(),
            0 <= j < shape::prod(self.size@),
            0 <= k < self.input.count(),
            offset_at(self.size@, self.stride@, self.storage_offset as int, j) == offset_at(
                self.input.inner.shape@,
                self.input.inner.strides@,
                self.input.inner.offset as int,
                k,
            ),
        ensures
            self.grad_input(g)[k] == T::zero_spec().plus(g[j]),
    {
        self.lemma_view_distinct();
        let at = positions(self.size@, self.stride@, self.storage_offset as int);
        scatter::lemma_cell_sum_distinct(T::zero_spec(), at, g, at.len() as int, j);
    }

    /// An input element that no element of the view shows, in an input that does not
    /// overlap itself, receives zero.
    pub proof fn lemma_grad_of_hidden(&self, g: Seq<T>, k: int)
        requires
            self.wf(),
            self.input.inner.storage.spec_len() <= usize::MAX,
            !self.input_overlaps(),
            0 <= k < self.input.count(),
            forall|j: int|
                0 <= j < shape::prod(self.size@) ==> #[trigger] offset_at(
                    self.size@,
                    self.stride@,
                    self.storage_offset as int,
                    j,
                ) != offset_at(
                    self.input.inner.shape@,
                    self.input.inner.strides@,
                    self.input.inner.offset as int,
                    k,
                ),
        ensures
            self.grad_input(g)[k] == T::zero_spec(),
    {
        let len = self.input.inner.storage.spec_len() as int;
        let at = positions(self.size@, self.stride@, self.storage_offset as int);
        let p = offset_at(
            self.input.inner.shape@,
            self.input.inner.strides@,
            self.input.inner.offset as int,
            k,
        );
        strided::lemma_within_offset(
            self.input.inner.shape@,
            self.input.inner.strides@,
            self.input.inner.offset as int,
            len,
            k,
        );
        assert forall|j: int| 0 <= j < at.len() implies #[trigger] at[j] != p by {
            strided::lemma_within_offset(
                self.size@,
                self.stride@,
                self.storage_offset as int,
                len,
                j,
            );
            assert(offset_at(self.size@, self.stride@, self.storage_offset as int, j) != p);
        }
        scatter::lemma_cell_sum_untouched(T::zero_spec(), at, g, at.len() as int, p);
    }

    proof fn lemma_view_distinct(&self)
        requires
            self.wf(),
            self.input.inner.storage.spec_len() <= usize::MAX,
            strided::strides_nest(self.size@, self.stride@),
        ensures
            scatter::distinct(
                positions(self.size@, self.stride@, self.storage_offset as int),
                shape::prod(self.size@) as int,
            ),
    {
        let at = positions(self.size@, self.stride@, self.storage_offset as int);
        let len = self.input.inner.storage.spec_len() as int;
        let base = self.storage_offset as int;
        assert forall|i: int, j: int| 0 <= i < j < at.len() implies #[trigger] at[i]
            != #[trigger] at[j] by {
            strided::lemma_within_offset(self.size@, self.stride@, base, len, i);
            strided::lemma_within_offset(self.size@, self.stride@, base, len, j);
            if at[i] == at[j] {
                strided::lemma_nested_offsets_distinct(self.size@, self.stride@, base, i, j);
            }
        }
    }
}

/// The tensor over exactly its own elements in row-major order: the tensor itself,
/// if it already is the whole of its storage in order.
pub fn exact_contiguous<T: Float>(t: &Tensor<T>, ctx: Context) -> (r: FerrotorchResult<
    Plan<Tensor<T>, BackwardJob>,
>)
    requires
        t.wf(),
        t.inner.storage.on_host() && !t.contiguous_spec() ==> t.in_bounds(),
    ensures
        exact_outcome(t, ctx, r),
{
    if t.is_contiguous() && t.storage_offset() == 0 && t.storage_len() == t.numel() {
        return Ok(Plan::Ready(t.clone()));
    }
    match &t.inner.storage.data {
        StorageBuffer::Gpu(h) => {
            let c: StridedCopy = wide_copy(
                *h,
                t.shape(),
                t.strides(),
                t.storage_offset(),
                T::dtype(),
                CudaGap::AsStridedCopy,
                ctx,
            )?;
            Ok(Plan::Device(BackwardJob::Gather(c)))
        },
        StorageBuffer::Cpu(_) => {
            let data: Vec<T> = t.host_vec()?;
            let exact: Tensor<T> = Tensor::from_storage(
                TensorStorage::cpu(data),
                copied(t.shape()),
                false,
                ctx.fresh,
            )?;
            Ok(Plan::Ready(exact))
        },
        StorageBuffer::Meta { .. } => Err(
            FerrotorchError::InvalidArgument { reason: Reason::MetaHasNoData },
        ),
        StorageBuffer::Cubecl(_) => Ok(Plan::Device(BackwardJob::ThroughHost)),
    }
}

/// What [`exact_contiguous`] comes to.
pub open spec fn exact_outcome<T: Float>(
    t: &Tensor<T>,
    ctx: Context,
    r: FerrotorchResult<Plan<Tensor<T>, BackwardJob>>,
) -> bool {
    if !t.needs_gather() {
        r matches Ok(Plan::Ready(x)) && x == *t
    } else {
        match t.inner.storage.data {
            StorageBuffer::Gpu(h) => match r {
                Ok(Plan::Device(BackwardJob::Gather(c))) => wide_copy_outcome(
                    h,
                    t.inner.shape@,
                    t.inner.strides@,
                    t.inner.offset,
                    T::dtype_spec(),
                    CudaGap::AsStridedCopy,
                    ctx,
                    Ok(c),
                ),
                Ok(_) => false,
                Err(e) => wide_copy_outcome(
                    h,
                    t.inner.shape@,
                    t.inner.strides@,
                    t.inner.offset,
                    T::dtype_spec(),
                    CudaGap::AsStridedCopy,
                    ctx,
                    Err(e),
                ),
            },
            StorageBuffer::Cpu(_) => if t.readable() {
                r matches Ok(Plan::Ready(x)) && x.is_dense_cpu(
                    ctx.fresh,
                    t.logical(),
                    t.inner.shape@,
                ) && x.is_plain(false) && x.wf() && x.in_bounds()
            } else {
                r matches Err(e) && t.data_error() == Some(e)
            },
            StorageBuffer::Meta { .. } => r matches Err(e) && e == (
            FerrotorchError::InvalidArgument { reason: Reason::MetaHasNoData }),
            StorageBuffer::Cubecl(_) => r matches Ok(Plan::Device(BackwardJob::ThroughHost)),
        }
    }
}

impl<T: Float> AsStridedScatterBackward<T> {
    /// The view lies within the elements of the result.
    pub open spec fn wf(&self, numel: nat) -> bool {
        &&& shape::shape_fits(self.size@)
        &&& strided::bounds_error(
            self.size@,
            self.stride@,
            self.storage_offset,
            numel as usize,
        ) is None
    }

    /// The gradients of the input and of the source for an upstream gradient in host
    /// memory: the former is the upstream gradient with the view set to zero, the
    /// latter is the part of it that the view shows.
    pub fn backward(&self, grad_output: &Tensor<T>, ctx: Context, src_id: TensorId) -> (r:
        FerrotorchResult<Plan<(Option<Tensor<T>>, Option<Tensor<T>>), BackwardJob>>)
        requires
            grad_output.wf(),
            grad_output.inner.storage.on_host() && !grad_output.contiguous_spec()
                ==> grad_output.in_bounds(),
            self.wf(grad_output.count()),
        ensures
            match grad_output.inner.storage.data {
                StorageBuffer::Cpu(_) => if grad_output.readable() {
                    r matches Ok(Plan::Ready((a, b))) && ({
                        &&& a is Some == self.input.inner.requires_grad
                        &&& a matches Some(t) ==> t.is_dense_cpu(
                            ctx.fresh,
                            written_through(
                                grad_output.logical(),
                                self.size@,
                                self.stride@,
                                self.storage_offset as int,
                                Seq::new(shape::prod(self.size@), |i: int| T::zero_spec()),
                            ),
                            grad_output.inner.shape@,
                        ) && t.is_plain(false)
                        &&& b is Some == self.src.inner.requires_grad
                        &&& b matches Some(t) ==> t.is_dense_cpu(
                            src_id,
                            read_through(
                                grad_output.logical(),
                                self.size@,
                                self.stride@,
                                self.storage_offset as int,
                            ),
                            self.size@,
                        ) && t.is_plain(false)
                    })
                } else {
                    r matches Err(e) && grad_output.data_error() == Some(e)
                },
                _ => match r {
                    Ok(Plan::Ready(_)) => false,
                    Ok(Plan::Device(BackwardJob::Exact)) => exact_outcome(
                        grad_output,
                        ctx,
                        Ok(Plan::Ready(*grad_output)),
                    ),
                    Ok(Plan::Device(j)) => exact_outcome(grad_output, ctx, Ok(Plan::Device(j))),
                    Err(e) => exact_outcome(grad_output, ctx, Err(e)),
                },
            },
    {
        if !grad_output.inner.storage.is_cpu() {
            return match exact_contiguous(grad_output, ctx)? {
                Plan::Ready(_) => Ok(Plan::Device(BackwardJob::Exact)),
                Plan::Device(j) => Ok(Plan::Device(j)),
            };
        }
        let g: Vec<T> = grad_output.host_vec()?;
        let n: usize = g.len();
        let at: Vec<usize> = {
            proof {
                assert(strided::within(
                    self.size@,
                    self.stride@,
                    self.storage_offset as int,
                    n as int,
                ));
            }
            view_positions(self.size.as_slice(), self.stride.as_slice(), self.storage_offset, n)
        };
        let grad_src: Option<Tensor<T>> = if self.src.requires_grad() {
            let part: Vec<T> = read_view(
                g.as_slice(),
                self.size.as_slice(),
                self.stride.as_slice(),
                self.storage_offset,
            );
            Some(
                Tensor::from_storage(
                    TensorStorage::cpu(part),
                    copied(self.size.as_slice()),
                    false,
                    src_id,
                )?,
            )
        } else {
            None
        };
        let grad_input: Option<Tensor<T>> = if self.input.requires_grad() {
            let mut rest: Vec<T> = copied(g.as_slice());
            let zeros: Vec<T> = filled(T::zero(), at.len());
            scatter::scatter(&mut rest, at.as_slice(), zeros.as_slice());
            proof {
                let zs = Seq::new(shape::prod(self.size@), |i: int| T::zero_spec());
                assert(zeros@ =~= zs);
                assert(rest@ =~= written_through(
                    g@,
                    self.size@,
                    self.stride@,
                    self.storage_offset as int,
                    zs,
                ));
            }
            Some(
                Tensor::from_storage(
                    TensorStorage::cpu(rest),
                    copied(grad_output.shape()),
                    false,
                    ctx.fresh,
                )?,
            )
        } else {
            None
        };
        Ok(Plan::Ready((grad_input, grad_src)))
    }

    /// Which gradients are due: that of the input, and that of the source.
    pub fn due(&self) -> (r: (bool, bool))
        ensures
            r == (self.input.inner.requires_grad, self.src.inner.requires_grad),
    {
        (self.input.requires_grad(), self.src.requires_grad())
    }

    /// Zeros of the shape of the view, in host memory.
    pub fn zero_source(&self, id: TensorId) -> (r: FerrotorchResult<Tensor<T>>)
        requires
            shape::shape_fits(self.size@),
        ensures
            r matches Ok(t) && t.is_dense_cpu(
                id,
                Seq::new(shape::prod(self.size@), |i: int| T::zero_spec()),
                self.size@,
            ) && t.is_plain(false) && t.wf() && t.in_bounds(),
    {
        let zeros: Vec<T> = filled(T::zero(), shape::numel(self.size.as_slice()));
        proof {
            assert(zeros@ =~= Seq::new(shape::prod(self.size@), |i: int| T::zero_spec()));
        }
        Tensor::from_storage(TensorStorage::cpu(zeros), copied(self.size.as_slice()), false, id)
    }

    /// The gradient of the input, if it is due, for an upstream gradient that is the whole
    /// of its buffer: that gradient with the positions of the view overwritten by `zeros`,
    /// which is [`AsStridedScatterBackward::zero_source`] on the same device.
    pub fn input_step(&self, grad: &Tensor<T>, zeros: &Tensor<T>, ctx: Context) -> (r:
        FerrotorchResult<Option<Plan<Tensor<T>, ScatterJob>>>)
        requires
            grad.wf(),
            zeros.wf(),
            grad.inner.storage.on_host() && !grad.contiguous_spec() ==> grad.in_bounds(),
            zeros.inner.storage.on_host() && !zeros.contiguous_spec() ==> zeros.in_bounds(),
        ensures
            if self.input.inner.requires_grad {
                match r {
                    Ok(Some(p)) => grad.scatter_outcome(
                        zeros,
                        self.size@,
                        self.stride@,
                        self.storage_offset,
                        ctx,
                        Ok(p),
                    ),
                    Ok(None) => false,
                    Err(e) => grad.scatter_outcome(
                        zeros,
                        self.size@,
                        self.stride@,
                        self.storage_offset,
                        ctx,
                        Err(e),
                    ),
                }
            } else {
                r matches Ok(None)
            },
    {
        if !self.input.requires_grad() {
            return Ok(None);
        }
        match grad.as_strided_scatter(
            zeros,
            self.size.as_slice(),
            self.stride.as_slice(),
            Some(self.storage_offset),
            ctx,
        ) {
            Ok(p) => Ok(Some(p)),
            Err(e) => Err(e),
        }
    }

    /// The gradient of the input over the storage that the device scattered into.
    pub fn finish_input(
        &self,
        grad: &Tensor<T>,
        zeros: &Tensor<T>,
        storage: TensorStorage<T>,
        ctx: Context,
    ) -> (r: FerrotorchResult<Tensor<T>>)
        requires
            grad.wf(),
            storage.wf(),
        ensures
            match r {
                Ok(t) => {
                    &&& grad.count() <= storage.spec_len()
                    &&& t.is_dense(ctx.fresh, storage, grad.inner.shape@)
                    &&& t.scatter_grad(
                        grad,
                        zeros,
                        self.size@,
                        self.stride@,
                        self.storage_offset,
                        ctx,
                    )
                    &&& t.wf()
                    &&& t.in_bounds()
                },
                Err(e) => {
                    &&& grad.count() > storage.spec_len()
                    &&& e == crate::tensor::too_small(grad.inner.shape@, storage)
                },
            },
    {
        grad.finish_strided_scatter(
            zeros,
            storage,
            self.size.as_slice(),
            self.stride.as_slice(),
            self.storage_offset,
            ctx,
        )
    }

    /// The gradient of the source, if it is due, for an upstream gradient that is the whole
    /// of its buffer: the part of that gradient that the view shows.
    pub fn src_step(&self, grad: &Tensor<T>, ctx: Context) -> (r: FerrotorchResult<
        Option<Plan<Tensor<T>, StridedCopy>>,
    >)
        requires
            grad.inner.storage.wf(),
            shape::shape_fits(self.size@),
        ensures
            if self.src.inner.requires_grad {
                match r {
                    Ok(Some(p)) => grad.copy_outcome(
                        self.size@,
                        self.stride@,
                        self.storage_offset,
                        ctx,
                        Ok(p),
                    ),
                    Ok(None) => false,
                    Err(e) => grad.copy_outcome(
                        self.size@,
                        self.stride@,
                        self.storage_offset,
                        ctx,
                        Err(e),
                    ),
                }
            } else {
                r matches Ok(None)
            },
    {
        if !self.src.requires_grad() {
            return Ok(None);
        }
        match grad.as_strided_copy(
            self.size.as_slice(),
            self.stride.as_slice(),
            Some(self.storage_offset),
            ctx,
        ) {
            Ok(p) => Ok(Some(p)),
            Err(e) => Err(e),
        }
    }

    /// The gradient of the source over the storage that the device copied into.
    pub fn finish_src(&self, grad: &Tensor<T>, storage: TensorStorage<T>, ctx: Context) -> (r:
        FerrotorchResult<Tensor<T>>)
        requires
            storage.wf(),
            shape::shape_fits(self.size@),
        ensures
            match r {
                Ok(t) => {
                    &&& shape::prod(self.size@) <= storage.spec_len()
                    &&& t.is_dense(ctx.fresh, storage, self.size@)
                    &&& t.strided_grad(
                        grad,
                        self.size@,
                        self.stride@,
                        self.storage_offset,
                        ctx.grad_enabled && grad.inner.requires_grad && !ctx.inference,
                    )
                    &&& t.wf()
                    &&& t.in_bounds()
                },
                Err(e) => {
                    &&& shape::prod(self.size@) > storage.spec_len()
                    &&& e == crate::tensor::too_small(self.size@, storage)
                },
            },
    {
        grad.finish_strided_copy(
            storage,
            self.size.as_slice(),
            self.stride.as_slice(),
            self.storage_offset,
            ctx,
        )
    }

    /// Whether the view lies within `numel` elements.
    pub fn is_valid(&self, numel: usize) -> (r: bool)
        ensures
            r == self.wf(numel as nat),
    {
        fits_shape(self.size.as_slice()) && strided::validate_bounds(
            self.size.as_slice(),
            self.stride.as_slice(),
            self.storage_offset,
            numel,
        ).is_ok()
    }
}

impl<T: Float> AsStridedBackward<T> {
    /// The gradient of the input over the storage that a device made it in.
    pub fn finish_backward(&self, storage: TensorStorage<T>, ctx: Context) -> (r:
        FerrotorchResult<Tensor<T>>)
        requires
            self.input.wf(),
            storage.wf(),
        ensures
            if self.input.count() <= storage.spec_len() {
                r matches Ok(t) && t.is_dense(ctx.fresh, storage, self.input.inner.shape@)
                    && t.is_plain(false) && t.wf() && t.in_bounds()
            } else {
                r matches Err(e) && e == crate::tensor::too_small(
                    self.input.inner.shape@,
                    storage,
                )
            },
    {
        Tensor::from_storage(storage, copied(self.input.shape()), false, ctx.fresh)
    }

    /// Whether the view and its input lie within the same storage.
    pub fn is_valid(&self) -> (r: bool)
        requires
            self.input.inner.storage.wf(),
        ensures
            r == self.wf(),
    {
        self.input.is_valid() && fits_shape(self.size.as_slice()) && fits_view(
            self.size.as_slice(),
            self.stride.as_slice(),
            self.storage_offset,
            self.input.storage_len(),
        )
    }
}

} // verus!
