//! Moving tensors between devices and element types, and reading them.
//!
//! What a device backend has to do comes back as a job; the `finish_` functions
//! take its outcome.

use crate::autograd::{Context, Plan, TensorId};
use crate::device::{CubeBufferHandle, Device, GpuBufferHandle};
use crate::dtype::{DType, Float};
use crate::error::{CudaGap, FerrotorchError, FerrotorchResult, Reason};
use crate::limits::fits_view;
use crate::scatter::copied;
use crate::shape;
use crate::storage::{CloneJob, StorageBuffer, TensorStorage, Upload};
use crate::stride_tricks::read_view;
use crate::strided;
use crate::tensor::{GradFn, MemoryFormatBackward, Tensor, ToDeviceBackward};
use crate::update::read_through;
use std::sync::Arc;
use vstd::prelude::*;

verus! {

/// The kernels that gather a view into a contiguous CUDA buffer.
#[derive(Clone, Copy, Debug, PartialEq, Eq, Structural)]
pub enum CopyKernel {
    F32,
    F64,
    U16,
}

/// The gather kernel for an element type.
pub open spec fn copy_kernel_spec(dtype: DType) -> CopyKernel {
    match dtype {
        DType::F32 => CopyKernel::F32,
        DType::F64 => CopyKernel::F64,
        DType::F16 => CopyKernel::U16,
        DType::BF16 => CopyKernel::U16,
    }
}

/// The gather kernel for an element type.
pub fn copy_kernel(dtype: DType) -> (r: CopyKernel)
    ensures
        r == copy_kernel_spec(dtype),
{
    match dtype {
        DType::F32 => CopyKernel::F32,
        DType::F64 => CopyKernel::F64,
        DType::F16 => CopyKernel::U16,
        DType::BF16 => CopyKernel::U16,
    }
}

/// A view of a CUDA buffer to be gathered into a contiguous one.
#[derive(Debug)]
pub struct StridedCopy {
    pub source: GpuBufferHandle,
    pub shape: Vec<usize>,
    pub strides: Vec<isize>,
    pub offset: usize,
    pub kernel: CopyKernel,
}

impl StridedCopy {
    /// The gather of this view.
    pub open spec fn is(
        &self,
        source: GpuBufferHandle,
        sh: Seq<usize>,
        strides: Seq<isize>,
        offset: usize,
        kernel: CopyKernel,
    ) -> bool {
        &&& self.source == source
        &&& self.shape@ == sh
        &&& self.strides@ == strides
        &&& self.offset == offset
        &&& self.kernel == kernel
    }
}

/// Where the elements of a CUDA tensor are, in row-major order.
#[derive(Debug)]
pub enum DeviceSource {
    /// The whole of a buffer.
    Whole(GpuBufferHandle),
    /// A view that has to be gathered.
    Gather(StridedCopy),
}

/// What has to be done to move a tensor.
#[derive(Debug)]
pub enum TransferJob<T> {
    /// Upload the elements to a CUDA device.
    Upload { data: Vec<T>, ordinal: usize, dtype: DType },
    /// Upload the elements to a CUDA device through pinned host memory.
    UploadPinned(Upload<T>),
    /// Read a CUDA buffer back.
    Download { source: GpuBufferHandle },
    /// Gather a view of a CUDA buffer, then read the result back.
    GatherDownload(StridedCopy),
    /// Read a portable-runtime buffer back; the elements of the tensor are then
    /// [`Tensor::shown_of`] it.
    ReadCubecl { handle: CubeBufferHandle },
    /// Move to host memory first, and from there to the target.
    ThroughCpu { target: Device },
}

impl<T: Float> Tensor<T> {
    /// A CUDA tensor is not simply the whole of its buffer in order.
    pub open spec fn needs_gather(&self) -> bool {
        !self.contiguous_spec() || self.inner.offset != 0 || self.inner.storage.spec_len()
            != self.count()
    }

    /// Whether the tensor is the whole of its buffer in order.
    pub fn is_whole_buffer(&self) -> (r: bool)
        requires
            self.wf(),
        ensures
            r == !self.needs_gather(),
    {
        self.is_contiguous() && self.storage_offset() == 0 && self.storage_len() == self.numel()
    }

    /// The gather of exactly the elements of a CUDA tensor, in row-major order.
    pub open spec fn is_gather(&self, c: StridedCopy) -> bool {
        c.is(
            self.inner.storage.data->Gpu_0,
            self.inner.shape@,
            self.inner.strides@,
            self.inner.offset,
            copy_kernel_spec(T::dtype_spec()),
        )
    }

    /// The gather of the elements from the buffer of the tensor.
    pub(crate) fn gather_from(&self, source: GpuBufferHandle) -> (r: StridedCopy)
        ensures
            r.is(
                source,
                self.inner.shape@,
                self.inner.strides@,
                self.inner.offset,
                copy_kernel_spec(T::dtype_spec()),
            ),
    {
        StridedCopy {
            source,
            shape: copied(self.shape()),
            strides: copied(self.strides()),
            offset: self.storage_offset(),
            kernel: copy_kernel(T::dtype()),
        }
    }

    /// The elements that the tensor shows of its whole buffer, read back to the host.
    pub fn shown_of(&self, buffer: &[T]) -> (r: FerrotorchResult<Vec<T>>)
        requires
            self.wf(),
        ensures
            ({
                let (sh, st) = (self.inner.shape@, self.inner.strides@);
                let base = self.inner.offset as int;
                if strided::within(sh, st, base, buffer@.len() as int) && strided::reach_fits(
                    sh,
                    st,
                    base,
                ) {
                    r matches Ok(v) && v@ == read_through(buffer@, sh, st, base)
                } else {
                    r matches Err(e) && e == (FerrotorchError::InvalidArgument {
                        reason: Reason::ViewBeyondStorage,
                    })
                }
            }),
    {
        if !fits_view(self.shape(), self.strides(), self.storage_offset(), buffer.len()) {
            return Err(FerrotorchError::InvalidArgument { reason: Reason::ViewBeyondStorage });
        }
        Ok(read_view(buffer, self.shape(), self.strides(), self.storage_offset()))
    }

    /// Where the elements of a CUDA tensor are.
    pub open spec fn is_source(&self, source: DeviceSource) -> bool {
        match source {
            DeviceSource::Whole(h) => !self.needs_gather() && h == self.inner.storage.data->Gpu_0,
            DeviceSource::Gather(c) => self.needs_gather() && self.is_gather(c),
        }
    }

    /// Where the elements of the tensor are, whose buffer is `handle`.
    pub(crate) fn source_in(&self, handle: GpuBufferHandle) -> (r: DeviceSource)
        requires
            self.wf(),
            self.inner.storage.data is Gpu,
            handle == self.inner.storage.data->Gpu_0,
        ensures
            self.is_source(r),
    {
        if self.is_whole_buffer() {
            DeviceSource::Whole(handle)
        } else {
            DeviceSource::Gather(self.gather_from(handle))
        }
    }

    /// A tensor of the same shape over the storage that its elements were gathered
    /// into: the whole of it, in order.
    pub fn packed(&self, storage: TensorStorage<T>, id: TensorId) -> (r: FerrotorchResult<
        Tensor<T>,
    >)
        requires
            self.wf(),
            storage.wf(),
        ensures
            if storage.spec_len() == self.count() {
                &&& r matches Ok(t) && t.is_dense(id, storage, self.inner.shape@) && t.is_plain(
                    false,
                ) && t.wf() && t.in_bounds() && !t.needs_gather()
            } else {
                r matches Err(e) && e == (FerrotorchError::ShapeMismatch {
                    reason: Reason::NumelMismatch {
                        got: storage.spec_len() as usize,
                        expected: self.count() as usize,
                    },
                })
            },
    {
        let n: usize = self.numel();
        if storage.len() != n {
            return Err(
                FerrotorchError::ShapeMismatch {
                    reason: Reason::NumelMismatch { got: storage.len(), expected: n },
                },
            );
        }
        let t: Tensor<T> = Tensor::from_storage(storage, copied(self.shape()), false, id)?;
        proof {
            t.lemma_dense();
        }
        Ok(t)
    }

    /// The outcome of a move that attaches a gradient edge where it must.
    pub open spec fn is_moved(&self, source: &Tensor<T>, ctx: Context) -> bool {
        if source.inner.requires_grad && ctx.grad_enabled {
            self.is_result(GradFn::ToDevice(ToDeviceBackward { source: *source }), ctx)
        } else {
            self.is_plain(false)
        }
    }

    /// The elements of a host tensor can be listed.
    pub open spec fn readable(&self) -> bool {
        self.contiguous_spec() ==> self.data_error() is None
    }

    /// The outcome of reading a CUDA tensor back to host memory.
    pub open spec fn download_outcome(
        &self,
        h: GpuBufferHandle,
        ctx: Context,
        r: FerrotorchResult<Plan<Tensor<T>, TransferJob<T>>>,
    ) -> bool {
        if !ctx.backend {
            r matches Err(e) && e == FerrotorchError::DeviceUnavailable
        } else if !self.needs_gather() {
            r matches Ok(Plan::Device(TransferJob::Download { source })) && source == h
        } else if self.inner.shape@.len() > 8 {
            r matches Err(e) && e == (FerrotorchError::NotImplementedOnCuda {
                op: CudaGap::ReadBackRank,
            })
        } else {
            r matches Ok(Plan::Device(TransferJob::GatherDownload(c))) && c.is(
                h,
                self.inner.shape@,
                self.inner.strides@,
                self.inner.offset,
                copy_kernel_spec(T::dtype_spec()),
            )
        }
    }

    /// The outcome of a move to `device`.
    pub open spec fn to_outcome(
        &self,
        device: Device,
        ctx: Context,
        r: FerrotorchResult<Plan<Tensor<T>, TransferJob<T>>>,
    ) -> bool {
        if self.inner.storage.device == device {
            r matches Ok(Plan::Ready(t)) && t == *self
        } else {
            match (self.inner.storage.data, device) {
                (_, Device::Mps(_)) => r matches Err(e) && e == (FerrotorchError::InvalidArgument {
                    reason: Reason::MpsNotWired,
                }),
                (StorageBuffer::Cpu(_), Device::Cuda(o)) => if !ctx.backend {
                    r matches Err(e) && e == FerrotorchError::DeviceUnavailable
                } else if !self.readable() {
                    r matches Err(e) && self.data_error() == Some(e)
                } else {
                    r matches Ok(Plan::Device(TransferJob::Upload { data, ordinal, dtype }))
                        && data@ == self.logical() && ordinal == o && dtype == T::dtype_spec()
                },
                (StorageBuffer::Gpu(h), Device::Cpu) => self.download_outcome(h, ctx, r),
                (StorageBuffer::Cpu(_), Device::Xpu(_)) => r matches Err(e) && e == (
                FerrotorchError::InvalidArgument { reason: Reason::CpuToXpu }),
                (StorageBuffer::Cubecl(h), Device::Cpu) => r matches Ok(
                    Plan::Device(TransferJob::ReadCubecl { handle }),
                ) && handle == h,
                (StorageBuffer::Gpu(_), Device::Cuda(_)) => r matches Ok(
                    Plan::Device(TransferJob::ThroughCpu { target }),
                ) && target == device,
                (StorageBuffer::Gpu(_), Device::Xpu(_)) => r matches Ok(
                    Plan::Device(TransferJob::ThroughCpu { target }),
                ) && target == device,
                (StorageBuffer::Cubecl(_), Device::Cuda(_)) => r matches Ok(
                    Plan::Device(TransferJob::ThroughCpu { target }),
                ) && target == device,
                (StorageBuffer::Cubecl(_), Device::Xpu(_)) => r matches Ok(
                    Plan::Device(TransferJob::ThroughCpu { target }),
                ) && target == device,
                (_, Device::Meta) => r matches Ok(Plan::Ready(t)) && t.is_dense(
                    ctx.fresh,
                    TensorStorage {
                        data: StorageBuffer::Meta {
                            numel: self.count() as usize,
                            fill_value: None,
                        },
                        device: Device::Meta,
                    },
                    self.inner.shape@,
                ) && t.is_moved(self, ctx) && t.wf() && t.in_bounds(),
                (StorageBuffer::Meta { .. }, _) => r matches Err(e) && e == (
                FerrotorchError::InvalidArgument {
                    reason: Reason::MetaToDevice { target: device },
                }),
                _ => r matches Ok(Plan::Ready(t)) && t == *self,
            }
        }
    }

    /// Moves the tensor to `device`.
    pub fn to(&self, device: Device, ctx: Context) -> (r: FerrotorchResult<
        Plan<Tensor<T>, TransferJob<T>>,
    >)
        requires
            self.wf(),
            self.inner.storage.on_host() && !self.contiguous_spec() ==> self.in_bounds(),
        ensures
            self.to_outcome(device, ctx, r),
            r matches Ok(Plan::Ready(t)) ==> t.inner.storage.device == device && t.inner.shape@
                == self.inner.shape@,
    {
        if self.device() == device {
            return Ok(Plan::Ready(self.clone()));
        }
        match (self.device(), device) {
            (_, Device::Mps(_)) => Err(
                FerrotorchError::InvalidArgument { reason: Reason::MpsNotWired },
            ),
            (Device::Cpu, Device::Cuda(ordinal)) => {
                if !ctx.backend {
                    return Err(FerrotorchError::DeviceUnavailable);
                }
                let data: Vec<T> = self.host_vec()?;
                Ok(Plan::Device(TransferJob::Upload { data, ordinal, dtype: T::dtype() }))
            },
            (Device::Cuda(_), Device::Cpu) => self.download(ctx),
            (Device::Cpu, Device::Xpu(_)) => Err(
                FerrotorchError::InvalidArgument { reason: Reason::CpuToXpu },
            ),
            (Device::Xpu(_), Device::Cpu) => match self.inner.storage.cubecl_handle() {
                Some(h) => Ok(Plan::Device(TransferJob::ReadCubecl { handle: *h })),
                None => Err(FerrotorchError::GpuTensorNotAccessible),
            },
            (Device::Cuda(_), Device::Cuda(_)) => Ok(
                Plan::Device(TransferJob::ThroughCpu { target: device }),
            ),
            (Device::Xpu(_), Device::Xpu(_)) => Ok(
                Plan::Device(TransferJob::ThroughCpu { target: device }),
            ),
            (Device::Cuda(_), Device::Xpu(_)) => Ok(
                Plan::Device(TransferJob::ThroughCpu { target: device }),
            ),
            (Device::Xpu(_), Device::Cuda(_)) => Ok(
                Plan::Device(TransferJob::ThroughCpu { target: device }),
            ),
            (_, Device::Meta) => {
                let t: Tensor<T> = self.finish_transfer(TensorStorage::meta(self.numel()), ctx)?;
                Ok(Plan::Ready(t))
            },
            (Device::Meta, _) => Err(
                FerrotorchError::InvalidArgument {
                    reason: Reason::MetaToDevice { target: device },
                },
            ),
            _ => Ok(Plan::Ready(self.clone())),
        }
    }

    /// How a CUDA tensor is read back to host memory.
    fn download(&self, ctx: Context) -> (r: FerrotorchResult<Plan<Tensor<T>, TransferJob<T>>>)
        requires
            self.wf(),
            self.inner.storage.data is Gpu,
        ensures
            self.download_outcome(self.inner.storage.data->Gpu_0, ctx, r),
    {
        if !ctx.backend {
            return Err(FerrotorchError::DeviceUnavailable);
        }
        let source: GpuBufferHandle = *self.gpu_handle()?;
        if self.is_contiguous() && self.inner.offset == 0 && source.len() == self.numel() {
            return Ok(Plan::Device(TransferJob::Download { source }));
        }
        if self.inner.shape.len() > 8 {
            return Err(FerrotorchError::NotImplementedOnCuda { op: CudaGap::ReadBackRank });
        }
        Ok(
            Plan::Device(
                TransferJob::GatherDownload(
                    StridedCopy {
                        source,
                        shape: copied(self.inner.shape.as_slice()),
                        strides: copied(self.inner.strides.as_slice()),
                        offset: self.inner.offset,
                        kernel: copy_kernel(T::dtype()),
                    },
                ),
            ),
        )
    }

    /// The number of elements in `bytes` bytes that were read back.
    pub fn readback_len(bytes: usize) -> (r: FerrotorchResult<usize>)
        ensures
            ({
                let size = T::dtype_spec().size_spec();
                r == (if bytes as nat % size == 0 {
                    Ok((bytes as nat / size) as usize)
                } else {
                    Err(
                        FerrotorchError::InvalidArgument {
                            reason: Reason::ReadBackBytes { bytes, size: size as usize },
                        },
                    )
                })
            }),
    {
        let size: usize = T::dtype().size_of();
        if bytes % size != 0 {
            return Err(
                FerrotorchError::InvalidArgument { reason: Reason::ReadBackBytes { bytes, size } },
            );
        }
        Ok(bytes / size)
    }

    /// Checks that elements read back from a portable-runtime buffer can be of
    /// this type.
    pub fn check_xpu_element() -> (r: FerrotorchResult<()>)
        ensures
            r == (if T::dtype_spec().size_spec() == 4 {
                Ok(())
            } else {
                Err(
                    FerrotorchError::InvalidArgument {
                        reason: Reason::XpuElementSize {
                            size: T::dtype_spec().size_spec() as usize,
                        },
                    },
                )
            }),
    {
        let size: usize = T::dtype().size_of();
        if size != 4 {
            return Err(FerrotorchError::InvalidArgument { reason: Reason::XpuElementSize { size } });
        }
        Ok(())
    }

    /// The moved tensor over the storage that the device made.
    pub fn finish_transfer(&self, storage: TensorStorage<T>, ctx: Context) -> (r: FerrotorchResult<
        Tensor<T>,
    >)
        requires
            self.wf(),
            storage.wf(),
        ensures
            match r {
                Ok(t) => {
                    &&& self.count() <= storage.spec_len()
                    &&& t.is_dense(ctx.fresh, storage, self.inner.shape@)
                    &&& t.is_moved(self, ctx)
                    &&& t.wf()
                    &&& t.in_bounds()
                },
                Err(e) => {
                    &&& self.count() > storage.spec_len()
                    &&& e == crate::tensor::too_small(self.inner.shape@, storage)
                },
            },
    {
        let sh: Vec<usize> = copied(self.inner.shape.as_slice());
        if self.requires_grad() && ctx.grad_enabled {
            Tensor::from_operation(
                storage,
                sh,
                GradFn::ToDevice(ToDeviceBackward { source: self.clone() }),
                ctx,
            )
        } else {
            Tensor::from_storage(storage, sh, false, ctx.fresh)
        }
    }

    /// Moves the tensor to `device`, through pinned host memory where it goes from
    /// host memory to a CUDA device.
    pub fn to_pinned(&self, device: Device, ctx: Context) -> (r: FerrotorchResult<
        Plan<Tensor<T>, TransferJob<T>>,
    >)
        requires
            self.wf(),
            self.inner.storage.on_host() && !self.contiguous_spec() ==> self.in_bounds(),
        ensures
            match (self.inner.storage.data, device) {
                (StorageBuffer::Cpu(_), Device::Cuda(o)) => {
                    let size = T::dtype_spec().size_spec();
                    if !self.readable() {
                        r matches Err(e) && self.data_error() == Some(e)
                    } else if !ctx.backend {
                        r matches Err(e) && e == FerrotorchError::DeviceUnavailable
                    } else if self.count() * size > usize::MAX {
                        r matches Err(e) && e == (FerrotorchError::InvalidArgument {
                            reason: Reason::ByteCount {
                                len: self.count() as usize,
                                size: size as usize,
                            },
                        })
                    } else {
                        r matches Ok(Plan::Device(TransferJob::UploadPinned(u))) && u.data@
                            == self.logical() && u.ordinal == o && u.dtype == T::dtype_spec()
                            && u.bytes == self.count() * size && u.pinned
                    }
                },
                _ => self.to_outcome(device, ctx, r),
            },
    {
        match (self.device(), device) {
            (Device::Cpu, Device::Cuda(_)) => {
                let data: Vec<T> = self.host_vec()?;
                match TensorStorage::on_device_pinned(data, device, ctx)? {
                    Plan::Device(u) => Ok(Plan::Device(TransferJob::UploadPinned(u))),
                    Plan::Ready(s) => {
                        proof {
                            assert(false);
                        }
                        vstd::pervasive::unreached()
                    },
                }
            },
            _ => self.to(device, ctx),
        }
    }

    /// Moves the tensor to the first CUDA device.
    pub fn cuda(&self, ctx: Context) -> (r: FerrotorchResult<Plan<Tensor<T>, TransferJob<T>>>)
        requires
            self.wf(),
            self.inner.storage.on_host() && !self.contiguous_spec() ==> self.in_bounds(),
        ensures
            self.to_outcome(Device::Cuda(0), ctx, r),
    {
        self.to(Device::Cuda(0), ctx)
    }

    /// Moves the tensor to host memory.
    pub fn cpu(&self, ctx: Context) -> (r: FerrotorchResult<Plan<Tensor<T>, TransferJob<T>>>)
        requires
            self.wf(),
            self.inner.storage.on_host() && !self.contiguous_spec() ==> self.in_bounds(),
        ensures
            self.to_outcome(Device::Cpu, ctx, r),
    {
        self.to(Device::Cpu, ctx)
    }

    /// The elements in row-major order. A device tensor has to be moved to host
    /// memory first.
    pub fn data_vec(&self, ctx: Context) -> (r: FerrotorchResult<Plan<Vec<T>, TransferJob<T>>>)
        requires
            self.wf(),
            self.inner.storage.on_host() && !self.contiguous_spec() ==> self.in_bounds(),
        ensures
            self.data_vec_outcome(ctx, r),
    {
        if self.inner.storage.is_meta() {
            return Err(FerrotorchError::InvalidArgument { reason: Reason::MetaHasNoData });
        }
        if self.is_cuda() || self.inner.storage.is_cubecl() {
            return match self.cpu(ctx)? {
                Plan::Device(j) => Ok(Plan::Device(j)),
                Plan::Ready(_) => {
                    proof {
                        assert(false);
                    }
                    vstd::pervasive::unreached()
                },
            };
        }
        Ok(Plan::Ready(self.host_vec()?))
    }

    /// The outcome of listing the elements.
    pub open spec fn data_vec_outcome(
        &self,
        ctx: Context,
        r: FerrotorchResult<Plan<Vec<T>, TransferJob<T>>>,
    ) -> bool {
        match self.inner.storage.data {
            StorageBuffer::Meta { .. } => r matches Err(e) && e == (
            FerrotorchError::InvalidArgument { reason: Reason::MetaHasNoData }),
            StorageBuffer::Cpu(_) => if self.readable() {
                r matches Ok(Plan::Ready(v)) && v@ == self.logical()
            } else {
                r matches Err(e) && self.data_error() == Some(e)
            },
            StorageBuffer::Gpu(h) => match r {
                Ok(Plan::Device(j)) => self.download_outcome(h, ctx, Ok(Plan::Device(j))),
                Ok(Plan::Ready(_)) => false,
                Err(e) => self.download_outcome(h, ctx, Err(e)),
            },
            StorageBuffer::Cubecl(h) => r matches Ok(
                Plan::Device(TransferJob::ReadCubecl { handle }),
            ) && handle == h,
        }
    }
}

/// `std::sync::Arc::try_unwrap`: the value, if there is no other reference to it,
/// else the same reference.
#[verifier::external_body]
fn take_unshared<A>(shared: Arc<A>) -> (r: Result<A, Arc<A>>)
    ensures
        match r {
            Ok(x) => x == *shared,
            Err(s) => s == shared,
        },
{
    Arc::try_unwrap(shared)
}

/// What has to be done to take the elements out of a tensor.
#[derive(Clone, Copy, Debug, PartialEq, Eq, Structural)]
pub enum UnpackJob {
    /// Copy the storage on its device.
    Clone(CloneJob),
    /// List the elements on the host and place them on this device again.
    ThroughHost { device: Device },
}

impl<T: Float> Tensor<T> {
    /// The storage that holds exactly the elements of the tensor, and its shape. The
    /// storage is moved out where nothing else refers to it, else copied.
    pub fn into_storage_and_shape(self, ctx: Context) -> (r: FerrotorchResult<
        Plan<(TensorStorage<T>, Vec<usize>), UnpackJob>,
    >)
        requires
            self.wf(),
            self.inner.storage.on_host() && !self.contiguous_spec() ==> self.in_bounds(),
        ensures
            match r {
                Ok(Plan::Ready((s, sh))) => {
                    &&& sh@ == self.inner.shape@
                    &&& s.wf()
                    &&& s.spec_len() == self.count()
                    &&& s.device == self.inner.storage.device
                    &&& self.inner.storage.on_host() ==> s.is_cpu_of(self.logical())
                    &&& self.inner.storage.on_host() && self.contiguous_spec()
                        ==> self.inner.offset + self.count() <= self.inner.storage.spec_len()
                },
                Ok(Plan::Device(_)) => self.inner.storage.data is Gpu
                    || self.inner.storage.data is Cubecl,
                Err(e) => self.inner.storage.on_host() ==> self.contiguous_spec()
                    && self.inner.offset + self.count() > self.inner.storage.spec_len() && e
                    == TensorStorage::<T>::region_error(
                    self.inner.offset,
                    self.count() as usize,
                    self.inner.storage.spec_len(),
                ),
            },
            self.unpack_job(ctx, r),
    {
        if !self.is_contiguous() {
            if self.inner.storage.is_meta() {
                return Err(FerrotorchError::InvalidArgument { reason: Reason::MetaHasNoData });
            }
            if !self.inner.storage.is_cpu() {
                return Ok(Plan::Device(UnpackJob::ThroughHost { device: self.device() }));
            }
            let data: Vec<T> = self.host_vec()?;
            return Ok(
                Plan::Ready((TensorStorage::cpu(data), copied(self.inner.shape.as_slice()))),
            );
        }
        let sh: Vec<usize> = copied(self.inner.shape.as_slice());
        let offset: usize = self.inner.offset;
        let n: usize = self.numel();
        let ghost whole = self;
        let storage: Arc<TensorStorage<T>> = match take_unshared(self.inner) {
            Ok(inner) => inner.storage,
            Err(inner) => Arc::clone(&inner.storage),
        };
        proof {
            if whole.inner.storage.on_host() && offset + n <= whole.inner.storage.spec_len() {
                whole.lemma_contiguous_run();
            }
        }
        let shared: Arc<TensorStorage<T>> = match take_unshared(storage) {
            Ok(own) => {
                if offset == 0 && own.len() == n {
                    proof {
                        if own.on_host() {
                            assert(whole.logical() =~= own.elements());
                        }
                    }
                    return Ok(Plan::Ready((own, sh)));
                }
                Arc::new(own)
            },
            Err(s) => s,
        };
        match shared.try_clone_subregion(offset, n, ctx)? {
            Plan::Ready(s) => {
                proof {
                    if s.on_host() {
                        assert(whole.logical() =~= s.elements());
                    }
                }
                Ok(Plan::Ready((s, sh)))
            },
            Plan::Device(j) => Ok(Plan::Device(UnpackJob::Clone(j))),
        }
    }

    /// What is left to the device, and which errors come, when the elements of a
    /// tensor that does not reside in host memory are taken out.
    pub open spec fn unpack_job(
        &self,
        ctx: Context,
        r: FerrotorchResult<Plan<(TensorStorage<T>, Vec<usize>), UnpackJob>>,
    ) -> bool {
        let whole = self.inner.offset == 0 && self.count() == self.inner.storage.spec_len();
        match self.inner.storage.data {
            StorageBuffer::Cpu(_) => true,
            StorageBuffer::Meta { .. } => if self.contiguous_spec() {
                r matches Ok(Plan::Ready((s, _))) && s == (if whole {
                    *self.inner.storage
                } else {
                    TensorStorage {
                        data: StorageBuffer::<T>::Meta {
                            numel: self.count() as usize,
                            fill_value: None,
                        },
                        device: Device::Meta,
                    }
                })
            } else {
                r matches Err(e) && e == (FerrotorchError::InvalidArgument {
                    reason: Reason::MetaHasNoData,
                })
            },
            _ => if !self.contiguous_spec() {
                r matches Ok(Plan::Device(j)) && j == (UnpackJob::ThroughHost {
                    device: self.inner.storage.device,
                })
            } else {
                match r {
                    Ok(Plan::Ready((s, _))) => whole && s == *self.inner.storage,
                    Ok(Plan::Device(UnpackJob::Clone(j))) => self.inner.storage.subregion_outcome(
                        self.inner.offset,
                        self.count() as usize,
                        ctx,
                        Ok(Plan::Device(j)),
                    ),
                    Ok(Plan::Device(_)) => false,
                    Err(e) => self.inner.storage.subregion_outcome(
                        self.inner.offset,
                        self.count() as usize,
                        ctx,
                        Err(e),
                    ),
                }
            },
        }
    }
}

impl<T: Float> Tensor<T> {
    /// What a copy of exactly the elements of the tensor, in storage of its own on the same
    /// device, comes to.
    pub open spec fn elements_copy_outcome(
        &self,
        ctx: Context,
        r: FerrotorchResult<Plan<TensorStorage<T>, UnpackJob>>,
    ) -> bool {
        let n = self.count() as usize;
        if self.contiguous_spec() {
            match r {
                Ok(Plan::Ready(s)) => self.inner.storage.subregion_outcome(
                    self.inner.offset,
                    n,
                    ctx,
                    Ok(Plan::Ready(s)),
                ),
                Ok(Plan::Device(UnpackJob::Clone(j))) => self.inner.storage.subregion_outcome(
                    self.inner.offset,
                    n,
                    ctx,
                    Ok(Plan::Device(j)),
                ),
                Ok(Plan::Device(_)) => false,
                Err(e) => self.inner.storage.subregion_outcome(self.inner.offset, n, ctx, Err(e)),
            }
        } else {
            match self.inner.storage.data {
                StorageBuffer::Cpu(_) => r matches Ok(Plan::Ready(s)) && s.is_cpu_of(
                    self.logical(),
                ),
                StorageBuffer::Meta { .. } => r matches Err(e) && e == (
                FerrotorchError::InvalidArgument { reason: Reason::MetaHasNoData }),
                _ => r matches Ok(Plan::Device(j)) && j == (UnpackJob::ThroughHost {
                    device: self.inner.storage.device,
                }),
            }
        }
    }

    /// A copy of exactly the elements of the tensor, in storage of its own on the same
    /// device.
    pub fn elements_copy(&self, ctx: Context) -> (r: FerrotorchResult<
        Plan<TensorStorage<T>, UnpackJob>,
    >)
        requires
            self.wf(),
            self.inner.storage.on_host() && !self.contiguous_spec() ==> self.in_bounds(),
        ensures
            self.elements_copy_outcome(ctx, r),
            r matches Ok(Plan::Ready(s)) ==> s.wf() && s.spec_len() == self.count() && s.device
                == self.inner.storage.device,
            self.inner.storage.on_host() ==> (r matches Ok(Plan::Ready(s)) ==> s.is_cpu_of(
                self.logical(),
            ) && (self.contiguous_spec() ==> self.inner.offset + self.count()
                <= self.inner.storage.spec_len())),
    {
        if self.is_contiguous() {
            proof {
                if self.inner.storage.on_host() && self.inner.offset + self.count()
                    <= self.inner.storage.spec_len() {
                    self.lemma_contiguous_run();
                }
            }
            return match self.inner.storage.try_clone_subregion(
                self.inner.offset,
                self.numel(),
                ctx,
            )? {
                Plan::Ready(s) => {
                    proof {
                        if s.on_host() {
                            assert(self.logical() =~= s.elements());
                        }
                    }
                    Ok(Plan::Ready(s))
                },
                Plan::Device(j) => Ok(Plan::Device(UnpackJob::Clone(j))),
            };
        }
        if self.inner.storage.is_meta() {
            return Err(FerrotorchError::InvalidArgument { reason: Reason::MetaHasNoData });
        }
        if !self.inner.storage.is_cpu() {
            return Ok(Plan::Device(UnpackJob::ThroughHost { device: self.device() }));
        }
        Ok(Plan::Ready(TensorStorage::cpu(self.host_vec()?)))
    }
}

/// What has to be done to change the element type of a tensor.
#[derive(Debug)]
pub enum ConvertJob<T> {
    /// Convert each of these elements.
    Host(Vec<T>),
    /// Gather the elements on their device, then convert the tensor that
    /// [`Tensor::packed`] makes of them.
    MakeContiguous(StridedCopy),
    /// Convert the CUDA buffer to this element type on its device.
    Cast { source: GpuBufferHandle, target: DType },
}

impl<T: Float> Tensor<T> {
    /// The tensor with its elements converted to type `target`, without gradient
    /// history. A tensor that already has that type shares its storage with the result.
    pub fn to_dtype(&self, target: DType, ctx: Context) -> (r: FerrotorchResult<
        Plan<Tensor<T>, ConvertJob<T>>,
    >)
        requires
            self.wf(),
            self.inner.storage.on_host() && !self.contiguous_spec() ==> self.in_bounds(),
        ensures
            if T::dtype_spec() == target {
                r matches Ok(Plan::Ready(t)) && t.is_plain(false) && t.wf() && t.logical()
                    == self.logical() && (if self.is_plain(false) {
                    t == *self
                } else {
                    t.is_same_node(self, ctx.fresh)
                })
            } else {
                match self.inner.storage.data {
                    StorageBuffer::Cpu(_) => if self.readable() {
                        r matches Ok(Plan::Device(ConvertJob::Host(v))) && v@ == self.logical()
                    } else {
                        r matches Err(e) && self.data_error() == Some(e)
                    },
                    StorageBuffer::Gpu(h) => if !ctx.backend {
                        r matches Err(e) && e == FerrotorchError::DeviceUnavailable
                    } else if self.needs_gather() {
                        r matches Ok(Plan::Device(ConvertJob::MakeContiguous(c)))
                            && self.is_gather(c)
                    } else {
                        r matches Ok(Plan::Device(ConvertJob::Cast { source, target: t })) && source
                            == h && t == target
                    },
                    _ => r matches Err(e) && e == (FerrotorchError::InvalidArgument {
                        reason: Reason::ConvertFrom { device: self.inner.storage.device },
                    }),
                }
            },
    {
        if T::dtype() == target {
            if !self.requires_grad() && self.is_leaf() && self.grad_fn().is_none() {
                return Ok(Plan::Ready(self.clone()));
            }
            return Ok(Plan::Ready(self.without_history(ctx.fresh)));
        }
        match self.device() {
            Device::Cpu => Ok(Plan::Device(ConvertJob::Host(self.host_vec()?))),
            Device::Cuda(_) => {
                if !ctx.backend {
                    return Err(FerrotorchError::DeviceUnavailable);
                }
                let source: GpuBufferHandle = *self.gpu_handle()?;
                if !self.is_whole_buffer() {
                    return Ok(Plan::Device(ConvertJob::MakeContiguous(self.gather_from(source))));
                }
                Ok(Plan::Device(ConvertJob::Cast { source, target }))
            },
            _ => Err(
                FerrotorchError::InvalidArgument {
                    reason: Reason::ConvertFrom { device: self.device() },
                },
            ),
        }
    }

    /// The tensor over the storage that its elements were converted into on their device.
    pub fn finish_cast<U: Float>(&self, storage: TensorStorage<U>, id: TensorId) -> (r:
        FerrotorchResult<Tensor<U>>)
        requires
            self.wf(),
            storage.wf(),
        ensures
            if self.count() <= storage.spec_len() {
                r matches Ok(t) && t.is_dense(id, storage, self.inner.shape@) && t.is_plain(false)
                    && t.wf() && t.in_bounds()
            } else {
                r matches Err(e) && e == crate::tensor::too_small(self.inner.shape@, storage)
            },
    {
        Tensor::from_storage(storage, copied(self.shape()), false, id)
    }

    /// The host tensor of converted elements. An element that has no counterpart
    /// in the target type is `None`, and the first such element is an error.
    pub fn finish_to_dtype<U: Float>(&self, converted: Vec<Option<U>>, id: TensorId) -> (r:
        FerrotorchResult<Tensor<U>>)
        requires
            self.wf(),
            converted@.len() == self.count(),
        ensures
            match r {
                Ok(t) => {
                    &&& forall|i: int| 0 <= i < converted@.len() ==> #[trigger] converted@[i] is Some
                    &&& t.is_dense_cpu(id, all_some(converted@), self.inner.shape@)
                    &&& t.is_plain(false)
                    &&& t.wf()
                    &&& t.in_bounds()
                },
                Err(e) => exists|i: int|
                    {
                        &&& 0 <= i < converted@.len()
                        &&& #[trigger] converted@[i] is None
                        &&& forall|j: int| 0 <= j < i ==> #[trigger] converted@[j] is Some
                        &&& e == (FerrotorchError::InvalidArgument {
                            reason: Reason::NotRepresentable { index: i as usize },
                        })
                    },
            },
    {
        let mut out: Vec<U> = Vec::new();
        let mut i: usize = 0;
        while i < converted.len()
            invariant
                i <= converted@.len(),
                out@.len() == i,
                forall|j: int| 0 <= j < i ==> #[trigger] converted@[j] is Some,
                forall|j: int| 0 <= j < i ==> #[trigger] out@[j] == converted@[j]->0,
            decreases converted.len() - i,
        {
            match converted[i] {
                Some(x) => out.push(x),
                None => {
                    proof {
                        assert(converted@[i as int] is None);
                    }
                    return Err(
                        FerrotorchError::InvalidArgument {
                            reason: Reason::NotRepresentable { index: i },
                        },
                    )
                },
            }
            i = i + 1;
        }
        proof {
            assert(out@ =~= all_some(converted@));
        }
        Tensor::from_storage(
            TensorStorage::cpu(out),
            copied(self.inner.shape.as_slice()),
            false,
            id,
        )
    }
}

/// The values of a sequence of options that are all present.
pub open spec fn all_some<U>(s: Seq<Option<U>>) -> Seq<U> {
    Seq::new(s.len(), |i: int| s[i]->0)
}

/// The elementwise sum of two sequences.
pub open spec fn sums<T: Float>(a: Seq<T>, b: Seq<T>) -> Seq<T> {
    Seq::new(a.len(), |i: int| a[i].plus(b[i]))
}

/// What has to be done to add to a gradient.
#[derive(Debug)]
pub enum AccumulateJob {
    /// Copy the elements of the incoming gradient.
    Unpack(UnpackJob),
    /// Add the elements on their CUDA device, of four bytes each if `single`.
    AddOnDevice { existing: DeviceSource, incoming: DeviceSource, single: bool },
    /// List both gradients on the host, add them with [`sum_gradients`] and place
    /// the sum on this device.
    ThroughHost { device: Device },
}

/// The sum of two gradients of the same length.
pub fn sum_gradients<T: Float>(existing: Vec<T>, incoming: &[T]) -> (r: FerrotorchResult<Vec<T>>)
    ensures
        match r {
            Ok(v) => existing@.len() == incoming@.len() && v@ == sums(existing@, incoming@),
            Err(e) => existing@.len() != incoming@.len() && e == grad_mismatch(
                incoming@.len(),
                existing@.len(),
            ),
        },
{
    if existing.len() != incoming.len() {
        return Err(
            FerrotorchError::ShapeMismatch {
                reason: Reason::NumelMismatch { got: incoming.len(), expected: existing.len() },
            },
        );
    }
    let mut out: Vec<T> = Vec::new();
    let mut i: usize = 0;
    while i < existing.len()
        invariant
            i <= existing@.len(),
            existing@.len() == incoming@.len(),
            out@.len() == i,
            forall|j: int| 0 <= j < i ==> #[trigger] out@[j] == existing@[j].plus(incoming@[j]),
        decreases existing.len() - i,
    {
        out.push(existing[i].add(incoming[i]));
        i = i + 1;
    }
    proof {
        assert(out@ =~= sums(existing@, incoming@));
    }
    Ok(out)
}

/// The error for gradients of different element counts.
pub open spec fn grad_mismatch(got: nat, expected: nat) -> FerrotorchError {
    FerrotorchError::ShapeMismatch {
        reason: Reason::NumelMismatch { got: got as usize, expected: expected as usize },
    }
}

impl<T: Float> Tensor<T> {
    /// What adding to a gradient comes to where both parts reside in host memory.
    pub open spec fn accumulate_host(
        before: Option<Tensor<T>>,
        incoming: &Tensor<T>,
        ctx: Context,
        after: Option<Tensor<T>>,
        r: FerrotorchResult<Plan<(), AccumulateJob>>,
    ) -> bool {
        match before {
            None => if incoming.contiguous_spec() && incoming.inner.offset + incoming.count()
                > incoming.inner.storage.spec_len() {
                r matches Err(e) && e == TensorStorage::<T>::region_error(
                    incoming.inner.offset,
                    incoming.count() as usize,
                    incoming.inner.storage.spec_len(),
                ) && after == before
            } else {
                &&& r == Ok::<_, FerrotorchError>(Plan::<(), AccumulateJob>::Ready(()))
                &&& after matches Some(t) && t.is_dense_cpu(
                    ctx.fresh,
                    incoming.logical(),
                    incoming.inner.shape@,
                ) && t.is_plain(false) && t.wf() && t.in_bounds()
            },
            Some(g) => if !incoming.readable() {
                r matches Err(e) && incoming.data_error() == Some(e) && after == before
            } else if !g.readable() {
                r matches Err(e) && g.data_error() == Some(e) && after == before
            } else if g.count() != incoming.count() {
                r matches Err(e) && e == grad_mismatch(incoming.count(), g.count()) && after
                    == before
            } else {
                &&& r == Ok::<_, FerrotorchError>(Plan::<(), AccumulateJob>::Ready(()))
                &&& after matches Some(t) && t.is_dense_cpu(
                    ctx.fresh,
                    sums(g.logical(), incoming.logical()),
                    g.inner.shape@,
                ) && t.is_plain(false) && t.wf() && t.in_bounds()
            },
        }
    }

    /// What adding `incoming` to a gradient comes to: an empty slot takes a copy, on the
    /// device of `incoming`; two gradients add up where they reside.
    pub open spec fn accumulate_outcome(
        before: Option<Tensor<T>>,
        incoming: &Tensor<T>,
        ctx: Context,
        after: Option<Tensor<T>>,
        r: FerrotorchResult<Plan<(), AccumulateJob>>,
    ) -> bool {
        &&& incoming.inner.storage.on_host() && (before matches Some(g)
            ==> g.inner.storage.on_host()) ==> Self::accumulate_host(
            before,
            incoming,
            ctx,
            after,
            r,
        )
        &&& !(r matches Ok(Plan::Ready(_))) ==> after == before
        &&& before is None ==> (match r {
            Ok(Plan::Ready(_)) => after matches Some(t) && t.is_dense(
                ctx.fresh,
                *t.inner.storage,
                incoming.inner.shape@,
            ) && incoming.elements_copy_outcome(ctx, Ok(Plan::Ready(*t.inner.storage)))
                && t.is_plain(false) && t.wf() && t.in_bounds(),
            Ok(Plan::Device(AccumulateJob::Unpack(j))) => incoming.elements_copy_outcome(
                ctx,
                Ok(Plan::Device(j)),
            ),
            Ok(Plan::Device(_)) => false,
            Err(e) => incoming.elements_copy_outcome(ctx, Err(e)),
        })
        &&& before matches Some(g) ==> (match (g.inner.storage.data, incoming.inner.storage.data) {
            (StorageBuffer::Gpu(_), StorageBuffer::Gpu(_)) => if !ctx.backend {
                r matches Err(e) && e == FerrotorchError::DeviceUnavailable
            } else if g.count() != incoming.count() {
                r matches Err(e) && e == grad_mismatch(incoming.count(), g.count())
            } else {
                r matches Ok(
                    Plan::Device(AccumulateJob::AddOnDevice { existing: a, incoming: b, single }),
                ) && g.is_source(a) && incoming.is_source(b) && single
                    == (T::dtype_spec().size_spec() == 4)
            },
            (StorageBuffer::Cpu(_), StorageBuffer::Cpu(_)) => true,
            (_, StorageBuffer::Meta { .. }) => r matches Err(e) && e == (
            FerrotorchError::InvalidArgument { reason: Reason::MetaHasNoData }),
            (StorageBuffer::Meta { .. }, StorageBuffer::Cpu(_)) => r matches Err(e)
                && if incoming.readable() {
                e == (FerrotorchError::InvalidArgument { reason: Reason::MetaHasNoData })
            } else {
                incoming.data_error() == Some(e)
            },
            (_, StorageBuffer::Cpu(_)) => if incoming.readable() {
                r matches Ok(Plan::Device(j)) && j == (AccumulateJob::ThroughHost {
                    device: g.inner.storage.device,
                })
            } else {
                r matches Err(e) && incoming.data_error() == Some(e)
            },
            _ => r matches Ok(Plan::Device(j)) && j == (AccumulateJob::ThroughHost {
                device: g.inner.storage.device,
            }),
        })
    }

    /// Adds `incoming` to the gradient in `slot`. An empty slot takes a copy.
    pub fn accumulate_into(slot: &mut Option<Tensor<T>>, incoming: &Tensor<T>, ctx: Context) -> (r:
        FerrotorchResult<Plan<(), AccumulateJob>>)
        requires
            incoming.wf(),
            incoming.inner.storage.on_host() && !incoming.contiguous_spec()
                ==> incoming.in_bounds(),
            *old(slot) matches Some(g) ==> g.wf() && (g.inner.storage.on_host()
                && !g.contiguous_spec() ==> g.in_bounds()),
        ensures
            Self::accumulate_outcome(*old(slot), incoming, ctx, *final(slot), r),
    {
        match slot {
            None => {
                match incoming.elements_copy(ctx)? {
                    Plan::Ready(storage) => {
                        let sh: Vec<usize> = copied(incoming.shape());
                        let t: Tensor<T> = Tensor::from_storage(storage, sh, false, ctx.fresh)?;
                        *slot = Some(t);
                        Ok(Plan::Ready(()))
                    },
                    Plan::Device(j) => Ok(Plan::Device(AccumulateJob::Unpack(j))),
                }
            },
            Some(existing) => {
                if existing.is_cuda() && incoming.is_cuda() {
                    if !ctx.backend {
                        return Err(FerrotorchError::DeviceUnavailable);
                    }
                    if existing.numel() != incoming.numel() {
                        return Err(
                            FerrotorchError::ShapeMismatch {
                                reason: Reason::NumelMismatch {
                                    got: incoming.numel(),
                                    expected: existing.numel(),
                                },
                            },
                        );
                    }
                    let a: GpuBufferHandle = *existing.gpu_handle()?;
                    let b: GpuBufferHandle = *incoming.gpu_handle()?;
                    return Ok(
                        Plan::Device(
                            AccumulateJob::AddOnDevice {
                                existing: existing.source_in(a),
                                incoming: incoming.source_in(b),
                                single: T::dtype().size_of() == 4,
                            },
                        ),
                    );
                }
                if incoming.is_meta() {
                    return Err(FerrotorchError::InvalidArgument { reason: Reason::MetaHasNoData });
                }
                if !incoming.is_cpu() {
                    return Ok(
                        Plan::Device(AccumulateJob::ThroughHost { device: existing.device() }),
                    );
                }
                let incoming_data: Vec<T> = incoming.host_vec()?;
                if existing.is_meta() {
                    return Err(FerrotorchError::InvalidArgument { reason: Reason::MetaHasNoData });
                }
                if !existing.is_cpu() {
                    return Ok(
                        Plan::Device(AccumulateJob::ThroughHost { device: existing.device() }),
                    );
                }
                let buf: Vec<T> = existing.host_vec()?;
                let total: Vec<T> = sum_gradients(buf, incoming_data.as_slice())?;
                let sh: Vec<usize> = copied(existing.shape());
                let t: Tensor<T> = Tensor::from_storage(
                    TensorStorage::cpu(total),
                    sh,
                    false,
                    ctx.fresh,
                )?;
                *slot = Some(t);
                Ok(Plan::Ready(()))
            },
        }
    }
}

impl<T: Float> Tensor<T> {
    /// What [`Tensor::finish_accumulate`] comes to.
    pub open spec fn finish_accumulate_outcome(
        before: Option<Tensor<T>>,
        incoming: &Tensor<T>,
        storage: TensorStorage<T>,
        ctx: Context,
        after: Option<Tensor<T>>,
        r: FerrotorchResult<()>,
    ) -> bool {
        let sh = match before {
            Some(g) => g.inner.shape@,
            None => incoming.inner.shape@,
        };
        if shape::prod(sh) <= storage.spec_len() {
            &&& r is Ok
            &&& after matches Some(t) && t.is_dense(ctx.fresh, storage, sh) && t.is_plain(false)
                && t.wf() && t.in_bounds()
        } else {
            &&& r matches Err(e) && e == crate::tensor::too_small(sh, storage)
            &&& after == before
        }
    }

    /// Puts what a device made of a gradient and `incoming` into `slot`: it keeps the shape
    /// of the gradient, an empty slot takes that of `incoming`.
    pub fn finish_accumulate(
        slot: &mut Option<Tensor<T>>,
        incoming: &Tensor<T>,
        storage: TensorStorage<T>,
        ctx: Context,
    ) -> (r: FerrotorchResult<()>)
        requires
            incoming.wf(),
            *old(slot) matches Some(g) ==> g.wf(),
            storage.wf(),
        ensures
            Self::finish_accumulate_outcome(*old(slot), incoming, storage, ctx, *final(slot), r),
    {
        let sh: Vec<usize> = match slot {
            Some(g) => copied(g.shape()),
            None => copied(incoming.shape()),
        };
        let t: Tensor<T> = Tensor::from_storage(storage, sh, false, ctx.fresh)?;
        *slot = Some(t);
        Ok(())
    }
}

impl<T: Float> ToDeviceBackward<T> {
    /// The gradient of the source: that of the result, on the source's device.
    pub fn backward(&self, grad_output: &Tensor<T>, ctx: Context) -> (r: FerrotorchResult<
        Plan<Tensor<T>, TransferJob<T>>,
    >)
        requires
            grad_output.wf(),
            grad_output.inner.storage.on_host() && !grad_output.contiguous_spec()
                ==> grad_output.in_bounds(),
        ensures
            grad_output.to_outcome(self.source.inner.storage.device, ctx, r),
    {
        let target: Device = self.source.device();
        if grad_output.device() == target {
            Ok(Plan::Ready(grad_output.clone()))
        } else {
            grad_output.to(target, ctx)
        }
    }
}

impl<T: Float> MemoryFormatBackward<T> {
    /// The gradient of the source: that of the result, if the source wants one.
    pub fn backward(&self, grad_output: &Tensor<T>) -> (r: Option<Tensor<T>>)
        ensures
            r == (if self.source.inner.requires_grad {
                Some(*grad_output)
            } else {
                None
            }),
    {
        if self.source.requires_grad() {
            Some(grad_output.clone())
        } else {
            None
        }
    }
}

} // verus!
