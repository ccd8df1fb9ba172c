//! The buffer under a tensor.
//!
//! Host elements are held directly. Device buffers are held by their handles;
//! what only a device backend can do is returned as a value that says what has
//! to be done.

use crate::autograd::{Context, Plan};
use crate::device::{CubeBufferHandle, Device, GpuBufferHandle};
use crate::dtype::{DType, Float};
use crate::error::{FerrotorchError, FerrotorchResult, Reason};
use crate::scatter::copied;
use vstd::prelude::*;
use vstd::slice::*;

verus! {

/// The elements of a tensor in host memory.
#[derive(Debug)]
pub struct CpuBuffer<T: Copy> {
    pub cells: Vec<T>,
}

impl<T: Copy> View for CpuBuffer<T> {
    type V = Seq<T>;

    open spec fn view(&self) -> Seq<T> {
        self.cells@
    }
}

impl<T: Copy> CpuBuffer<T> {
    /// Takes over a vector without copying it.
    pub fn from_vec(v: Vec<T>) -> (r: Self)
        ensures
            r@ == v@,
    {
        CpuBuffer { cells: v }
    }

    /// Gives the vector back without copying it.
    pub fn into_vec(self) -> (r: Vec<T>)
        ensures
            r@ == self@,
    {
        self.cells
    }

    /// Number of elements.
    pub fn len(&self) -> (r: usize)
        ensures
            r == self@.len(),
    {
        self.cells.len()
    }

    /// Whether the buffer holds no element.
    pub fn is_empty(&self) -> (r: bool)
        ensures
            r == (self@.len() == 0),
    {
        self.cells.len() == 0
    }

    /// The elements.
    pub fn as_slice(&self) -> (r: &[T])
        ensures
            r@ == self@,
    {
        self.cells.as_slice()
    }

    /// The elements, to be changed in place.
    pub fn as_mut_slice(&mut self) -> (r: &mut [T])
        ensures
            r@ == old(self)@,
            final(self)@ == final(r)@,
    {
        self.cells.as_mut_slice()
    }

    /// Copies `src` over the elements from `offset` on.
    pub fn copy_from_slice_at(&mut self, offset: usize, src: &[T])
        requires
            offset + src@.len() <= old(self)@.len(),
        ensures
            final(self)@ == overwritten(old(self)@, offset as int, src@),
    {
        let len: usize = self.cells.len();
        let mut i: usize = 0;
        proof {
            assert(overwritten(self@, offset as int, src@.take(0)) =~= self@);
        }
        while i < src.len()
            invariant
                i <= src@.len(),
                len == old(self)@.len(),
                offset + src@.len() <= len,
                self@ == overwritten(old(self)@, offset as int, src@.take(i as int)),
            decreases src.len() - i,
        {
            self.cells.set(offset + i, src[i]);
            i = i + 1;
            proof {
                assert(self@ =~= overwritten(old(self)@, offset as int, src@.take(i as int)));
            }
        }
        proof {
            assert(src@.take(i as int) =~= src@);
        }
    }
}

/// `data` with the elements from `offset` on replaced by those of `src`.
pub open spec fn overwritten<T>(data: Seq<T>, offset: int, src: Seq<T>) -> Seq<T> {
    Seq::new(
        data.len(),
        |p: int|
            if offset <= p < offset + src.len() {
                src[p - offset]
            } else {
                data[p]
            },
    )
}

/// A buffer, by where it resides.
#[derive(Debug)]
pub enum StorageBuffer<T: Copy> {
    /// Elements in host memory.
    Cpu(CpuBuffer<T>),
    /// CUDA device memory.
    Gpu(GpuBufferHandle),
    /// Memory of a portable-runtime device.
    Cubecl(CubeBufferHandle),
    /// No memory: only the number of elements, and the value that a filled
    /// tensor would hold.
    Meta { numel: usize, fill_value: Option<T> },
}

/// The buffer of a tensor, tagged with its device.
#[derive(Debug)]
pub struct TensorStorage<T: Copy> {
    pub data: StorageBuffer<T>,
    pub device: Device,
}

/// Elements to be uploaded to a CUDA device, through pinned host memory if
/// `pinned`. The storage is [`TensorStorage::gpu`] of the handle that comes back.
#[derive(Debug)]
pub struct Upload<T> {
    pub data: Vec<T>,
    pub ordinal: usize,
    pub dtype: DType,
    pub bytes: usize,
    pub pinned: bool,
}

/// A copy of a buffer that its device has to make.
#[derive(Clone, Copy, Debug, PartialEq, Eq, Structural)]
pub enum CloneJob {
    /// Clone the CUDA buffer.
    Gpu(GpuBufferHandle),
    /// Clone the portable-runtime buffer.
    Cubecl(CubeBufferHandle),
    /// Read the bytes `start..end` of the CUDA buffer back and upload them, with
    /// the element type and to the device of the source.
    GpuBytes { source: GpuBufferHandle, start: usize, end: usize },
}

/// The number of bytes of `len` elements of `size` bytes each.
pub fn checked_byte_count(len: usize, size: usize) -> (r: FerrotorchResult<usize>)
    ensures
        r == (if len * size <= usize::MAX {
            Ok((len * size) as usize)
        } else {
            Err(FerrotorchError::InvalidArgument { reason: Reason::ByteCount { len, size } })
        }),
{
    match len.checked_mul(size) {
        Some(n) => Ok(n),
        None => Err(FerrotorchError::InvalidArgument { reason: Reason::ByteCount { len, size } }),
    }
}

impl<T: Copy> TensorStorage<T> {
    /// The buffer resides where the tag says.
    pub open spec fn wf(&self) -> bool {
        match self.data {
            StorageBuffer::Cpu(_) => self.device is Cpu,
            StorageBuffer::Gpu(h) => self.device == Device::Cuda(h.ordinal),
            StorageBuffer::Cubecl(_) => self.device is Xpu,
            StorageBuffer::Meta { .. } => self.device is Meta,
        }
    }

    /// The elements reside in host memory.
    pub open spec fn on_host(&self) -> bool {
        self.data is Cpu
    }

    /// The number of elements.
    pub open spec fn spec_len(&self) -> nat {
        match self.data {
            StorageBuffer::Cpu(v) => v@.len(),
            StorageBuffer::Gpu(h) => h.len as nat,
            StorageBuffer::Cubecl(h) => h.len as nat,
            StorageBuffer::Meta { numel, .. } => numel as nat,
        }
    }

    /// The elements of host storage.
    pub open spec fn elements(&self) -> Seq<T>
        recommends
            self.data is Cpu,
    {
        self.data->Cpu_0@
    }

    /// Storage on the same device with the same contents: equal elements in host memory,
    /// else the same buffer.
    pub open spec fn same_contents(&self, other: &TensorStorage<T>) -> bool {
        &&& self.device == other.device
        &&& match (self.data, other.data) {
            (StorageBuffer::Cpu(_), StorageBuffer::Cpu(_)) => self.elements() == other.elements(),
            (StorageBuffer::Gpu(g), StorageBuffer::Gpu(h)) => g == h,
            (StorageBuffer::Cubecl(g), StorageBuffer::Cubecl(h)) => g == h,
            (
                StorageBuffer::Meta { numel: a, .. },
                StorageBuffer::Meta { numel: b, .. },
            ) => a == b,
            _ => false,
        }
    }

    /// Host storage of these elements.
    pub open spec fn is_cpu_of(&self, elements: Seq<T>) -> bool {
        self.device is Cpu && self.data is Cpu && self.elements() == elements
    }

    /// Host storage from a vector.
    pub fn cpu(data: Vec<T>) -> (r: Self)
        ensures
            r.is_cpu_of(data@),
            r.wf(),
    {
        TensorStorage { data: StorageBuffer::Cpu(CpuBuffer::from_vec(data)), device: Device::Cpu }
    }

    /// Storage without memory for `numel` elements.
    pub fn meta(numel: usize) -> (r: Self)
        ensures
            r == (TensorStorage {
                data: StorageBuffer::<T>::Meta { numel, fill_value: None },
                device: Device::Meta,
            }),
            r.wf(),
    {
        TensorStorage {
            data: StorageBuffer::Meta { numel, fill_value: None },
            device: Device::Meta,
        }
    }

    /// Storage without memory for `numel` elements that records a fill value.
    pub fn meta_filled(numel: usize, value: T) -> (r: Self)
        ensures
            r == (TensorStorage {
                data: StorageBuffer::Meta { numel, fill_value: Some(value) },
                device: Device::Meta,
            }),
            r.wf(),
    {
        TensorStorage {
            data: StorageBuffer::Meta { numel, fill_value: Some(value) },
            device: Device::Meta,
        }
    }

    /// The fill value that meta storage records, if any.
    pub fn meta_fill_value(&self) -> (r: Option<&T>)
        ensures
            match (self.data, r) {
                (StorageBuffer::Meta { fill_value: Some(v), .. }, Some(x)) => *x == v,
                (StorageBuffer::Meta { fill_value: Some(v), .. }, None) => false,
                (_, Some(x)) => false,
                (_, None) => true,
            },
    {
        match &self.data {
            StorageBuffer::Meta { fill_value: Some(v), .. } => Some(v),
            _ => None,
        }
    }

    /// Portable-runtime storage from a handle.
    pub fn xpu_from_handle(handle: CubeBufferHandle, ordinal: usize) -> (r: Self)
        ensures
            r == (TensorStorage {
                data: StorageBuffer::<T>::Cubecl(handle),
                device: Device::Xpu(ordinal),
            }),
            r.wf(),
    {
        TensorStorage { data: StorageBuffer::Cubecl(handle), device: Device::Xpu(ordinal) }
    }

    /// CUDA storage from a handle.
    pub fn gpu(handle: GpuBufferHandle) -> (r: Self)
        ensures
            r == (TensorStorage {
                data: StorageBuffer::<T>::Gpu(handle),
                device: Device::Cuda(handle.ordinal),
            }),
            r.wf(),
    {
        TensorStorage {
            device: Device::Cuda(handle.device_ordinal()),
            data: StorageBuffer::Gpu(handle),
        }
    }

    /// The device the storage resides on.
    pub fn device(&self) -> (r: Device)
        ensures
            r == self.device,
    {
        self.device
    }

    /// Number of elements.
    pub fn len(&self) -> (r: usize)
        ensures
            r == self.spec_len(),
    {
        match &self.data {
            StorageBuffer::Cpu(v) => v.len(),
            StorageBuffer::Gpu(h) => h.len(),
            StorageBuffer::Cubecl(h) => h.len(),
            StorageBuffer::Meta { numel, .. } => *numel,
        }
    }

    /// Whether the buffer is empty.
    pub fn is_empty(&self) -> (r: bool)
        ensures
            r == (self.spec_len() == 0),
    {
        self.len() == 0
    }

    /// The elements of host storage.
    pub fn as_slice(&self) -> (r: &[T])
        requires
            self.data is Cpu,
        ensures
            r@ == self.elements(),
    {
        match &self.data {
            StorageBuffer::Cpu(v) => v.as_slice(),
            _ => {
                proof {
                    assert(false);
                }
                vstd::pervasive::unreached()
            },
        }
    }

    /// The elements of host storage, to be changed in place.
    pub fn as_mut_slice(&mut self) -> (r: &mut [T])
        requires
            old(self).data is Cpu,
        ensures
            r@ == old(self).elements(),
            final(self).data is Cpu,
            final(self).elements() == final(r)@,
            final(self).device == old(self).device,
    {
        match &mut self.data {
            StorageBuffer::Cpu(v) => v.as_mut_slice(),
            _ => {
                proof {
                    assert(false);
                }
                vstd::pervasive::unreached()
            },
        }
    }

    /// The elements, if they reside in host memory.
    pub fn try_as_slice(&self) -> (r: FerrotorchResult<&[T]>)
        ensures
            match r {
                Ok(s) => self.data is Cpu && s@ == self.elements(),
                Err(e) => !(self.data is Cpu) && e == FerrotorchError::GpuTensorNotAccessible,
            },
    {
        match &self.data {
            StorageBuffer::Cpu(v) => Ok(v.as_slice()),
            _ => Err(FerrotorchError::GpuTensorNotAccessible),
        }
    }

    /// The elements, to be changed in place, if they reside in host memory.
    pub fn try_as_mut_slice(&mut self) -> (r: FerrotorchResult<&mut [T]>)
        ensures
            match r {
                Ok(s) => {
                    &&& old(self).data is Cpu
                    &&& s@ == old(self).elements()
                    &&& final(self).data is Cpu
                    &&& final(self).elements() == final(s)@
                    &&& final(self).device == old(self).device
                },
                Err(e) => {
                    &&& !(old(self).data is Cpu)
                    &&& e == FerrotorchError::GpuTensorNotAccessible
                    &&& *final(self) == *old(self)
                },
            },
    {
        match &mut self.data {
            StorageBuffer::Cpu(v) => Ok(v.as_mut_slice()),
            _ => Err(FerrotorchError::GpuTensorNotAccessible),
        }
    }

    /// Whether the elements reside in host memory.
    pub fn is_cpu(&self) -> (r: bool)
        ensures
            r == (self.data is Cpu),
    {
        matches!(self.data, StorageBuffer::Cpu(_))
    }

    /// Whether this is a CUDA buffer.
    pub fn is_gpu(&self) -> (r: bool)
        ensures
            r == (self.data is Gpu),
    {
        matches!(self.data, StorageBuffer::Gpu(_))
    }

    /// Whether this is a portable-runtime buffer.
    pub fn is_cubecl(&self) -> (r: bool)
        ensures
            r == (self.data is Cubecl),
    {
        matches!(self.data, StorageBuffer::Cubecl(_))
    }

    /// Whether there is no memory.
    pub fn is_meta(&self) -> (r: bool)
        ensures
            r == (self.data is Meta),
    {
        matches!(self.data, StorageBuffer::Meta { .. })
    }

    /// The handle of a CUDA buffer.
    pub fn gpu_handle(&self) -> (r: Option<&GpuBufferHandle>)
        ensures
            r is Some == (self.data is Gpu),
            r matches Some(h) ==> *h == self.data->Gpu_0,
    {
        match &self.data {
            StorageBuffer::Gpu(h) => Some(h),
            _ => None,
        }
    }

    /// The handle of a CUDA buffer, to be replaced.
    pub fn gpu_handle_mut(&mut self) -> (r: Option<&mut GpuBufferHandle>)
        ensures
            match r {
                Some(h) => {
                    &&& old(self).data is Gpu
                    &&& *h == old(self).data->Gpu_0
                    &&& final(self).data == StorageBuffer::<T>::Gpu(*final(h))
                    &&& final(self).device == old(self).device
                },
                None => !(old(self).data is Gpu) && *final(self) == *old(self),
            },
    {
        match &mut self.data {
            StorageBuffer::Gpu(h) => Some(h),
            _ => None,
        }
    }

    /// The handle of a portable-runtime buffer.
    pub fn cubecl_handle(&self) -> (r: Option<&CubeBufferHandle>)
        ensures
            r is Some == (self.data is Cubecl),
            r matches Some(h) ==> *h == self.data->Cubecl_0,
    {
        match &self.data {
            StorageBuffer::Cubecl(h) => Some(h),
            _ => None,
        }
    }

    /// Writes `src` into host memory from position `offset` on.
    pub fn cpu_write_at(&mut self, offset: usize, src: &[T]) -> (r: FerrotorchResult<()>)
        ensures
            final(self).device == old(self).device,
            match r {
                Ok(_) => {
                    &&& old(self).data is Cpu
                    &&& offset + src@.len() <= old(self).spec_len()
                    &&& final(self).data is Cpu
                    &&& final(self).elements() == overwritten(
                        old(self).elements(),
                        offset as int,
                        src@,
                    )
                },
                Err(e) => {
                    &&& *final(self) == *old(self)
                    &&& if old(self).data is Cpu {
                        &&& offset + src@.len() > old(self).spec_len()
                        &&& e == (FerrotorchError::InvalidArgument {
                            reason: Reason::WriteBeyondBuffer {
                                offset,
                                count: src@.len() as usize,
                                len: old(self).spec_len() as usize,
                            },
                        })
                    } else {
                        e == FerrotorchError::GpuTensorNotAccessible
                    }
                },
            },
    {
        match &mut self.data {
            StorageBuffer::Cpu(v) => {
                let len: usize = v.len();
                if src.len() <= len && offset <= len - src.len() {
                    v.copy_from_slice_at(offset, src);
                    Ok(())
                } else {
                    Err(
                        FerrotorchError::InvalidArgument {
                            reason: Reason::WriteBeyondBuffer { offset, count: src.len(), len },
                        },
                    )
                }
            },
            _ => Err(FerrotorchError::GpuTensorNotAccessible),
        }
    }

    /// Replaces the buffer by that of `new_storage`, which must reside on the
    /// same device.
    pub fn replace_buffer_aliased(&mut self, new_storage: TensorStorage<T>) -> (r: FerrotorchResult<
        (),
    >)
        ensures
            final(self).device == old(self).device,
            if new_storage.device == old(self).device {
                r == Ok::<(), FerrotorchError>(()) && final(self).data == new_storage.data
            } else {
                &&& r == Err::<(), _>(
                    FerrotorchError::DeviceMismatch {
                        expected: old(self).device,
                        got: new_storage.device,
                    },
                )
                &&& *final(self) == *old(self)
            },
    {
        if new_storage.device != self.device {
            return Err(
                FerrotorchError::DeviceMismatch { expected: self.device, got: new_storage.device },
            );
        }
        self.data = new_storage.data;
        Ok(())
    }

    /// What a copy of the whole storage comes to.
    pub open spec fn cloned_as(
        &self,
        ctx: Context,
        r: FerrotorchResult<Plan<TensorStorage<T>, CloneJob>>,
    ) -> bool {
        match self.data {
            StorageBuffer::Cpu(_) => r matches Ok(Plan::Ready(s)) && s.data is Cpu && s.elements()
                == self.elements() && s.device == self.device,
            StorageBuffer::Gpu(h) => if ctx.backend {
                r matches Ok(Plan::Device(j)) && j == CloneJob::Gpu(h)
            } else {
                r matches Err(e) && e == FerrotorchError::DeviceUnavailable
            },
            StorageBuffer::Cubecl(h) => r matches Ok(Plan::Device(j)) && j == CloneJob::Cubecl(h),
            StorageBuffer::Meta { .. } => r matches Ok(Plan::Ready(s)) && s == *self,
        }
    }

    /// A copy of the storage.
    pub fn try_clone(&self, ctx: Context) -> (r: FerrotorchResult<Plan<TensorStorage<T>, CloneJob>>)
        ensures
            self.cloned_as(ctx, r),
    {
        match &self.data {
            StorageBuffer::Cpu(v) => Ok(
                Plan::Ready(
                    TensorStorage {
                        data: StorageBuffer::Cpu(CpuBuffer::from_vec(copied(v.as_slice()))),
                        device: self.device,
                    },
                ),
            ),
            StorageBuffer::Gpu(h) => if ctx.backend {
                Ok(Plan::Device(CloneJob::Gpu(*h)))
            } else {
                Err(FerrotorchError::DeviceUnavailable)
            },
            StorageBuffer::Cubecl(h) => Ok(Plan::Device(CloneJob::Cubecl(*h))),
            StorageBuffer::Meta { numel, fill_value } => Ok(
                Plan::Ready(
                    TensorStorage {
                        data: StorageBuffer::Meta { numel: *numel, fill_value: *fill_value },
                        device: self.device,
                    },
                ),
            ),
        }
    }

    /// The error for a region that does not fit a buffer of `len` elements.
    pub open spec fn region_error(offset: usize, numel: usize, len: nat) -> FerrotorchError {
        FerrotorchError::InvalidArgument {
            reason: Reason::RegionBeyondBuffer { offset, count: numel, len: len as usize },
        }
    }
}

impl<T: Float> TensorStorage<T> {
    /// Storage on `target_device` for given elements.
    pub fn on_device(data: Vec<T>, target_device: Device, ctx: Context) -> (r: FerrotorchResult<Plan<TensorStorage<T>, Upload<T>>,
    >)
        ensures
            placement(data@, target_device, ctx, false, r),
    {
        place(data, target_device, ctx, false)
    }

    /// Storage on `target_device` for given elements, uploaded through pinned
    /// host memory where an upload is needed.
    pub fn on_device_pinned(data: Vec<T>, target_device: Device, ctx: Context) -> (r:
        FerrotorchResult<Plan<TensorStorage<T>, Upload<T>>>)
        ensures
            placement(data@, target_device, ctx, true, r),
    {
        place(data, target_device, ctx, true)
    }

    /// What a copy of the region of `numel` elements from `offset` on comes to.
    pub open spec fn subregion_outcome(
        &self,
        offset: usize,
        numel: usize,
        ctx: Context,
        r: FerrotorchResult<Plan<TensorStorage<T>, CloneJob>>,
    ) -> bool {
        if offset == 0 && numel == self.spec_len() {
            self.cloned_as(ctx, r)
        } else {
            match self.data {
                StorageBuffer::Cpu(v) => if offset + numel <= v@.len() {
                    r matches Ok(Plan::Ready(s)) && s.is_cpu_of(
                        v@.subrange(offset as int, offset + numel),
                    )
                } else {
                    r == Err::<Plan<TensorStorage<T>, CloneJob>, _>(Self::region_error(offset, numel, v@.len()))
                },
                StorageBuffer::Gpu(h) => if !ctx.backend {
                    r == Err::<Plan<TensorStorage<T>, CloneJob>, _>(FerrotorchError::DeviceUnavailable)
                } else if offset + numel > h.len {
                    r == Err::<Plan<TensorStorage<T>, CloneJob>, _>(Self::region_error(offset, numel, h.len as nat))
                } else {
                    let size = T::dtype_spec().size_spec();
                    if offset * size > usize::MAX {
                        r == Err::<Plan<TensorStorage<T>, CloneJob>, _>(
                            FerrotorchError::InvalidArgument {
                                reason: Reason::RegionBytes {
                                    position: offset,
                                    size: size as usize,
                                },
                            },
                        )
                    } else if (offset + numel) * size > usize::MAX {
                        r == Err::<Plan<TensorStorage<T>, CloneJob>, _>(
                            FerrotorchError::InvalidArgument {
                                reason: Reason::RegionBytes {
                                    position: (offset + numel) as usize,
                                    size: size as usize,
                                },
                            },
                        )
                    } else {
                        r == Ok::<_, FerrotorchError>(
                            Plan::<TensorStorage<T>, _>::Device(CloneJob::GpuBytes {
                                source: h,
                                start: (offset * size) as usize,
                                end: ((offset + numel) * size) as usize,
                            }),
                        )
                    }
                },
                StorageBuffer::Cubecl(h) => if offset + numel > h.len {
                    r == Err::<Plan<TensorStorage<T>, CloneJob>, _>(Self::region_error(offset, numel, h.len as nat))
                } else {
                    r == Err::<Plan<TensorStorage<T>, CloneJob>, _>(
                        FerrotorchError::InvalidArgument {
                            reason: Reason::XpuRegion { offset, count: numel },
                        },
                    )
                },
                StorageBuffer::Meta { .. } => r matches Ok(Plan::Ready(s)) && s == (
                TensorStorage {
                    data: StorageBuffer::<T>::Meta { numel, fill_value: None },
                    device: Device::Meta,
                }),
            }
        }
    }

    /// A copy of the region of `numel` elements from `offset` on.
    pub fn try_clone_subregion(&self, offset: usize, numel: usize, ctx: Context) -> (r:
        FerrotorchResult<Plan<TensorStorage<T>, CloneJob>>)
        ensures
            self.subregion_outcome(offset, numel, ctx, r),
    {
        if offset == 0 && numel == self.len() {
            return self.try_clone(ctx);
        }
        match &self.data {
            StorageBuffer::Cpu(v) => {
                let end: usize = region_end(offset, numel, v.len())?;
                let part: &[T] = slice_subrange(v.as_slice(), offset, end);
                Ok(Plan::Ready(Self::cpu(copied(part))))
            },
            StorageBuffer::Gpu(h) => {
                if !ctx.backend {
                    return Err(FerrotorchError::DeviceUnavailable);
                }
                let size: usize = T::dtype().size_of();
                let elem_end: usize = region_end(offset, numel, h.len())?;
                let start: usize = match offset.checked_mul(size) {
                    Some(n) => n,
                    None => return Err(
                        FerrotorchError::InvalidArgument {
                            reason: Reason::RegionBytes { position: offset, size },
                        },
                    ),
                };
                let end: usize = match elem_end.checked_mul(size) {
                    Some(n) => n,
                    None => return Err(
                        FerrotorchError::InvalidArgument {
                            reason: Reason::RegionBytes { position: elem_end, size },
                        },
                    ),
                };
                Ok(Plan::Device(CloneJob::GpuBytes { source: *h, start, end }))
            },
            StorageBuffer::Cubecl(h) => {
                let _end: usize = region_end(offset, numel, h.len())?;
                Err(
                    FerrotorchError::InvalidArgument {
                        reason: Reason::XpuRegion { offset, count: numel },
                    },
                )
            },
            StorageBuffer::Meta { .. } => Ok(Plan::Ready(Self::meta(numel))),
        }
    }
}

/// The end of a region that has to fit a buffer of `len` elements.
fn region_end(offset: usize, numel: usize, len: usize) -> (r: FerrotorchResult<usize>)
    ensures
        r == (if offset + numel <= len {
            Ok((offset + numel) as usize)
        } else {
            Err(
                FerrotorchError::InvalidArgument {
                    reason: Reason::RegionBeyondBuffer { offset, count: numel, len },
                },
            )
        }),
{
    if numel <= len && offset <= len - numel {
        Ok(offset + numel)
    } else {
        Err(
            FerrotorchError::InvalidArgument {
                reason: Reason::RegionBeyondBuffer { offset, count: numel, len },
            },
        )
    }
}

/// What becomes of elements that are to be placed on a device.
pub open spec fn placement<T: Float>(
    data: Seq<T>,
    target: Device,
    ctx: Context,
    pinned: bool,
    r: FerrotorchResult<Plan<TensorStorage<T>, Upload<T>>>,
) -> bool {
    match target {
        Device::Cpu => r matches Ok(Plan::Ready(s)) && s.is_cpu_of(data),
        Device::Cuda(o) => {
            let size = T::dtype_spec().size_spec();
            if !ctx.backend {
                r == Err::<Plan<TensorStorage<T>, Upload<T>>, _>(FerrotorchError::DeviceUnavailable)
            } else if data.len() * size > usize::MAX {
                r == Err::<Plan<TensorStorage<T>, Upload<T>>, _>(
                    FerrotorchError::InvalidArgument {
                        reason: Reason::ByteCount {
                            len: data.len() as usize,
                            size: size as usize,
                        },
                    },
                )
            } else {
                r matches Ok(Plan::Device(Upload { data: d, ordinal, dtype, bytes, pinned: p })) && d@
                    == data && ordinal == o && dtype == T::dtype_spec() && bytes == data.len()
                    * size && p == pinned
            }
        },
        Device::Xpu(_) => r == Err::<Plan<TensorStorage<T>, Upload<T>>, _>(
            FerrotorchError::InvalidArgument { reason: Reason::XpuNeedsRuntime },
        ),
        Device::Mps(_) => r == Err::<Plan<TensorStorage<T>, Upload<T>>, _>(
            FerrotorchError::InvalidArgument { reason: Reason::MpsNotWired },
        ),
        Device::Meta => r matches Ok(Plan::Ready(s)) && s == (TensorStorage {
            data: StorageBuffer::<T>::Meta { numel: data.len() as usize, fill_value: None },
            device: Device::Meta,
        }),
    }
}

fn place<T: Float>(data: Vec<T>, target: Device, ctx: Context, pinned: bool) -> (r:
    FerrotorchResult<Plan<TensorStorage<T>, Upload<T>>>)
    ensures
        placement(data@, target, ctx, pinned, r),
{
    match target {
        Device::Cpu => Ok(Plan::Ready(TensorStorage::cpu(data))),
        Device::Cuda(ordinal) => {
            if !ctx.backend {
                return Err(FerrotorchError::DeviceUnavailable);
            }
            let dtype: DType = T::dtype();
            let bytes: usize = checked_byte_count(data.len(), dtype.size_of())?;
            Ok(Plan::Device(Upload { data, ordinal, dtype, bytes, pinned }))
        },
        Device::Xpu(_) => Err(
            FerrotorchError::InvalidArgument { reason: Reason::XpuNeedsRuntime },
        ),
        Device::Mps(_) => Err(FerrotorchError::InvalidArgument { reason: Reason::MpsNotWired }),
        Device::Meta => Ok(Plan::Ready(TensorStorage::meta(data.len()))),
    }
}

} // verus!
