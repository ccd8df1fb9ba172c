//! Writing through a tensor into the storage that it shares with others.
//!
//! The shared storage is passed as `target`; the tensor says which of its
//! positions are written, and in which order. [`Tensor::over_storage`] gives the
//! tensor, and every other that shares the storage, as it is after the write.

use crate::autograd::{Context, Plan};
use crate::device::{Device, GpuBufferHandle};
use crate::dtype::{DType, Float};
use crate::error::{CudaGap, FerrotorchError, FerrotorchResult, Reason};
use crate::scatter::{self, cell_last, copied};
use crate::shape;
use crate::storage::{overwritten, StorageBuffer, TensorStorage};
use crate::strided;
use crate::tensor::{Tensor, TensorInner};
use std::sync::Arc;
use vstd::prelude::*;

verus! {

/// The storage positions of a view, in row-major order of its coordinates.
pub open spec fn positions(sh: Seq<usize>, strides: Seq<isize>, base: int) -> Seq<usize> {
    Seq::new(shape::prod(sh), |k: int| strided::offset_at(sh, strides, base, k) as usize)
}

/// `data` after the elements of `src` have been written, in order, to the positions
/// of a view.
pub open spec fn written_through<T>(
    data: Seq<T>,
    sh: Seq<usize>,
    strides: Seq<isize>,
    base: int,
    src: Seq<T>,
) -> Seq<T> {
    Seq::new(
        data.len(),
        |p: int|
            cell_last(data[p], positions(sh, strides, base), src, shape::prod(sh) as int, p),
    )
}

/// The elements that a view shows of `data`.
pub open spec fn read_through<T>(
    data: Seq<T>,
    sh: Seq<usize>,
    strides: Seq<isize>,
    base: int,
) -> Seq<T> {
    Seq::new(shape::prod(sh), |k: int| data[strided::offset_at(sh, strides, base, k)])
}

/// What was written through a view whose elements do not share positions is read
/// back through it, and every position outside the view keeps its element.
pub proof fn lemma_write_then_read<T>(
    data: Seq<T>,
    sh: Seq<usize>,
    strides: Seq<isize>,
    base: int,
    src: Seq<T>,
)
    requires
        strided::within(sh, strides, base, data.len() as int),
        data.len() <= usize::MAX,
        src.len() == shape::prod(sh),
        forall|j: int, k: int|
            0 <= j < k < shape::prod(sh) ==> #[trigger] strided::offset_at(sh, strides, base, j)
                != #[trigger] strided::offset_at(sh, strides, base, k),
    ensures
        read_through(written_through(data, sh, strides, base, src), sh, strides, base) == src,
        forall|p: int|
            0 <= p < data.len() && (forall|k: int|
                0 <= k < shape::prod(sh) ==> #[trigger] strided::offset_at(sh, strides, base, k)
                    != p) ==> #[trigger] written_through(data, sh, strides, base, src)[p] == data[p],
{
    let n = shape::prod(sh) as int;
    let at = positions(sh, strides, base);
    let after = written_through(data, sh, strides, base, src);
    assert forall|k: int| 0 <= k < n implies 0 <= #[trigger] strided::offset_at(
        sh,
        strides,
        base,
        k,
    ) < data.len() && at[k] == strided::offset_at(sh, strides, base, k) by {
        strided::lemma_within_offset(sh, strides, base, data.len() as int, k);
    }
    assert(scatter::distinct(at, n)) by {
        assert forall|i: int, j: int| 0 <= i < j < n implies #[trigger] at[i] != #[trigger] at[j] by {
            assert(strided::offset_at(sh, strides, base, i) != strided::offset_at(
                sh,
                strides,
                base,
                j,
            ));
        }
    }
    assert forall|k: int| 0 <= k < n implies read_through(after, sh, strides, base)[k] == src[k] by {
        let p = strided::offset_at(sh, strides, base, k);
        scatter::lemma_cell_last_distinct(data[p], at, src, n, k);
        assert(at[k] == p);
    }
    assert(read_through(after, sh, strides, base) =~= src);
    assert forall|p: int|
        0 <= p < data.len() && (forall|k: int|
            0 <= k < n ==> #[trigger] strided::offset_at(sh, strides, base, k)
                != p) implies #[trigger] after[p] == data[p] by {
        assert forall|k: int| 0 <= k < n implies #[trigger] at[k] != p by {
            assert(strided::offset_at(sh, strides, base, k) != p);
        }
        scatter::lemma_cell_last_untouched(data[p], at, src, n, p);
    }
}

/// The kernels that scatter into a view of a CUDA buffer.
#[derive(Clone, Copy, Debug, PartialEq, Eq, Structural)]
pub enum ScatterKernel {
    F32,
    F64,
}

/// Contiguous elements to be scattered into a view of a CUDA buffer.
#[derive(Debug)]
pub struct StridedScatter {
    pub source: GpuBufferHandle,
    pub target: GpuBufferHandle,
    pub shape: Vec<usize>,
    pub strides: Vec<isize>,
    pub offset: usize,
    pub kernel: ScatterKernel,
}

/// What has to be done to write host elements through a CUDA tensor: upload them,
/// then [`Tensor::update_storage`] with the new buffer.
#[derive(Clone, Copy, Debug, PartialEq, Eq, Structural)]
pub struct UploadUpdate {
    pub ordinal: usize,
    pub dtype: DType,
}

/// The scatter kernel for an element type, if there is one.
pub open spec fn scatter_kernel_spec(dtype: DType) -> Option<ScatterKernel> {
    match dtype {
        DType::F32 => Some(ScatterKernel::F32),
        DType::F64 => Some(ScatterKernel::F64),
        _ => None,
    }
}

/// The scatter kernel for an element type, if there is one.
pub fn scatter_kernel(dtype: DType) -> (r: Option<ScatterKernel>)
    ensures
        r == scatter_kernel_spec(dtype),
{
    match dtype {
        DType::F32 => Some(ScatterKernel::F32),
        DType::F64 => Some(ScatterKernel::F64),
        _ => None,
    }
}

impl<T: Float> Tensor<T> {
    /// A dimension with more than one element has stride zero.
    pub open spec fn repeats(&self) -> bool {
        exists|d: int|
            0 <= d < self.inner.shape@.len() && #[trigger] self.inner.shape@[d] > 1
                && self.inner.strides@[d] == 0
    }

    /// Why the view cannot be written through into storage of `len` elements.
    pub open spec fn view_write_error(&self, len: usize) -> Option<FerrotorchError> {
        if self.repeats() {
            Some(FerrotorchError::InvalidArgument { reason: Reason::OverlappingWrite })
        } else {
            match strided::bounds_error(
                self.inner.shape@,
                self.inner.strides@,
                self.inner.offset,
                len,
            ) {
                None => None,
                Some(reason) => Some(FerrotorchError::InvalidArgument { reason }),
            }
        }
    }

    /// Checks that the view can be written through into storage of `len` elements.
    pub fn check_view_write(&self, len: usize) -> (r: FerrotorchResult<()>)
        requires
            self.wf(),
        ensures
            match r {
                Ok(_) => self.view_write_error(len) is None && strided::within(
                    self.inner.shape@,
                    self.inner.strides@,
                    self.inner.offset as int,
                    len as int,
                ) && strided::reach_fits(
                    self.inner.shape@,
                    self.inner.strides@,
                    self.inner.offset as int,
                ),
                Err(e) => self.view_write_error(len) == Some(e),
            },
    {
        let mut d: usize = 0;
        let n: usize = self.inner.shape.len();
        while d < n
            invariant
                d <= n,
                n == self.inner.shape@.len(),
                n == self.inner.strides@.len(),
                forall|e: int|
                    0 <= e < d && #[trigger] self.inner.shape@[e] > 1 ==> self.inner.strides@[e]
                        != 0,
            decreases n - d,
        {
            if self.inner.shape[d] > 1 && self.inner.strides[d] == 0 {
                proof {
                    assert(self.inner.shape@[d as int] > 1);
                }
                return Err(FerrotorchError::InvalidArgument { reason: Reason::OverlappingWrite });
            }
            d = d + 1;
        }
        strided::validate_bounds(
            self.inner.shape.as_slice(),
            self.inner.strides.as_slice(),
            self.inner.offset,
            len,
        )
    }

    /// Writes the elements of `src`, in row-major order, to the positions of the view.
    fn cpu_scatter_through_view(&self, target: &mut TensorStorage<T>, src: &[T]) -> (r:
        FerrotorchResult<()>)
        requires
            self.wf(),
            src@.len() == self.count(),
            strided::reach_fits(
                self.inner.shape@,
                self.inner.strides@,
                self.inner.offset as int,
            ),
            strided::within(
                self.inner.shape@,
                self.inner.strides@,
                self.inner.offset as int,
                old(target).spec_len() as int,
            ),
        ensures
            final(target).device == old(target).device,
            match r {
                Ok(_) => old(target).on_host() && final(target).on_host()
                    && final(target).elements() == written_through(
                    old(target).elements(),
                    self.inner.shape@,
                    self.inner.strides@,
                    self.inner.offset as int,
                    src@,
                ),
                Err(e) => !old(target).on_host() && e == FerrotorchError::GpuTensorNotAccessible
                    && *final(target) == *old(target),
            },
    {
        match &mut target.data {
            StorageBuffer::Cpu(v) => {
                let ghost before = v.cells@;
                let ghost sh = self.inner.shape@;
                let ghost st = self.inner.strides@;
                let ghost base = self.inner.offset as int;
                if src.len() == 0 {
                    proof {
                        assert(written_through(before, sh, st, base, src@) =~= before);
                    }
                    return Ok(());
                }
                let len: usize = v.cells.len();
                proof {
                    strided::lemma_within_offset(sh, st, base, len as int, 0);
                    strided::lemma_extent_signs(sh, st);
                }
                let at: Vec<usize> = strided::strided_offsets(
                    self.inner.shape.as_slice(),
                    self.inner.strides.as_slice(),
                    self.inner.offset as i64,
                    len,
                );
                scatter::scatter(&mut v.cells, at.as_slice(), src);
                proof {
                    assert(at@ =~= positions(sh, st, base));
                    assert(v.cells@ =~= written_through(before, sh, st, base, src@));
                }
                Ok(())
            },
            _ => Err(FerrotorchError::GpuTensorNotAccessible),
        }
    }

    /// What stands in host storage after new elements have been written through the
    /// tensor: a run is overwritten where they are contiguous.
    pub open spec fn updated(&self, before: Seq<T>, src: Seq<T>) -> Seq<T> {
        if self.contiguous_spec() {
            overwritten(before, self.inner.offset as int, src)
        } else {
            written_through(
                before,
                self.inner.shape@,
                self.inner.strides@,
                self.inner.offset as int,
                src,
            )
        }
    }

    /// A contiguous run of the storage is what a contiguous tensor writes through
    /// its strides.
    pub proof fn lemma_run_is_view(&self, before: Seq<T>, src: Seq<T>)
        requires
            self.wf(),
            self.contiguous_spec(),
            src.len() == self.count(),
            self.inner.offset + self.count() <= before.len() <= usize::MAX,
        ensures
            overwritten(before, self.inner.offset as int, src) == written_through(
                before,
                self.inner.shape@,
                self.inner.strides@,
                self.inner.offset as int,
                src,
            ),
    {
        let n = self.count() as int;
        let base = self.inner.offset as int;
        let at = positions(self.inner.shape@, self.inner.strides@, base);
        assert forall|k: int| 0 <= k < n implies #[trigger] at[k] == base + k by {
            shape::lemma_contiguous_offset(self.inner.shape@, self.inner.strides@, k);
        }
        let w = written_through(before, self.inner.shape@, self.inner.strides@, base, src);
        assert forall|p: int| 0 <= p < before.len() implies overwritten(before, base, src)[p]
            == w[p] by {
            if base <= p < base + n {
                assert(scatter::distinct(at, n));
                scatter::lemma_cell_last_distinct(before[p], at, src, n, p - base);
                assert(at[p - base] == p);
            } else {
                assert forall|k: int| 0 <= k < n implies #[trigger] at[k] != p by {}
                scatter::lemma_cell_last_untouched(before[p], at, src, n, p);
            }
        }
        assert(overwritten(before, base, src) =~= w);
    }

    /// The outcome of writing host elements through the tensor.
    pub open spec fn host_write_outcome(
        &self,
        before: TensorStorage<T>,
        src: Seq<T>,
        after: TensorStorage<T>,
        r: FerrotorchResult<()>,
    ) -> bool {
        if self.contiguous_spec() {
            if !before.on_host() {
                r matches Err(e) && e == FerrotorchError::GpuTensorNotAccessible && after == before
            } else if self.inner.offset + src.len() > before.spec_len() {
                &&& r matches Err(e) && e == (FerrotorchError::InvalidArgument {
                    reason: Reason::WriteBeyondBuffer {
                        offset: self.inner.offset,
                        count: src.len() as usize,
                        len: before.spec_len() as usize,
                    },
                })
                &&& after == before
            } else {
                &&& r is Ok
                &&& after.device == before.device && after.on_host() && after.elements()
                    == self.updated(before.elements(), src)
            }
        } else if self.view_write_error(before.spec_len() as usize) is Some {
            &&& r matches Err(e) && self.view_write_error(before.spec_len() as usize) == Some(e)
            &&& after == before
        } else if !before.on_host() {
            r matches Err(e) && e == FerrotorchError::GpuTensorNotAccessible && after == before
        } else {
            &&& r is Ok
            &&& after.device == before.device && after.on_host() && after.elements()
                == self.updated(before.elements(), src)
        }
    }

    fn host_write(&self, target: &mut TensorStorage<T>, src: &[T]) -> (r: FerrotorchResult<()>)
        requires
            self.wf(),
            src@.len() == self.count(),
        ensures
            self.host_write_outcome(*old(target), src@, *final(target), r),
    {
        if self.is_contiguous() {
            target.cpu_write_at(self.inner.offset, src)
        } else {
            self.check_view_write(target.len())?;
            self.cpu_scatter_through_view(target, src)
        }
    }

    /// Writes `new_data`, in row-major order, through the tensor into its storage.
    pub fn update_data(&self, target: &mut TensorStorage<T>, new_data: &[T], ctx: Context) -> (r:
        FerrotorchResult<Plan<(), UploadUpdate>>)
        requires
            self.wf(),
            old(target).wf(),
        ensures
            if new_data@.len() != self.count() {
                &&& r matches Err(e) && e == (FerrotorchError::ShapeMismatch {
                    reason: Reason::NumelMismatch {
                        got: new_data@.len() as usize,
                        expected: self.count() as usize,
                    },
                })
                &&& *final(target) == *old(target)
            } else if old(target).data is Gpu {
                &&& *final(target) == *old(target)
                &&& if !ctx.backend {
                    r matches Err(e) && e == FerrotorchError::DeviceUnavailable
                } else {
                    r matches Ok(Plan::Device(j)) && j == (UploadUpdate {
                        ordinal: old(target).device->Cuda_0,
                        dtype: T::dtype_spec(),
                    })
                }
            } else {
                match r {
                    Ok(Plan::Ready(_)) => self.host_write_outcome(
                        *old(target),
                        new_data@,
                        *final(target),
                        Ok(()),
                    ),
                    Ok(Plan::Device(_)) => false,
                    Err(e) => self.host_write_outcome(
                        *old(target),
                        new_data@,
                        *final(target),
                        Err(e),
                    ),
                }
            },
    {
        let n: usize = self.numel();
        if new_data.len() != n {
            return Err(
                FerrotorchError::ShapeMismatch {
                    reason: Reason::NumelMismatch { got: new_data.len(), expected: n },
                },
            );
        }
        if target.is_gpu() {
            if !ctx.backend {
                return Err(FerrotorchError::DeviceUnavailable);
            }
            return match target.device() {
                Device::Cuda(ordinal) => Ok(
                    Plan::Device(UploadUpdate { ordinal, dtype: T::dtype() }),
                ),
                _ => {
                    proof {
                        assert(false);
                    }
                    vstd::pervasive::unreached()
                },
            };
        }
        self.host_write(target, new_data)?;
        Ok(Plan::Ready(()))
    }

    /// The tensor is the whole of storage with `len` elements, in order.
    pub open spec fn covers(&self, len: nat) -> bool {
        self.inner.offset == 0 && len == self.count() && self.contiguous_spec()
    }

    /// The outcome of replacing the elements of the tensor by those of `new_storage`.
    pub open spec fn update_storage_outcome(
        &self,
        before: TensorStorage<T>,
        new_storage: TensorStorage<T>,
        ctx: Context,
        after: TensorStorage<T>,
        r: FerrotorchResult<Plan<(), StridedScatter>>,
    ) -> bool {
        if new_storage.spec_len() != self.count() {
            &&& r matches Err(e) && e == (FerrotorchError::ShapeMismatch {
                reason: Reason::NumelMismatch {
                    got: new_storage.spec_len() as usize,
                    expected: self.count() as usize,
                },
            })
            &&& after == before
        } else if new_storage.device != before.device {
            &&& r matches Err(e) && e == (FerrotorchError::DeviceMismatch {
                expected: before.device,
                got: new_storage.device,
            })
            &&& after == before
        } else if self.covers(before.spec_len()) {
            &&& r matches Ok(Plan::Ready(_))
            &&& after.data == new_storage.data && after.device == before.device
        } else if self.view_write_error(before.spec_len() as usize) is Some {
            &&& r matches Err(e) && self.view_write_error(before.spec_len() as usize) == Some(e)
            &&& after == before
        } else {
            match before.data {
                StorageBuffer::Gpu(dst) => {
                    &&& after == before
                    &&& if !ctx.backend {
                        r matches Err(e) && e == FerrotorchError::DeviceUnavailable
                    } else {
                        match scatter_kernel_spec(T::dtype_spec()) {
                            None => r matches Err(e) && e == (
                            FerrotorchError::NotImplementedOnCuda { op: CudaGap::ViewWriteDtype }),
                            Some(k) => r matches Ok(Plan::Device(j)) && j.source
                                == new_storage.data->Gpu_0 && j.target == dst && j.shape@
                                == self.inner.shape@ && j.strides@ == self.inner.strides@
                                && j.offset == self.inner.offset && j.kernel == k,
                        }
                    }
                },
                StorageBuffer::Cpu(_) => {
                    &&& r matches Ok(Plan::Ready(_))
                    &&& after.device == before.device && after.on_host() && after.elements()
                        == self.updated(before.elements(), new_storage.elements())
                },
                _ => {
                    &&& r matches Err(e) && e == FerrotorchError::GpuTensorNotAccessible
                    &&& after == before
                },
            }
        }
    }

    /// Replaces the elements of the tensor by those of `new_storage`. Where the
    /// tensor is the whole of its storage the buffer is swapped; else its positions
    /// are written.
    pub fn update_storage(
        &self,
        target: &mut TensorStorage<T>,
        new_storage: TensorStorage<T>,
        ctx: Context,
    ) -> (r: FerrotorchResult<Plan<(), StridedScatter>>)
        requires
            self.wf(),
            old(target).wf(),
            new_storage.wf(),
        ensures
            self.update_storage_outcome(*old(target), new_storage, ctx, *final(target), r),
    {
        let n: usize = self.numel();
        if new_storage.len() != n {
            return Err(
                FerrotorchError::ShapeMismatch {
                    reason: Reason::NumelMismatch { got: new_storage.len(), expected: n },
                },
            );
        }
        if new_storage.device() != target.device() {
            return Err(
                FerrotorchError::DeviceMismatch {
                    expected: target.device(),
                    got: new_storage.device(),
                },
            );
        }
        let contiguous: bool = self.is_contiguous();
        if self.inner.offset == 0 && target.len() == n && contiguous {
            target.replace_buffer_aliased(new_storage)?;
            return Ok(Plan::Ready(()));
        }
        self.check_view_write(target.len())?;
        if target.is_gpu() {
            if !ctx.backend {
                return Err(FerrotorchError::DeviceUnavailable);
            }
            let kernel: ScatterKernel = match scatter_kernel(T::dtype()) {
                Some(k) => k,
                None => return Err(
                    FerrotorchError::NotImplementedOnCuda { op: CudaGap::ViewWriteDtype },
                ),
            };
            return match (new_storage.gpu_handle(), target.gpu_handle()) {
                (Some(source), Some(dst)) => Ok(
                    Plan::Device(
                        StridedScatter {
                            source: *source,
                            target: *dst,
                            shape: copied(self.inner.shape.as_slice()),
                            strides: copied(self.inner.strides.as_slice()),
                            offset: self.inner.offset,
                            kernel,
                        },
                    ),
                ),
                _ => Err(FerrotorchError::DeviceUnavailable),
            };
        }
        let src: &[T] = new_storage.try_as_slice()?;
        if contiguous {
            proof {
                if self.count() > 0 {
                    crate::tensor::lemma_contiguous_end(
                        self.inner.shape@,
                        self.inner.strides@,
                        self.inner.offset as int,
                        target.spec_len() as int,
                    );
                } else if !strided::is_empty_shape(self.inner.shape@) {
                    shape::lemma_prod_positive(self.inner.shape@);
                }
            }
            target.cpu_write_at(self.inner.offset, src)?;
        } else {
            self.cpu_scatter_through_view(target, src)?;
        }
        Ok(Plan::Ready(()))
    }

    /// Replaces the storage by `new_storage` and gives the tensor a new shape: the
    /// result is the strides, from offset zero. A tensor that others share, as
    /// `aliased` says, cannot be resized.
    pub fn update_storage_and_shape(
        &self,
        target: &mut TensorStorage<T>,
        new_storage: TensorStorage<T>,
        new_shape: &[usize],
        aliased: bool,
    ) -> (r: FerrotorchResult<Vec<isize>>)
        requires
            shape::shape_fits(new_shape@),
        ensures
            match r {
                Ok(strides) => {
                    &&& new_storage.spec_len() == shape::prod(new_shape@)
                    &&& new_storage.device == old(target).device
                    &&& !aliased
                    &&& shape::is_contiguous_strides(strides@, new_shape@)
                    &&& final(target).data == new_storage.data
                    &&& final(target).device == old(target).device
                },
                Err(e) => {
                    &&& *final(target) == *old(target)
                    &&& if new_storage.spec_len() != shape::prod(new_shape@) {
                        e == (FerrotorchError::ShapeMismatch {
                            reason: Reason::NumelMismatch {
                                got: new_storage.spec_len() as usize,
                                expected: shape::prod(new_shape@) as usize,
                            },
                        })
                    } else if new_storage.device != old(target).device {
                        e == (FerrotorchError::DeviceMismatch {
                            expected: old(target).device,
                            got: new_storage.device,
                        })
                    } else {
                        aliased && e == (FerrotorchError::InvalidArgument {
                            reason: Reason::Aliased,
                        })
                    }
                },
            },
    {
        let n: usize = shape::numel(new_shape);
        if new_storage.len() != n {
            return Err(
                FerrotorchError::ShapeMismatch {
                    reason: Reason::NumelMismatch { got: new_storage.len(), expected: n },
                },
            );
        }
        if new_storage.device() != target.device() {
            return Err(
                FerrotorchError::DeviceMismatch {
                    expected: target.device(),
                    got: new_storage.device(),
                },
            );
        }
        if aliased {
            return Err(FerrotorchError::InvalidArgument { reason: Reason::Aliased });
        }
        let strides: Vec<isize> = shape::c_contiguous_strides(new_shape);
        target.replace_buffer_aliased(new_storage)?;
        Ok(strides)
    }

    /// The elements of a contiguous tensor in its host storage, to be changed in
    /// place.
    pub fn data_mut<'a>(&self, target: &'a mut TensorStorage<T>) -> (r: FerrotorchResult<
        &'a mut [T],
    >)
        requires
            self.wf(),
        ensures
            match r {
                Ok(run) => {
                    &&& self.contiguous_spec()
                    &&& old(target).on_host()
                    &&& final(target).on_host()
                    &&& final(target).device == old(target).device
                    &&& if self.count() == 0 {
                        run@.len() == 0 && (final(run)@.len() == 0 ==> final(target).elements()
                            == old(target).elements())
                    } else {
                        &&& self.inner.offset + self.count() <= old(target).spec_len()
                        &&& run@ == old(target).elements().subrange(
                            self.inner.offset as int,
                            self.inner.offset + self.count(),
                        )
                        &&& final(run)@.len() == self.count() ==> final(target).elements()
                            == overwritten(
                            old(target).elements(),
                            self.inner.offset as int,
                            final(run)@,
                        )
                    }
                },
                Err(e) => {
                    &&& *final(target) == *old(target)
                    &&& if !self.contiguous_spec() {
                        e == (FerrotorchError::InvalidArgument { reason: Reason::NotContiguous })
                    } else if !old(target).on_host() {
                        e == FerrotorchError::GpuTensorNotAccessible
                    } else {
                        &&& self.count() > 0
                        &&& self.inner.offset + self.count() > old(target).spec_len()
                        &&& e == (FerrotorchError::InvalidArgument {
                            reason: Reason::ViewBeyondStorage,
                        })
                    }
                },
            },
    {
        if !self.is_contiguous() {
            return Err(FerrotorchError::InvalidArgument { reason: Reason::NotContiguous });
        }
        if !target.is_cpu() {
            return Err(FerrotorchError::GpuTensorNotAccessible);
        }
        let n: usize = self.numel();
        let len: usize = target.len();
        if n > 0 && (n > len || self.inner.offset > len - n) {
            return Err(FerrotorchError::InvalidArgument { reason: Reason::ViewBeyondStorage });
        }
        let all: &mut [T] = target.as_mut_slice();
        let start: usize = if n == 0 {
            0
        } else {
            self.inner.offset
        };
        let (head, tail) = all.split_at_mut(start);
        let (run, rest) = tail.split_at_mut(n);
        Ok(run)
    }

    /// The same tensor over other storage: everything but the storage is kept.
    pub open spec fn is_over(&self, base: &Tensor<T>, storage: TensorStorage<T>) -> bool {
        &&& *self.inner.storage == storage
        &&& self.inner.id == base.inner.id
        &&& self.inner.object == base.inner.object
        &&& self.inner.shape@ == base.inner.shape@
        &&& self.inner.strides@ == base.inner.strides@
        &&& self.inner.offset == base.inner.offset
        &&& self.inner.grad_fn == base.inner.grad_fn
        &&& self.inner.requires_grad == base.inner.requires_grad
        &&& self.inner.is_leaf == base.inner.is_leaf
    }

    /// The tensor as it is after its storage has been written: `storage` is what has
    /// become of it.
    pub fn over_storage(&self, storage: &Arc<TensorStorage<T>>) -> (r: Tensor<T>)
        ensures
            r.is_over(self, **storage),
            self.wf() && storage.wf() ==> r.wf(),
            self.in_bounds() && storage.spec_len() == self.inner.storage.spec_len()
                ==> r.in_bounds(),
    {
        let grad_fn = match &self.inner.grad_fn {
            Some(g) => Some(Arc::clone(g)),
            None => None,
        };
        Tensor {
            inner: Arc::new(
                TensorInner {
                    id: self.inner.id,
                    object: self.inner.object,
                    storage: Arc::clone(storage),
                    shape: copied(self.inner.shape.as_slice()),
                    strides: copied(self.inner.strides.as_slice()),
                    offset: self.inner.offset,
                    grad_fn,
                    requires_grad: self.inner.requires_grad,
                    is_leaf: self.inner.is_leaf,
                },
            ),
        }
    }

    /// The tensor as it is after [`Tensor::update_storage_and_shape`]: row-major over
    /// the whole of `storage`, with the new shape and the strides of that call.
    pub fn resized_over(
        &self,
        storage: &Arc<TensorStorage<T>>,
        new_shape: &[usize],
        strides: Vec<isize>,
    ) -> (r: Tensor<T>)
        ensures
            *r.inner.storage == **storage,
            r.inner.id == self.inner.id,
            r.inner.object == self.inner.object,
            r.inner.shape@ == new_shape@,
            r.inner.strides@ == strides@,
            r.inner.offset == 0,
            r.inner.grad_fn == self.inner.grad_fn,
            r.inner.requires_grad == self.inner.requires_grad,
            r.inner.is_leaf == self.inner.is_leaf,
    {
        let grad_fn = match &self.inner.grad_fn {
            Some(g) => Some(Arc::clone(g)),
            None => None,
        };
        Tensor {
            inner: Arc::new(
                TensorInner {
                    id: self.inner.id,
                    object: self.inner.object,
                    storage: Arc::clone(storage),
                    shape: copied(new_shape),
                    strides,
                    offset: 0,
                    grad_fn,
                    requires_grad: self.inner.requires_grad,
                    is_leaf: self.inner.is_leaf,
                },
            ),
        }
    }

    /// Where element `k` stands in the storage.
    pub open spec fn position(&self, k: int) -> int {
        strided::offset_at(
            self.inner.shape@,
            self.inner.strides@,
            self.inner.offset as int,
            k,
        )
    }

    /// No two elements share a position.
    pub open spec fn stands_apart(&self) -> bool {
        forall|j: int, k: int|
            0 <= j < k < self.count() ==> #[trigger] self.position(j) != #[trigger] self.position(k)
    }

    /// Contiguous elements share no positions, nor do those of a view for which the
    /// overlap test answers `false`.
    pub proof fn lemma_stands_apart(&self)
        requires
            self.wf(),
            self.contiguous_spec() || strided::strides_nest(self.inner.shape@, self.inner.strides@),
        ensures
            self.stands_apart(),
    {
        let sh = self.inner.shape@;
        let st = self.inner.strides@;
        assert forall|j: int, k: int| 0 <= j < k < self.count() implies #[trigger] self.position(j)
            != #[trigger] self.position(k) by {
            if self.contiguous_spec() {
                shape::lemma_contiguous_offset(sh, st, j);
                shape::lemma_contiguous_offset(sh, st, k);
            } else if self.position(j) == self.position(k) {
                strided::lemma_nested_offsets_distinct(sh, st, self.inner.offset as int, j, k);
            }
        }
    }

    /// Storage that `src` was written to through the tensor: position by position it
    /// holds the element of `src` that belongs there, or what it held before.
    proof fn lemma_updated(&self, before: Seq<T>, src: Seq<T>)
        requires
            self.wf(),
            self.stands_apart(),
            src.len() == self.count(),
            before.len() <= usize::MAX,
            if self.contiguous_spec() {
                self.inner.offset + self.count() <= before.len()
            } else {
                strided::within(
                    self.inner.shape@,
                    self.inner.strides@,
                    self.inner.offset as int,
                    before.len() as int,
                )
            },
        ensures
            self.updated(before, src).len() == before.len(),
            forall|k: int|
                #![trigger self.position(k)]
                0 <= k < self.count() ==> 0 <= self.position(k) < before.len() && self.updated(
                    before,
                    src,
                )[self.position(k)] == src[k],
            forall|p: int|
                0 <= p < before.len() && (forall|k: int|
                    0 <= k < self.count() ==> #[trigger] self.position(k) != p)
                    ==> #[trigger] self.updated(before, src)[p] == before[p],
    {
        let sh = self.inner.shape@;
        let st = self.inner.strides@;
        let base = self.inner.offset as int;
        if self.contiguous_spec() {
            assert forall|k: int| #![trigger self.position(k)] 0 <= k < self.count() implies 0
                <= self.position(k) < before.len() && self.updated(before, src)[self.position(k)]
                == src[k] by {
                shape::lemma_contiguous_offset(sh, st, k);
            }
            assert forall|p: int|
                0 <= p < before.len() && (forall|k: int|
                    0 <= k < self.count() ==> #[trigger] self.position(k)
                        != p) implies #[trigger] self.updated(before, src)[p] == before[p] by {
                if base <= p < base + self.count() {
                    shape::lemma_contiguous_offset(sh, st, p - base);
                    assert(self.position(p - base) == p);
                }
            }
        } else {
            assert forall|j: int, k: int|
                0 <= j < k < shape::prod(sh) implies #[trigger] strided::offset_at(sh, st, base, j)
                != #[trigger] strided::offset_at(sh, st, base, k) by {
                assert(self.position(j) != self.position(k));
            }
            lemma_write_then_read(before, sh, st, base, src);
            assert forall|k: int| #![trigger self.position(k)] 0 <= k < self.count() implies 0
                <= self.position(k) < before.len() && self.updated(before, src)[self.position(k)]
                == src[k] by {
                strided::lemma_within_offset(sh, st, base, before.len() as int, k);
                assert(read_through(self.updated(before, src), sh, st, base)[k] == src[k]);
            }
            assert forall|p: int|
                0 <= p < before.len() && (forall|k: int|
                    0 <= k < self.count() ==> #[trigger] self.position(k)
                        != p) implies #[trigger] self.updated(before, src)[p] == before[p] by {
                assert forall|k: int| 0 <= k < shape::prod(sh) implies #[trigger] strided::offset_at(
                    sh,
                    st,
                    base,
                    k,
                ) != p by {
                    assert(self.position(k) != p);
                }
            }
        }
    }

    /// Storage in host memory before and after `src` was written to it through the
    /// tensor.
    pub open spec fn wrote(
        &self,
        before: TensorStorage<T>,
        src: Seq<T>,
        after: TensorStorage<T>,
    ) -> bool {
        &&& before.on_host()
        &&& after.on_host()
        &&& src.len() == self.count()
        &&& after.spec_len() == before.spec_len()
        &&& forall|k: int|
            #![trigger self.position(k)]
            0 <= k < self.count() ==> 0 <= self.position(k) < before.spec_len()
                && after.elements()[self.position(k)] == src[k]
        &&& forall|p: int|
            0 <= p < before.spec_len() && (forall|k: int|
                0 <= k < self.count() ==> #[trigger] self.position(k) != p)
                ==> #[trigger] after.elements()[p] == before.elements()[p]
    }

    /// New elements given to [`Tensor::update_data`] stand in the storage afterwards,
    /// and nothing else has changed.
    pub proof fn lemma_update_data_wrote(
        &self,
        before: TensorStorage<T>,
        src: Seq<T>,
        after: TensorStorage<T>,
    )
        requires
            self.wf(),
            self.stands_apart(),
            src.len() == self.count(),
            self.host_write_outcome(before, src, after, Ok(())),
        ensures
            self.wrote(before, src, after),
    {
        let cells = before.data->Cpu_0.cells;
        assert(before.elements().len() == cells.len());
        self.lemma_updated(before.elements(), src);
    }

    /// The elements of host storage given to [`Tensor::update_storage`] stand in the
    /// storage afterwards, and nothing else has changed.
    pub proof fn lemma_update_storage_wrote(
        &self,
        before: TensorStorage<T>,
        new_storage: TensorStorage<T>,
        ctx: Context,
        after: TensorStorage<T>,
    )
        requires
            self.wf(),
            before.wf(),
            before.on_host(),
            new_storage.wf(),
            self.stands_apart(),
            self.update_storage_outcome(before, new_storage, ctx, after, Ok(Plan::Ready(()))),
        ensures
            self.wrote(before, new_storage.elements(), after),
    {
        let cells = before.data->Cpu_0.cells;
        assert(before.elements().len() == cells.len());
        let src = new_storage.elements();
        if self.covers(before.spec_len()) {
            assert forall|k: int| #![trigger self.position(k)] 0 <= k < self.count() implies 0
                <= self.position(k) < before.spec_len() && after.elements()[self.position(k)]
                == src[k] by {
                shape::lemma_contiguous_offset(self.inner.shape@, self.inner.strides@, k);
            }
            assert forall|p: int|
                0 <= p < before.spec_len() && (forall|k: int|
                    0 <= k < self.count() ==> #[trigger] self.position(k)
                        != p) implies #[trigger] after.elements()[p] == before.elements()[p] by {
                shape::lemma_contiguous_offset(self.inner.shape@, self.inner.strides@, p);
                assert(self.position(p) == p);
            }
        } else {
            if self.contiguous_spec() {
                if self.count() > 0 {
                    crate::tensor::lemma_contiguous_end(
                        self.inner.shape@,
                        self.inner.strides@,
                        self.inner.offset as int,
                        before.spec_len() as int,
                    );
                } else if !strided::is_empty_shape(self.inner.shape@) {
                    shape::lemma_prod_positive(self.inner.shape@);
                }
            }
            self.lemma_updated(before.elements(), src);
        }
    }

    /// Changes made in place to what [`Tensor::data_mut`] hands out stand in the
    /// storage afterwards, and nothing else has changed.
    pub proof fn lemma_data_mut_wrote(
        &self,
        before: TensorStorage<T>,
        run: Seq<T>,
        after: TensorStorage<T>,
    )
        requires
            self.wf(),
            self.contiguous_spec(),
            before.on_host(),
            after.on_host(),
            self.inner.offset + self.count() <= before.spec_len(),
            run.len() == self.count(),
            after.elements() == overwritten(before.elements(), self.inner.offset as int, run),
        ensures
            self.wrote(before, run, after),
    {
        let cells = before.data->Cpu_0.cells;
        assert(before.elements().len() == cells.len());
        self.lemma_stands_apart();
        self.lemma_updated(before.elements(), run);
    }

    /// What was written through a tensor is what it reads afterwards.
    pub proof fn lemma_written_is_read(
        &self,
        before: TensorStorage<T>,
        src: Seq<T>,
        after: TensorStorage<T>,
        now: &Tensor<T>,
    )
        requires
            self.wrote(before, src, after),
            now.is_over(self, after),
        ensures
            now.logical() == src,
    {
        assert forall|k: int| 0 <= k < self.count() implies now.logical()[k] == src[k] by {
            assert(now.position(k) == self.position(k));
        }
        assert(now.logical() =~= src);
    }

    /// A write through one tensor shows in every other tensor over the same storage, at
    /// the positions that they share, and nowhere else.
    pub proof fn lemma_write_is_shared(
        &self,
        before: TensorStorage<T>,
        src: Seq<T>,
        after: TensorStorage<T>,
        other: &Tensor<T>,
        now: &Tensor<T>,
    )
        requires
            self.wrote(before, src, after),
            *other.inner.storage == before,
            other.in_bounds(),
            now.is_over(other, after),
        ensures
            now.logical().len() == other.logical().len(),
            forall|i: int, k: int|
                0 <= i < other.count() && 0 <= k < self.count() && #[trigger] other.position(i)
                    == #[trigger] self.position(k) ==> now.logical()[i] == src[k],
            forall|i: int|
                0 <= i < other.count() && (forall|k: int|
                    0 <= k < self.count() ==> #[trigger] self.position(k) != other.position(i))
                    ==> #[trigger] now.logical()[i] == other.logical()[i],
    {
        let sh = other.inner.shape@;
        let st = other.inner.strides@;
        let base = other.inner.offset as int;
        assert forall|i: int, k: int|
            0 <= i < other.count() && 0 <= k < self.count() && #[trigger] other.position(i)
                == #[trigger] self.position(k) implies now.logical()[i] == src[k] by {
            assert(now.position(i) == self.position(k));
        }
        assert forall|i: int|
            0 <= i < other.count() && (forall|k: int|
                0 <= k < self.count() ==> #[trigger] self.position(k) != other.position(
                    i,
                )) implies #[trigger] now.logical()[i] == other.logical()[i] by {
            strided::lemma_within_offset(sh, st, base, before.spec_len() as int, i);
            assert(after.elements()[other.position(i)] == before.elements()[other.position(i)]);
        }
    }

    /// A tensor resized by [`Tensor::update_storage_and_shape`] reads the elements of the
    /// new host storage.
    pub proof fn lemma_resized_is_read(
        &self,
        new_storage: TensorStorage<T>,
        strides: Seq<isize>,
        after: TensorStorage<T>,
    )
        requires
            new_storage.on_host(),
            after.data == new_storage.data,
            *self.inner.storage == after,
            new_storage.spec_len() == self.count(),
            shape::is_contiguous_strides(strides, self.inner.shape@),
            self.inner.strides@ == strides,
            self.inner.offset == 0,
            self.wf(),
        ensures
            self.logical() == new_storage.elements(),
    {
        self.lemma_dense();
        assert(self.logical() =~= new_storage.elements());
    }
}

} // verus!
