//! Tensors: a shape and strides over shared storage.

use crate::autograd::{Context, Plan, TensorId};
use crate::device::{Device, GpuBufferHandle};
use crate::dtype::Float;
use crate::error::{FerrotorchError, FerrotorchResult, Reason};
use crate::scatter::{copied, gather};
use crate::shape;
use crate::stride_tricks::{AsStridedBackward, AsStridedScatterBackward};
use crate::matmul24::Matmul24Backward;
use crate::sparse_tensor::SpmmBackward;
use crate::special_apply::{SpecialBinaryBackward, SpecialUnaryBackward};
use crate::storage::{StorageBuffer, TensorStorage};
use crate::strided;
use std::sync::Arc;
use vstd::prelude::*;
use vstd::slice::*;

verus! {

/// The physical memory layout of a tensor. The shape keeps its logical order of
/// dimensions; only the strides change.
#[derive(Clone, Copy, Debug, PartialEq, Eq, Hash, Structural)]
pub enum MemoryFormat {
    /// Row-major.
    Contiguous,
    /// Four dimensions, channels innermost.
    ChannelsLast,
    /// Five dimensions, channels innermost.
    ChannelsLast3d,
}

/// What led to a tensor, for reverse-mode differentiation.
#[derive(Debug)]
pub enum GradFn<T: Float> {
    /// A move between devices.
    ToDevice(ToDeviceBackward<T>),
    /// A physical rearrangement.
    MemoryFormat(MemoryFormatBackward<T>),
    /// A strided view or copy.
    AsStrided(AsStridedBackward<T>),
    /// A strided scatter.
    AsStridedScatter(AsStridedScatterBackward<T>),
    /// A sparse-dense product.
    Spmm(SpmmBackward<T>),
    /// A product with a two-of-four matrix.
    Matmul24(Matmul24Backward<T>),
    /// A special function of one argument.
    SpecialUnary(SpecialUnaryBackward<T>),
    /// A special function of two arguments.
    SpecialBinary(SpecialBinaryBackward<T>),
    /// An operation defined outside this crate, found by its key.
    External { key: u64, inputs: Vec<Tensor<T>> },
}

/// The gradient of a move between devices.
#[derive(Debug)]
pub struct ToDeviceBackward<T: Float> {
    pub source: Tensor<T>,
}

/// The gradient of a physical rearrangement, which keeps the logical values.
#[derive(Debug)]
pub struct MemoryFormatBackward<T: Float> {
    pub source: Tensor<T>,
}

/// What a tensor holds. All copies of a tensor share it.
#[derive(Debug)]
pub struct TensorInner<T: Float> {
    pub id: TensorId,
    /// Which object this is. Another object may have the same `id`, where it stands for
    /// the same node of the gradient graph, but not the same `object`.
    pub object: TensorId,
    pub storage: Arc<TensorStorage<T>>,
    pub shape: Vec<usize>,
    pub strides: Vec<isize>,
    pub offset: usize,
    pub grad_fn: Option<Arc<GradFn<T>>>,
    pub requires_grad: bool,
    pub is_leaf: bool,
}

/// A dynamically shaped tensor. Its copies share its identity and its elements.
#[derive(Debug)]
pub struct Tensor<T: Float> {
    pub inner: Arc<TensorInner<T>>,
}

impl<T: Float> Clone for Tensor<T> {
    fn clone(&self) -> (r: Self)
        ensures
            r == *self,
    {
        Tensor { inner: Arc::clone(&self.inner) }
    }
}

impl<T: Float> Tensor<T> {
    /// One stride per dimension, counts that are machine integers, and storage
    /// that resides where its tag says.
    pub open spec fn wf(&self) -> bool {
        &&& self.inner.shape@.len() == self.inner.strides@.len()
        &&& shape::shape_fits(self.inner.shape@)
        &&& self.inner.storage.wf()
    }

    /// Every element stands within the storage.
    pub open spec fn in_bounds(&self) -> bool {
        &&& strided::within(
            self.inner.shape@,
            self.inner.strides@,
            self.inner.offset as int,
            self.inner.storage.spec_len() as int,
        )
        &&& strided::reach_fits(
            self.inner.shape@,
            self.inner.strides@,
            self.inner.offset as int,
        )
    }

    /// The number of elements.
    pub open spec fn count(&self) -> nat {
        shape::prod(self.inner.shape@)
    }

    /// The elements stand one behind the other in row-major order.
    pub open spec fn contiguous_spec(&self) -> bool {
        shape::contiguous_layout(self.inner.shape@, self.inner.strides@)
    }

    /// The elements of a host tensor in row-major order of their coordinates.
    pub open spec fn logical(&self) -> Seq<T> {
        Seq::new(
            self.count(),
            |k: int|
                self.inner.storage.elements()[strided::offset_at(
                    self.inner.shape@,
                    self.inner.strides@,
                    self.inner.offset as int,
                    k,
                )],
        )
    }

    /// A row-major tensor over the whole of `storage`, with this identity.
    pub open spec fn is_dense(
        &self,
        id: TensorId,
        storage: TensorStorage<T>,
        sh: Seq<usize>,
    ) -> bool {
        &&& self.inner.id == id
        &&& self.inner.object == id
        &&& *self.inner.storage == storage
        &&& self.inner.shape@ == sh
        &&& shape::is_contiguous_strides(self.inner.strides@, sh)
        &&& self.inner.offset == 0
    }

    /// A row-major host tensor of these elements, with this identity.
    pub open spec fn is_dense_cpu(&self, id: TensorId, elements: Seq<T>, sh: Seq<usize>) -> bool {
        &&& self.inner.id == id
        &&& self.inner.object == id
        &&& self.inner.storage.is_cpu_of(elements)
        &&& self.inner.shape@ == sh
        &&& shape::is_contiguous_strides(self.inner.strides@, sh)
        &&& self.inner.offset == 0
    }

    /// A view of the storage of `base`.
    pub open spec fn is_view_of(
        &self,
        base: &Tensor<T>,
        id: TensorId,
        sh: Seq<usize>,
        strides: Seq<isize>,
        offset: usize,
    ) -> bool {
        &&& self.inner.id == id
        &&& self.inner.object == id
        &&& self.inner.storage == base.inner.storage
        &&& self.inner.shape@ == sh
        &&& self.inner.strides@ == strides
        &&& self.inner.offset == offset
    }

    /// A leaf of the gradient graph.
    pub open spec fn is_plain(&self, requires_grad: bool) -> bool {
        &&& self.inner.grad_fn is None
        &&& self.inner.requires_grad == requires_grad
        &&& self.inner.is_leaf
    }

    /// The result of an operation that gradients flow through.
    pub open spec fn is_tracked(&self, grad_fn: GradFn<T>) -> bool {
        &&& self.inner.grad_fn matches Some(g) && *g == grad_fn
        &&& self.inner.requires_grad
        &&& !self.inner.is_leaf
    }

    /// The result of an operation: tracked, unless inference mode is on.
    pub open spec fn is_result(&self, grad_fn: GradFn<T>, ctx: Context) -> bool {
        if ctx.inference {
            self.is_plain(false)
        } else {
            self.is_tracked(grad_fn)
        }
    }

    /// Contiguous elements are a run of the storage.
    pub proof fn lemma_contiguous_run(&self)
        requires
            self.wf(),
            self.contiguous_spec(),
            self.inner.storage.on_host(),
            self.inner.offset + self.count() <= self.inner.storage.spec_len(),
        ensures
            self.logical() == self.inner.storage.elements().subrange(
                self.inner.offset as int,
                self.inner.offset + self.count(),
            ),
    {
        let run = self.inner.storage.elements().subrange(
            self.inner.offset as int,
            self.inner.offset + self.count(),
        );
        assert forall|k: int| 0 <= k < self.count() implies self.logical()[k] == run[k] by {
            shape::lemma_contiguous_offset(self.inner.shape@, self.inner.strides@, k);
        }
        assert(self.logical() =~= run);
    }

    /// A dense tensor stays within its storage, and its elements in row-major
    /// order are those of the storage.
    pub proof fn lemma_dense(&self)
        requires
            self.wf(),
            shape::is_contiguous_strides(self.inner.strides@, self.inner.shape@),
            self.inner.offset == 0,
            self.count() <= self.inner.storage.spec_len(),
        ensures
            self.contiguous_spec(),
            self.in_bounds(),
            self.inner.storage.on_host() ==> self.logical()
                == self.inner.storage.elements().take(self.count() as int),
    {
        let sh = self.inner.shape@;
        shape::lemma_row_major_contiguous(sh, self.inner.strides@);
        assert(sh.subrange(0, sh.len() as int) =~= sh);
        assert(shape::suffix_prod(sh, 0) <= isize::MAX);
        lemma_contiguous_within(
            sh,
            self.inner.strides@,
            0,
            self.inner.storage.spec_len() as int,
        );
        if self.inner.storage.on_host() {
            self.lemma_contiguous_run();
        }
    }

    /// A tensor that has at most as many elements as its storage.
    fn dense(
        storage: TensorStorage<T>,
        sh: Vec<usize>,
        id: TensorId,
        grad_fn: Option<Arc<GradFn<T>>>,
        requires_grad: bool,
        is_leaf: bool,
    ) -> (r: FerrotorchResult<Self>)
        requires
            shape::shape_fits(sh@),
            storage.wf(),
        ensures
            match r {
                Ok(t) => {
                    &&& shape::prod(sh@) <= storage.spec_len()
                    &&& t.is_dense(id, storage, sh@)
                    &&& t.inner.grad_fn == grad_fn
                    &&& t.inner.requires_grad == requires_grad
                    &&& t.inner.is_leaf == is_leaf
                    &&& t.wf()
                    &&& t.in_bounds()
                },
                Err(e) => {
                    &&& shape::prod(sh@) > storage.spec_len()
                    &&& e == too_small(sh@, storage)
                },
            },
    {
        let n: usize = shape::numel(sh.as_slice());
        if n > storage.len() {
            return Err(
                FerrotorchError::ShapeMismatch {
                    reason: Reason::StorageTooSmall { numel: n, len: storage.len() },
                },
            );
        }
        let strides: Vec<isize> = shape::c_contiguous_strides(sh.as_slice());
        let t = Tensor {
            inner: Arc::new(
                TensorInner {
                    id,
                    object: id,
                    storage: Arc::new(storage),
                    shape: sh,
                    strides,
                    offset: 0,
                    grad_fn,
                    requires_grad,
                    is_leaf,
                },
            ),
        };
        proof {
            t.lemma_dense();
        }
        Ok(t)
    }

    /// A new leaf tensor over `storage`.
    pub fn from_storage(
        storage: TensorStorage<T>,
        sh: Vec<usize>,
        requires_grad: bool,
        id: TensorId,
    ) -> (r: FerrotorchResult<Self>)
        requires
            shape::shape_fits(sh@),
            storage.wf(),
        ensures
            match r {
                Ok(t) => {
                    &&& shape::prod(sh@) <= storage.spec_len()
                    &&& t.is_dense(id, storage, sh@)
                    &&& t.is_plain(requires_grad)
                    &&& t.wf()
                    &&& t.in_bounds()
                },
                Err(e) => {
                    &&& shape::prod(sh@) > storage.spec_len()
                    &&& e == too_small(sh@, storage)
                },
            },
    {
        Self::dense(storage, sh, id, None, requires_grad, true)
    }

    /// The result of an operation. In inference mode it is a plain tensor.
    pub fn from_operation(
        storage: TensorStorage<T>,
        sh: Vec<usize>,
        grad_fn: GradFn<T>,
        ctx: Context,
    ) -> (r: FerrotorchResult<Self>)
        requires
            shape::shape_fits(sh@),
            storage.wf(),
        ensures
            match r {
                Ok(t) => {
                    &&& shape::prod(sh@) <= storage.spec_len()
                    &&& t.is_dense(ctx.fresh, storage, sh@)
                    &&& t.is_result(grad_fn, ctx)
                    &&& t.wf()
                    &&& t.in_bounds()
                },
                Err(e) => {
                    &&& shape::prod(sh@) > storage.spec_len()
                    &&& e == too_small(sh@, storage)
                },
            },
    {
        if ctx.inference {
            return Self::from_storage(storage, sh, false, ctx.fresh);
        }
        Self::dense(storage, sh, ctx.fresh, Some(Arc::new(grad_fn)), true, false)
    }

    /// A view with explicit shape, strides and offset over the same storage.
    pub fn stride_view(
        &self,
        new_shape: Vec<usize>,
        new_strides: Vec<isize>,
        new_offset: usize,
        id: TensorId,
    ) -> (r: Self)
        ensures
            r.is_view_of(self, id, new_shape@, new_strides@, new_offset),
            r.is_plain(false),
    {
        Tensor {
            inner: Arc::new(
                TensorInner {
                    id,
                    object: id,
                    storage: Arc::clone(&self.inner.storage),
                    shape: new_shape,
                    strides: new_strides,
                    offset: new_offset,
                    grad_fn: None,
                    requires_grad: false,
                    is_leaf: true,
                },
            ),
        }
    }

    /// A view with explicit shape, strides and offset over the same storage that
    /// gradients flow through.
    pub fn stride_view_operation(
        &self,
        new_shape: Vec<usize>,
        new_strides: Vec<isize>,
        new_offset: usize,
        grad_fn: GradFn<T>,
        id: TensorId,
    ) -> (r: Self)
        ensures
            r.is_view_of(self, id, new_shape@, new_strides@, new_offset),
            r.is_tracked(grad_fn),
    {
        Tensor {
            inner: Arc::new(
                TensorInner {
                    id,
                    object: id,
                    storage: Arc::clone(&self.inner.storage),
                    shape: new_shape,
                    strides: new_strides,
                    offset: new_offset,
                    grad_fn: Some(Arc::new(grad_fn)),
                    requires_grad: true,
                    is_leaf: false,
                },
            ),
        }
    }

    /// The same elements as a leaf without gradient history.
    pub fn detach(&self, id: TensorId) -> (r: Self)
        ensures
            r.is_view_of(
                self,
                id,
                self.inner.shape@,
                self.inner.strides@,
                self.inner.offset,
            ),
            r.is_plain(false),
    {
        self.stride_view(
            copied(self.inner.shape.as_slice()),
            copied(self.inner.strides.as_slice()),
            self.inner.offset,
            id,
        )
    }

    /// Another object for the same elements, with the same identity.
    pub open spec fn is_same_node(&self, base: &Tensor<T>, object: TensorId) -> bool {
        &&& self.inner.id == base.inner.id
        &&& self.inner.object == object
        &&& self.inner.storage == base.inner.storage
        &&& self.inner.shape@ == base.inner.shape@
        &&& self.inner.strides@ == base.inner.strides@
        &&& self.inner.offset == base.inner.offset
    }

    /// The same elements and gradient edge in a new object, with gradients wanted or
    /// not. `object` is the number of the new object, which no other has.
    pub fn requires_grad_(self, requires_grad: bool, object: TensorId) -> (r: Self)
        ensures
            r.is_same_node(&self, object),
            r.inner.grad_fn == self.inner.grad_fn,
            r.inner.requires_grad == requires_grad,
            r.inner.is_leaf == self.inner.is_leaf,
            self.wf() ==> r.wf(),
            self.in_bounds() ==> r.in_bounds(),
            self.logical() == r.logical(),
    {
        let grad_fn: Option<Arc<GradFn<T>>> = match &self.inner.grad_fn {
            Some(g) => Some(Arc::clone(g)),
            None => None,
        };
        Tensor {
            inner: Arc::new(
                TensorInner {
                    id: self.inner.id,
                    object,
                    storage: Arc::clone(&self.inner.storage),
                    shape: copied(self.inner.shape.as_slice()),
                    strides: copied(self.inner.strides.as_slice()),
                    offset: self.inner.offset,
                    grad_fn,
                    requires_grad,
                    is_leaf: self.inner.is_leaf,
                },
            ),
        }
    }

    /// The same elements and identity in a new object without gradient history.
    /// `object` is the number of the new object, which no other has.
    pub fn without_history(&self, object: TensorId) -> (r: Self)
        ensures
            r.is_same_node(self, object),
            r.is_plain(false),
            self.wf() ==> r.wf(),
            self.in_bounds() ==> r.in_bounds(),
            self.logical() == r.logical(),
    {
        Tensor {
            inner: Arc::new(
                TensorInner {
                    id: self.inner.id,
                    object,
                    storage: Arc::clone(&self.inner.storage),
                    shape: copied(self.inner.shape.as_slice()),
                    strides: copied(self.inner.strides.as_slice()),
                    offset: self.inner.offset,
                    grad_fn: None,
                    requires_grad: false,
                    is_leaf: true,
                },
            ),
        }
    }
}

/// The error for a shape that asks for more elements than the storage has.
pub open spec fn too_small<T: Float>(sh: Seq<usize>, storage: TensorStorage<T>) -> FerrotorchError {
    FerrotorchError::ShapeMismatch {
        reason: Reason::StorageTooSmall {
            numel: shape::prod(sh) as usize,
            len: storage.spec_len() as usize,
        },
    }
}

/// Contiguous strides from `base` on stay within storage that has all the elements.
pub proof fn lemma_contiguous_within(sh: Seq<usize>, strides: Seq<isize>, base: int, len: int)
    requires
        sh.len() == strides.len(),
        shape::contiguous_layout(sh, strides),
        0 <= base,
        shape::prod(sh) > 0 ==> base + shape::prod(sh) <= len && base + shape::prod(sh) <= i64::MAX
            + 1,
    ensures
        strided::within(sh, strides, base, len),
        strided::reach_fits(sh, strides, base),
{
    let n = shape::prod(sh) as int;
    assert forall|k: int| 0 <= k < n implies 0 <= #[trigger] strided::offset_at(
        sh,
        strides,
        base,
        k,
    ) < base + n by {
        shape::lemma_contiguous_offset(sh, strides, k);
    }
    strided::lemma_within_iff_all_offsets(sh, strides, base, base + n);
    if !strided::is_empty_shape(sh) {
        assert forall|d: int| 0 <= d < sh.len() implies #[trigger] sh[d] > 0 by {}
        shape::lemma_prod_positive(sh);
        assert forall|k: int| 0 <= k < n implies 0 <= #[trigger] strided::offset_at(
            sh,
            strides,
            0,
            k,
        ) < n by {
            shape::lemma_contiguous_offset(sh, strides, k);
        }
        strided::lemma_within_iff_all_offsets(sh, strides, 0, n);
    }
}

/// A contiguous view within its storage ends within it.
pub proof fn lemma_contiguous_end(sh: Seq<usize>, strides: Seq<isize>, base: int, len: int)
    requires
        shape::contiguous_layout(sh, strides),
        strided::within(sh, strides, base, len),
        strided::reach_fits(sh, strides, base),
        shape::prod(sh) > 0,
    ensures
        0 <= base,
        base + shape::prod(sh) <= len,
        base + shape::prod(sh) <= i64::MAX + 1,
{
    let n = shape::prod(sh) as int;
    shape::lemma_contiguous_offset(sh, strides, n - 1);
    shape::lemma_contiguous_offset(sh, strides, 0);
    strided::lemma_within_offset(sh, strides, base, len, n - 1);
    strided::lemma_within_offset(sh, strides, base, len, 0);
    shape::lemma_unravel_ravel(n - 1, sh);
    strided::lemma_dot_extent(shape::unravel(n - 1, sh), sh, strides);
}

impl<T: Float> Tensor<T> {
    /// The identity.
    pub fn id(&self) -> (r: TensorId)
        ensures
            r == self.inner.id,
    {
        self.inner.id
    }

    /// The size of each dimension.
    pub fn shape(&self) -> (r: &[usize])
        ensures
            r@ == self.inner.shape@,
    {
        self.inner.shape.as_slice()
    }

    /// Number of dimensions.
    pub fn ndim(&self) -> (r: usize)
        ensures
            r == self.inner.shape@.len(),
    {
        self.inner.shape.len()
    }

    /// Number of elements.
    pub fn numel(&self) -> (r: usize)
        requires
            shape::prods_fit(self.inner.shape@),
        ensures
            r == self.count(),
    {
        shape::numel(self.inner.shape.as_slice())
    }

    /// The step, in elements, of each dimension.
    pub fn strides(&self) -> (r: &[isize])
        ensures
            r@ == self.inner.strides@,
    {
        self.inner.strides.as_slice()
    }

    /// The position of the first element in the storage.
    pub fn storage_offset(&self) -> (r: usize)
        ensures
            r == self.inner.offset,
    {
        self.inner.offset
    }

    /// Number of elements of the storage.
    pub fn storage_len(&self) -> (r: usize)
        ensures
            r == self.inner.storage.spec_len(),
    {
        self.inner.storage.len()
    }

    /// The storage.
    pub fn storage(&self) -> (r: &TensorStorage<T>)
        ensures
            *r == *self.inner.storage,
    {
        &self.inner.storage
    }

    /// The shared storage.
    pub fn inner_storage_arc(&self) -> (r: &Arc<TensorStorage<T>>)
        ensures
            *r == self.inner.storage,
    {
        &self.inner.storage
    }

    /// The device the tensor resides on.
    pub fn device(&self) -> (r: Device)
        ensures
            r == self.inner.storage.device,
    {
        self.inner.storage.device()
    }

    /// Whether gradients are wanted.
    pub fn requires_grad(&self) -> (r: bool)
        ensures
            r == self.inner.requires_grad,
    {
        self.inner.requires_grad
    }

    /// Whether the tensor is a leaf of the gradient graph.
    pub fn is_leaf(&self) -> (r: bool)
        ensures
            r == self.inner.is_leaf,
    {
        self.inner.is_leaf
    }

    /// What led to the tensor.
    pub fn grad_fn(&self) -> (r: Option<&Arc<GradFn<T>>>)
        ensures
            match (r, self.inner.grad_fn) {
                (Some(g), Some(h)) => *g == h,
                (None, None) => true,
                _ => false,
            },
    {
        match &self.inner.grad_fn {
            Some(g) => Some(g),
            None => None,
        }
    }

    /// Whether the tensor resides in host memory.
    pub fn is_cpu(&self) -> (r: bool)
        ensures
            r == (self.inner.storage.device == Device::Cpu),
    {
        self.device().is_cpu()
    }

    /// Whether the tensor carries no data.
    pub fn is_meta(&self) -> (r: bool)
        ensures
            r == (self.inner.storage.device == Device::Meta),
    {
        self.device().is_meta()
    }

    /// Whether the tensor resides on a CUDA device.
    pub fn is_cuda(&self) -> (r: bool)
        ensures
            r == (self.inner.storage.device is Cuda),
    {
        self.device().is_cuda()
    }

    /// Whether the tensor resides on a portable-runtime device.
    pub fn is_xpu(&self) -> (r: bool)
        ensures
            r == (self.inner.storage.device is Xpu),
    {
        matches!(self.device(), Device::Xpu(_))
    }

    /// The fill value that a meta tensor records, if any.
    pub fn meta_fill_value(&self) -> (r: Option<&T>)
        ensures
            match (self.inner.storage.data, r) {
                (StorageBuffer::Meta { fill_value: Some(v), .. }, Some(x)) => *x == v,
                (StorageBuffer::Meta { fill_value: Some(v), .. }, None) => false,
                (_, Some(x)) => false,
                (_, None) => true,
            },
    {
        self.inner.storage.meta_fill_value()
    }

    /// The handle of the CUDA buffer.
    pub fn gpu_handle(&self) -> (r: FerrotorchResult<&GpuBufferHandle>)
        ensures
            match (self.inner.storage.data, r) {
                (StorageBuffer::Gpu(h), Ok(x)) => *x == h,
                (StorageBuffer::Gpu(h), Err(_)) => false,
                (_, Ok(_)) => false,
                (_, Err(e)) => e == (FerrotorchError::InvalidArgument { reason: Reason::NotOnGpu }),
            },
    {
        match self.inner.storage.gpu_handle() {
            Some(h) => Ok(h),
            None => Err(FerrotorchError::InvalidArgument { reason: Reason::NotOnGpu }),
        }
    }

    /// Whether the tensor has no dimensions.
    pub fn is_scalar(&self) -> (r: bool)
        ensures
            r == (self.inner.shape@.len() == 0),
    {
        self.inner.shape.len() == 0
    }

    /// Which object the tensor is: its copies are the same one.
    pub fn object(&self) -> (r: TensorId)
        ensures
            r == self.inner.object,
    {
        self.inner.object
    }

    /// Whether two handles are the same object.
    pub fn is_same(&self, other: &Self) -> (r: bool)
        ensures
            r == (self.inner.object == other.inner.object),
    {
        self.inner.object == other.inner.object
    }

    /// Whether the elements stand one behind the other in row-major order.
    pub fn is_contiguous(&self) -> (r: bool)
        requires
            self.wf(),
        ensures
            r == self.contiguous_spec(),
    {
        shape::is_contiguous_layout(self.inner.shape.as_slice(), self.inner.strides.as_slice())
    }

    /// Why the elements cannot be borrowed as one run, if they cannot.
    pub open spec fn data_error(&self) -> Option<FerrotorchError> {
        match self.inner.storage.data {
            StorageBuffer::Gpu(_) => Some(FerrotorchError::GpuTensorNotAccessible),
            StorageBuffer::Cubecl(_) => Some(FerrotorchError::GpuTensorNotAccessible),
            StorageBuffer::Meta { .. } => Some(
                FerrotorchError::InvalidArgument { reason: Reason::MetaHasNoData },
            ),
            StorageBuffer::Cpu(_) => if !self.contiguous_spec() {
                Some(FerrotorchError::InvalidArgument { reason: Reason::NotContiguous })
            } else if self.count() > 0 && self.inner.offset + self.count()
                > self.inner.storage.spec_len() {
                Some(FerrotorchError::InvalidArgument { reason: Reason::ViewBeyondStorage })
            } else {
                None
            },
        }
    }

    /// The elements of a contiguous host tensor.
    pub fn data(&self) -> (r: FerrotorchResult<&[T]>)
        requires
            self.wf(),
        ensures
            match r {
                Ok(d) => self.data_error() is None && d@ == self.logical(),
                Err(e) => self.data_error() == Some(e),
            },
    {
        if self.inner.storage.is_gpu() {
            return Err(FerrotorchError::GpuTensorNotAccessible);
        }
        if self.inner.storage.is_cubecl() {
            return Err(FerrotorchError::GpuTensorNotAccessible);
        }
        if self.inner.storage.is_meta() {
            return Err(FerrotorchError::InvalidArgument { reason: Reason::MetaHasNoData });
        }
        if !self.is_contiguous() {
            return Err(FerrotorchError::InvalidArgument { reason: Reason::NotContiguous });
        }
        let s: &[T] = self.inner.storage.try_as_slice()?;
        let n: usize = self.numel();
        if n == 0 {
            let none: &[T] = slice_subrange(s, 0, 0);
            proof {
                assert(none@ =~= self.logical());
            }
            return Ok(none);
        }
        if n > s.len() || self.inner.offset > s.len() - n {
            return Err(FerrotorchError::InvalidArgument { reason: Reason::ViewBeyondStorage });
        }
        proof {
            self.lemma_contiguous_run();
        }
        Ok(slice_subrange(s, self.inner.offset, self.inner.offset + n))
    }

    /// The elements of a contiguous host tensor.
    pub fn data_ref(&self) -> (r: FerrotorchResult<&[T]>)
        requires
            self.wf(),
        ensures
            match r {
                Ok(d) => self.data_error() is None && d@ == self.logical(),
                Err(e) => self.data_error() == Some(e),
            },
    {
        self.data()
    }

    /// The elements of a host tensor in row-major order, whatever its strides.
    pub fn host_vec(&self) -> (r: FerrotorchResult<Vec<T>>)
        requires
            self.wf(),
            self.inner.storage.on_host(),
            !self.contiguous_spec() ==> self.in_bounds(),
        ensures
            match r {
                Ok(v) => (self.contiguous_spec() ==> self.data_error() is None) && v@
                    == self.logical(),
                Err(e) => self.contiguous_spec() && self.data_error() == Some(e),
            },
    {
        if self.is_contiguous() {
            let d: &[T] = self.data()?;
            return Ok(copied(d));
        }
        if self.numel() == 0 {
            let none: Vec<T> = Vec::new();
            proof {
                assert(none@ =~= self.logical());
            }
            return Ok(none);
        }
        let s: &[T] = self.inner.storage.as_slice();
        proof {
            self.lemma_offset_fits();
        }
        let at: Vec<usize> = strided::strided_offsets(
            self.inner.shape.as_slice(),
            self.inner.strides.as_slice(),
            self.inner.offset as i64,
            s.len(),
        );
        let v: Vec<T> = gather(s, at.as_slice());
        proof {
            assert(v@ =~= self.logical());
        }
        Ok(v)
    }

    /// The offset of a tensor within its storage is an `i64`.
    pub proof fn lemma_offset_fits(&self)
        requires
            self.wf(),
            self.in_bounds(),
            self.count() > 0,
        ensures
            self.inner.offset <= i64::MAX,
    {
        strided::lemma_within_offset(
            self.inner.shape@,
            self.inner.strides@,
            self.inner.offset as int,
            self.inner.storage.spec_len() as int,
            0,
        );
        strided::lemma_extent_signs(self.inner.shape@, self.inner.strides@);
    }

    /// The single element.
    pub fn item(&self) -> (r: FerrotorchResult<T>)
        requires
            self.wf(),
        ensures
            match r {
                Ok(x) => self.count() == 1 && self.data_error() is None && x == self.logical()[0],
                Err(e) => if self.count() != 1 {
                    e == (FerrotorchError::InvalidArgument {
                        reason: Reason::NotScalar { numel: self.count() as usize },
                    })
                } else {
                    self.data_error() == Some(e)
                },
            },
    {
        let n: usize = self.numel();
        proof {
            if self.inner.shape@.len() == 0 {
                assert(self.count() == 1);
            }
        }
        if !self.is_scalar() && n != 1 {
            return Err(FerrotorchError::InvalidArgument { reason: Reason::NotScalar { numel: n } });
        }
        let d: &[T] = self.data()?;
        Ok(d[0])
    }
}

/// A device has to make a tensor contiguous first.
#[derive(Clone, Copy, Debug, PartialEq, Eq, Structural)]
pub struct MakeContiguous;

impl<T: Float> Tensor<T> {
    /// The tensor that a change of shape gives: a view where the elements are
    /// contiguous, else a tensor over a copy of them.
    pub open spec fn is_reshaped(&self, base: &Tensor<T>, id: TensorId, sh: Seq<usize>) -> bool {
        if base.contiguous_spec() {
            &&& self.inner.id == id
            &&& self.inner.object == id
            &&& self.inner.storage == base.inner.storage
            &&& self.inner.shape@ == sh
            &&& shape::is_contiguous_strides(self.inner.strides@, sh)
            &&& self.inner.offset == base.inner.offset
        } else {
            base.inner.storage.on_host() && self.is_dense_cpu(id, base.logical(), sh)
        }
    }

    /// The outcome of a change of shape, but for the gradient part of the result.
    pub open spec fn reshape_outcome(
        &self,
        sh: Seq<usize>,
        id: TensorId,
        r: FerrotorchResult<Plan<Tensor<T>, MakeContiguous>>,
    ) -> bool {
        if !self.contiguous_spec() && (self.inner.storage.data is Gpu
            || self.inner.storage.data is Cubecl) {
            r matches Ok(Plan::Device(_))
        } else if !self.contiguous_spec() && self.inner.storage.data is Meta {
            r matches Err(e) && e == (FerrotorchError::InvalidArgument {
                reason: Reason::MetaHasNoData,
            })
        } else if shape::prod(sh) != self.count() {
            r matches Err(e) && e == (FerrotorchError::ShapeMismatch {
                reason: Reason::NumelMismatch {
                    got: shape::prod(sh) as usize,
                    expected: self.count() as usize,
                },
            })
        } else {
            r matches Ok(Plan::Ready(t)) && t.is_reshaped(self, id, sh) && t.wf() && (
            self.in_bounds() ==> t.in_bounds()) && (self.in_bounds() && self.inner.storage.on_host()
                ==> t.logical() == self.logical())
        }
    }

    fn reshaped(
        &self,
        new_shape: Vec<usize>,
        id: TensorId,
        grad_fn: Option<Arc<GradFn<T>>>,
        requires_grad: bool,
        is_leaf: bool,
    ) -> (r: FerrotorchResult<Plan<Tensor<T>, MakeContiguous>>)
        requires
            self.wf(),
            shape::shape_fits(new_shape@),
            !self.contiguous_spec() && self.inner.storage.on_host() ==> self.in_bounds(),
        ensures
            self.reshape_outcome(new_shape@, id, r),
            r matches Ok(Plan::Ready(t)) ==> t.inner.grad_fn == grad_fn && t.inner.requires_grad
                == requires_grad && t.inner.is_leaf == is_leaf,
    {
        let contiguous: bool = self.is_contiguous();
        if !contiguous {
            if self.inner.storage.is_gpu() || self.inner.storage.is_cubecl() {
                return Ok(Plan::Device(MakeContiguous));
            }
            if self.inner.storage.is_meta() {
                return Err(FerrotorchError::InvalidArgument { reason: Reason::MetaHasNoData });
            }
        }
        let n: usize = shape::numel(new_shape.as_slice());
        let old_n: usize = self.numel();
        if n != old_n {
            return Err(
                FerrotorchError::ShapeMismatch {
                    reason: Reason::NumelMismatch { got: n, expected: old_n },
                },
            );
        }
        if !contiguous {
            let data: Vec<T> = self.host_vec()?;
            let t: Tensor<T> = Self::dense(
                TensorStorage::cpu(data),
                new_shape,
                id,
                grad_fn,
                requires_grad,
                is_leaf,
            )?;
            proof {
                t.lemma_dense();
                assert(t.logical() =~= self.logical());
            }
            return Ok(Plan::Ready(t));
        }
        let strides: Vec<isize> = shape::c_contiguous_strides(new_shape.as_slice());
        let t = Tensor {
            inner: Arc::new(
                TensorInner {
                    id,
                    object: id,
                    storage: Arc::clone(&self.inner.storage),
                    shape: new_shape,
                    strides,
                    offset: self.inner.offset,
                    grad_fn,
                    requires_grad,
                    is_leaf,
                },
            ),
        };
        proof {
            shape::lemma_row_major_contiguous(t.inner.shape@, t.inner.strides@);
            if self.in_bounds() {
                let len = self.inner.storage.spec_len() as int;
                let base = self.inner.offset as int;
                if self.count() > 0 {
                    lemma_contiguous_end(self.inner.shape@, self.inner.strides@, base, len);
                }
                lemma_contiguous_within(t.inner.shape@, t.inner.strides@, base, len);
                if self.inner.storage.on_host() {
                    if self.count() > 0 {
                        self.lemma_contiguous_run();
                        t.lemma_contiguous_run();
                    }
                    assert(t.logical() =~= self.logical());
                }
            }
        }
        Ok(Plan::Ready(t))
    }

    /// The same elements in another shape, sharing the storage where the elements
    /// are contiguous.
    pub fn view_reshape(&self, new_shape: Vec<usize>, id: TensorId) -> (r: FerrotorchResult<
        Plan<Tensor<T>, MakeContiguous>,
    >)
        requires
            self.wf(),
            shape::shape_fits(new_shape@),
            !self.contiguous_spec() && self.inner.storage.on_host() ==> self.in_bounds(),
        ensures
            self.reshape_outcome(new_shape@, id, r),
            r matches Ok(Plan::Ready(t)) ==> t.is_plain(false),
    {
        self.reshaped(new_shape, id, None, false, true)
    }

    /// The same elements in another shape, as a result that gradients flow through.
    pub fn view_operation(&self, new_shape: Vec<usize>, grad_fn: GradFn<T>, id: TensorId) -> (r:
        FerrotorchResult<Plan<Tensor<T>, MakeContiguous>>)
        requires
            self.wf(),
            shape::shape_fits(new_shape@),
            !self.contiguous_spec() && self.inner.storage.on_host() ==> self.in_bounds(),
        ensures
            self.reshape_outcome(new_shape@, id, r),
            r matches Ok(Plan::Ready(t)) ==> t.is_tracked(grad_fn),
    {
        self.reshaped(new_shape, id, Some(Arc::new(grad_fn)), true, false)
    }
}

impl<T: Float> GradFn<T> {
    /// The inputs of the operation.
    pub open spec fn inputs_spec(&self) -> Seq<Tensor<T>> {
        match self {
            GradFn::ToDevice(b) => seq![b.source],
            GradFn::MemoryFormat(b) => seq![b.source],
            GradFn::AsStrided(b) => seq![b.input],
            GradFn::AsStridedScatter(b) => seq![b.input, b.src],
            GradFn::Spmm(b) => seq![b.dense],
            GradFn::Matmul24(b) => seq![b.a],
            GradFn::SpecialUnary(b) => seq![b.input],
            GradFn::SpecialBinary(b) => seq![b.a, b.b],
            GradFn::External { inputs, .. } => inputs@,
        }
    }

    /// The inputs of the operation.
    pub fn inputs(&self) -> (r: Vec<Tensor<T>>)
        ensures
            r@ == self.inputs_spec(),
    {
        let mut r: Vec<Tensor<T>> = Vec::new();
        match self {
            GradFn::ToDevice(b) => r.push(b.source.clone()),
            GradFn::MemoryFormat(b) => r.push(b.source.clone()),
            GradFn::AsStrided(b) => r.push(b.input.clone()),
            GradFn::AsStridedScatter(b) => {
                r.push(b.input.clone());
                r.push(b.src.clone());
            },
            GradFn::Spmm(b) => r.push(b.dense.clone()),
            GradFn::Matmul24(b) => r.push(b.a.clone()),
            GradFn::SpecialUnary(b) => r.push(b.input.clone()),
            GradFn::SpecialBinary(b) => {
                r.push(b.a.clone());
                r.push(b.b.clone());
            },
            GradFn::External { inputs, .. } => {
                let mut i: usize = 0;
                while i < inputs.len()
                    invariant
                        i <= inputs@.len(),
                        r@ == inputs@.take(i as int),
                    decreases inputs.len() - i,
                {
                    r.push(inputs[i].clone());
                    i = i + 1;
                    proof {
                        assert(r@ =~= inputs@.take(i as int));
                    }
                }
                proof {
                    assert(inputs@.take(i as int) =~= inputs@);
                }
            },
        }
        proof {
            assert(r@ =~= self.inputs_spec());
        }
        r
    }

    /// The name of the operation; `None` for one that is defined elsewhere.
    pub fn name(&self) -> (r: Option<&'static str>)
        ensures
            match self {
                GradFn::ToDevice(_) => r matches Some(s) && s@ == "ToDeviceBackward"@,
                GradFn::MemoryFormat(_) => r matches Some(s) && s@ == "MemoryFormatBackward"@,
                GradFn::AsStrided(_) => r matches Some(s) && s@ == "AsStridedBackward"@,
                GradFn::AsStridedScatter(_) => r matches Some(s) && s@
                    == "AsStridedScatterBackward"@,
                GradFn::Spmm(_) => r matches Some(s) && s@ == "SpmmBackward"@,
                GradFn::Matmul24(_) => r matches Some(s) && s@ == "Matmul24Backward"@,
                GradFn::SpecialUnary(b) => r matches Some(s) && s@ == b.kind.name_spec(),
                GradFn::SpecialBinary(b) => r matches Some(s) && s@ == b.kind.name_spec(),
                GradFn::External { .. } => r is None,
            },
    {
        match self {
            GradFn::ToDevice(_) => Some("ToDeviceBackward"),
            GradFn::MemoryFormat(_) => Some("MemoryFormatBackward"),
            GradFn::AsStrided(_) => Some("AsStridedBackward"),
            GradFn::AsStridedScatter(_) => Some("AsStridedScatterBackward"),
            GradFn::Spmm(_) => Some("SpmmBackward"),
            GradFn::Matmul24(_) => Some("Matmul24Backward"),
            GradFn::SpecialUnary(b) => Some(b.kind.name()),
            GradFn::SpecialBinary(b) => Some(b.kind.name()),
            GradFn::External { .. } => None,
        }
    }
}

} // verus!
