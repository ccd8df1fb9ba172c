//! The errors of the crate.

use crate::device::Device;
use crate::polynomial::Basis;
use crate::special::{SpecialBinaryKind, SpecialOp, SpecialUnaryKind};
use vstd::prelude::*;

verus! {

/// The outcome of a fallible operation.
pub type FerrotorchResult<T> = Result<T, FerrotorchError>;

/// An operation refused its arguments or its surroundings.
#[derive(Clone, Copy, Debug, PartialEq, Eq, Structural)]
pub enum FerrotorchError {
    /// An argument is not acceptable.
    InvalidArgument { reason: Reason },
    /// Two shapes, or a shape and a length, do not agree.
    ShapeMismatch { reason: Reason },
    /// A coordinate lies outside its dimension.
    IndexOutOfBounds { index: usize, axis: usize, size: usize },
    /// Two operands reside on different devices.
    DeviceMismatch { expected: Device, got: Device },
    /// The elements do not reside in host memory.
    GpuTensorNotAccessible,
    /// No backend serves the device.
    DeviceUnavailable,
    /// The CUDA backend has no kernel for this.
    NotImplementedOnCuda { op: CudaGap },
}

/// What the CUDA backend has no kernel for.
#[derive(Clone, Copy, Debug, PartialEq, Eq, Structural)]
pub enum CudaGap {
    /// Reading back a view of rank above eight.
    ReadBackRank,
    /// Writing through a view of an element type without a scatter kernel.
    ViewWriteDtype,
    /// Rearranging memory of rank above eight, or without a backend.
    FormatRank,
    /// A strided copy of an element type without a gather kernel.
    AsStridedCopy,
    /// A strided scatter of an element type without a scatter kernel.
    AsStridedScatter,
    /// The dense form of a sparse tensor of an element type without a kernel.
    SparseToDense,
    /// A product with a two-of-four matrix of an element type without a kernel.
    SparseMatmul24,
    /// A sparse update of an element type without kernels.
    SparseSgd,
    /// A special function without a kernel for the element type or the operands.
    Special { op: SpecialOp },
    /// The gradient of a special function without a device form.
    SpecialBackward { kind: SpecialUnaryKind },
    /// A polynomial of an element type without kernels.
    Polynomial { basis: Basis },
    /// The gradient of a strided view of an element type without kernels.
    AsStridedBackward,
}

/// Which dimension of a matrix a compressed layout compresses.
#[derive(Clone, Copy, Debug, PartialEq, Eq, Structural)]
pub enum Axis {
    Rows,
    Columns,
}

/// What is wrong with a compressed layout.
#[derive(Clone, Copy, Debug, PartialEq, Eq, Structural)]
pub enum LayoutFault {
    /// The first pointer is not zero; `None` if there is none.
    Start { first: Option<usize> },
    /// The pointer behind `at` is smaller than the one at `at`.
    Decreasing { at: usize },
    /// The last pointer is not the number of entries.
    End { got: usize, nnz: usize },
    /// The index in `slot` is not below `bound`.
    Index { slot: usize, index: usize, bound: usize },
}

/// Why an argument or a shape is refused.
#[derive(Clone, Copy, Debug, PartialEq, Eq, Structural)]
pub enum Reason {
    /// A shape and a stride list of different lengths.
    StrideRank { shape: usize, stride: usize },
    /// The offset of an empty view lies behind the end of the storage.
    OffsetBeyondStorage { offset: usize, len: usize },
    /// A position of a view at this offset is no machine integer.
    ReachOverflow { offset: usize },
    /// A view reaches below the start of the storage.
    NegativeReach { lo: i64 },
    /// A view reaches behind the end of the storage.
    ReachBeyondStorage { hi: i64, len: usize },
    /// A buffer of `len` elements of `size` bytes has no byte count.
    ByteCount { len: usize, size: usize },
    /// Portable-runtime storage cannot be made without that runtime.
    XpuNeedsRuntime,
    /// Metal storage cannot be made here.
    MpsNotWired,
    /// A write does not fit the buffer.
    WriteBeyondBuffer { offset: usize, count: usize, len: usize },
    /// A region does not fit the buffer.
    RegionBeyondBuffer { offset: usize, count: usize, len: usize },
    /// A byte position of a region does not fit `usize`.
    RegionBytes { position: usize, size: usize },
    /// Part of a portable-runtime buffer cannot be copied.
    XpuRegion { offset: usize, count: usize },
    /// A shape asks for more elements than the storage has.
    StorageTooSmall { numel: usize, len: usize },
    /// Two shapes, or a shape and a buffer, have different element counts.
    NumelMismatch { got: usize, expected: usize },
    /// The elements of a meta tensor cannot be read.
    MetaHasNoData,
    /// The elements do not stand one behind the other.
    NotContiguous,
    /// A view extends beyond its storage.
    ViewBeyondStorage,
    /// A move from host memory to a portable-runtime device needs that runtime.
    CpuToXpu,
    /// A meta tensor cannot be moved to a device.
    MetaToDevice { target: Device },
    /// A byte count that is no multiple of the element size.
    ReadBackBytes { bytes: usize, size: usize },
    /// Portable-runtime buffers hold elements of four bytes.
    XpuElementSize { size: usize },
    /// A conversion from this device is not supported.
    ConvertFrom { device: Device },
    /// An element is not a number of the target type.
    NotRepresentable { index: usize },
    /// The tensor does not have exactly one element.
    NotScalar { numel: usize },
    /// The tensor is not on a CUDA device.
    NotOnGpu,
    /// Two elements of a view written through share a position.
    OverlappingWrite,
    /// A tensor that others share cannot be resized.
    Aliased,
    /// The source of a scatter does not have the shape of the view.
    ScatterShape,
    /// Two parts of an argument have different lengths.
    LengthMismatch { left: usize, right: usize },
    /// An entry has a coordinate of another rank than the shape.
    IndexRank { entry: usize, got: usize, expected: usize },
    /// The number of pointers is not one more than the size it goes with.
    PointerCount { axis: Axis, got: usize, size: usize },
    /// A compressed layout is not valid.
    Compressed { axis: Axis, fault: LayoutFault },
    /// A number does not fit the 32-bit indices of the sparse backend.
    IndexWidth { value: usize },
    /// A matrix is needed.
    NotMatrix { ndim: usize },
    /// The inner sizes of a product differ.
    InnerSizes { left: usize, right: usize },
    /// The shapes of two operands differ.
    ShapesDiffer,
    /// The input of a compression tracks gradients.
    TracksGradients,
    /// The innermost dimension is no multiple of four.
    NotMultipleOfFour { size: usize },
    /// The input has no dimension.
    NoDimension,
    /// An index lies outside the leading dimension.
    LeadingIndex { slot: usize, index: usize, size: usize },
    /// The derivative with respect to the first argument is not known.
    NoDerivative { kind: SpecialBinaryKind },
    /// A dimension has to be at least one.
    ZeroDimension,
    /// The number of values is not the number of indices times the slab size.
    SlabCount { values: usize, indices: usize, slab_size: usize },
    /// A memory format needs another number of dimensions.
    FormatRank { expected: usize, got: usize },
}

impl FerrotorchError {
    /// What [`FerrotorchError::message`] says.
    pub open spec fn message_spec(self) -> Seq<char> {
        match self {
            FerrotorchError::InvalidArgument { reason } => reason.message_spec(),
            FerrotorchError::ShapeMismatch { reason } => reason.message_spec(),
            FerrotorchError::IndexOutOfBounds { .. } => "a coordinate lies outside its dimension"@,
            FerrotorchError::DeviceMismatch { .. } => "two operands reside on different devices"@,
            FerrotorchError::GpuTensorNotAccessible => "the elements do not reside in host memory"@,
            FerrotorchError::DeviceUnavailable => "no backend serves the device"@,
            FerrotorchError::NotImplementedOnCuda { op } => op.message_spec(),
        }
    }

    /// A description in words.
    pub fn message(self) -> (r: &'static str)
        ensures
            r@ == self.message_spec(),
    {
        match self {
            FerrotorchError::InvalidArgument { reason } => reason.message(),
            FerrotorchError::ShapeMismatch { reason } => reason.message(),
            FerrotorchError::IndexOutOfBounds { .. } => "a coordinate lies outside its dimension",
            FerrotorchError::DeviceMismatch { .. } => "two operands reside on different devices",
            FerrotorchError::GpuTensorNotAccessible => "the elements do not reside in host memory",
            FerrotorchError::DeviceUnavailable => "no backend serves the device",
            FerrotorchError::NotImplementedOnCuda { op } => op.message(),
        }
    }
}

impl CudaGap {
    /// What [`CudaGap::message`] says.
    pub open spec fn message_spec(self) -> Seq<char> {
        match self {
            CudaGap::ReadBackRank => "reading back a view of rank above eight"@,
            CudaGap::ViewWriteDtype => "writing through a view of an element type without a scatter kernel"@,
            CudaGap::FormatRank => "rearranging memory of rank above eight, or without a backend"@,
            CudaGap::AsStridedCopy => "a strided copy of an element type without a gather kernel"@,
            CudaGap::AsStridedScatter => "a strided scatter of an element type without a scatter kernel"@,
            CudaGap::SparseToDense => "the dense form of a sparse tensor of an element type without a kernel"@,
            CudaGap::SparseMatmul24 => "a product with a two-of-four matrix of an element type without a kernel"@,
            CudaGap::SparseSgd => "a sparse update of an element type without kernels"@,
            CudaGap::Special { .. } => "a special function without a kernel for the element type or the operands"@,
            CudaGap::SpecialBackward { .. } => "the gradient of a special function without a device form"@,
            CudaGap::Polynomial { .. } => "a polynomial of an element type without kernels"@,
            CudaGap::AsStridedBackward => "the gradient of a strided view of an element type without kernels"@,
        }
    }

    /// A description in words.
    pub fn message(self) -> (r: &'static str)
        ensures
            r@ == self.message_spec(),
    {
        match self {
            CudaGap::ReadBackRank => "reading back a view of rank above eight",
            CudaGap::ViewWriteDtype => "writing through a view of an element type without a scatter kernel",
            CudaGap::FormatRank => "rearranging memory of rank above eight, or without a backend",
            CudaGap::AsStridedCopy => "a strided copy of an element type without a gather kernel",
            CudaGap::AsStridedScatter => "a strided scatter of an element type without a scatter kernel",
            CudaGap::SparseToDense => "the dense form of a sparse tensor of an element type without a kernel",
            CudaGap::SparseMatmul24 => "a product with a two-of-four matrix of an element type without a kernel",
            CudaGap::SparseSgd => "a sparse update of an element type without kernels",
            CudaGap::Special { .. } => "a special function without a kernel for the element type or the operands",
            CudaGap::SpecialBackward { .. } => "the gradient of a special function without a device form",
            CudaGap::Polynomial { .. } => "a polynomial of an element type without kernels",
            CudaGap::AsStridedBackward => "the gradient of a strided view of an element type without kernels",
        }
    }
}

impl LayoutFault {
    /// What [`LayoutFault::message`] says.
    pub open spec fn message_spec(self) -> Seq<char> {
        match self {
            LayoutFault::Start { .. } => "the first pointer is not zero"@,
            LayoutFault::Decreasing { .. } => "a pointer is smaller than the one before it"@,
            LayoutFault::End { .. } => "the last pointer is not the number of entries"@,
            LayoutFault::Index { .. } => "an index is not below its bound"@,
        }
    }

    /// A description in words.
    pub fn message(self) -> (r: &'static str)
        ensures
            r@ == self.message_spec(),
    {
        match self {
            LayoutFault::Start { .. } => "the first pointer is not zero",
            LayoutFault::Decreasing { .. } => "a pointer is smaller than the one before it",
            LayoutFault::End { .. } => "the last pointer is not the number of entries",
            LayoutFault::Index { .. } => "an index is not below its bound",
        }
    }
}

impl Reason {
    /// What [`Reason::message`] says.
    pub open spec fn message_spec(self) -> Seq<char> {
        match self {
            Reason::StrideRank { .. } => "a shape and a stride list of different lengths"@,
            Reason::OffsetBeyondStorage { .. } => "the offset of an empty view lies behind the end of the storage"@,
            Reason::ReachOverflow { .. } => "a position of a view is no machine integer"@,
            Reason::NegativeReach { .. } => "a view reaches below the start of the storage"@,
            Reason::ReachBeyondStorage { .. } => "a view reaches behind the end of the storage"@,
            Reason::ByteCount { .. } => "a buffer has no byte count"@,
            Reason::XpuNeedsRuntime => "portable-runtime storage cannot be made without that runtime"@,
            Reason::MpsNotWired => "metal storage cannot be made here"@,
            Reason::WriteBeyondBuffer { .. } => "a write does not fit the buffer"@,
            Reason::RegionBeyondBuffer { .. } => "a region does not fit the buffer"@,
            Reason::RegionBytes { .. } => "a byte position of a region does not fit the address space"@,
            Reason::XpuRegion { .. } => "part of a portable-runtime buffer cannot be copied"@,
            Reason::StorageTooSmall { .. } => "a shape asks for more elements than the storage has"@,
            Reason::NumelMismatch { .. } => "two shapes, or a shape and a buffer, have different element counts"@,
            Reason::MetaHasNoData => "the elements of a meta tensor cannot be read"@,
            Reason::NotContiguous => "the elements do not stand one behind the other"@,
            Reason::ViewBeyondStorage => "a view extends beyond its storage"@,
            Reason::CpuToXpu => "a move from host memory to a portable-runtime device needs that runtime"@,
            Reason::MetaToDevice { .. } => "a meta tensor cannot be moved to a device"@,
            Reason::ReadBackBytes { .. } => "a byte count that is no multiple of the element size"@,
            Reason::XpuElementSize { .. } => "portable-runtime buffers hold elements of four bytes"@,
            Reason::ConvertFrom { .. } => "a conversion from this device is not supported"@,
            Reason::NotRepresentable { .. } => "an element is not a number of the target type"@,
            Reason::NotScalar { .. } => "the tensor does not have exactly one element"@,
            Reason::NotOnGpu => "the tensor is not on a CUDA device"@,
            Reason::OverlappingWrite => "two elements of a view written through share a position"@,
            Reason::Aliased => "a tensor that others share cannot be resized"@,
            Reason::ScatterShape => "the source of a scatter does not have the shape of the view"@,
            Reason::LengthMismatch { .. } => "two parts of an argument have different lengths"@,
            Reason::IndexRank { .. } => "an entry has a coordinate of another rank than the shape"@,
            Reason::PointerCount { .. } => "the number of pointers is not one more than the size it goes with"@,
            Reason::Compressed { fault, .. } => fault.message_spec(),
            Reason::IndexWidth { .. } => "a number does not fit the 32-bit indices of the sparse backend"@,
            Reason::NotMatrix { .. } => "a matrix is needed"@,
            Reason::InnerSizes { .. } => "the inner sizes of a product differ"@,
            Reason::ShapesDiffer => "the shapes of two operands differ"@,
            Reason::TracksGradients => "the input of a compression tracks gradients"@,
            Reason::NotMultipleOfFour { .. } => "the innermost dimension must be a multiple of 4"@,
            Reason::NoDimension => "the input has no dimension"@,
            Reason::LeadingIndex { .. } => "an index lies outside the leading dimension"@,
            Reason::NoDerivative { .. } => "the derivative with respect to the first argument is not known"@,
            Reason::ZeroDimension => "a dimension has to be at least one"@,
            Reason::SlabCount { .. } => "the number of values is not the number of indices times the slab size"@,
            Reason::FormatRank { .. } => "a memory format needs another number of dimensions"@,
        }
    }

    /// A description in words.
    pub fn message(self) -> (r: &'static str)
        ensures
            r@ == self.message_spec(),
    {
        match self {
            Reason::StrideRank { .. } => "a shape and a stride list of different lengths",
            Reason::OffsetBeyondStorage { .. } => "the offset of an empty view lies behind the end of the storage",
            Reason::ReachOverflow { .. } => "a position of a view is no machine integer",
            Reason::NegativeReach { .. } => "a view reaches below the start of the storage",
            Reason::ReachBeyondStorage { .. } => "a view reaches behind the end of the storage",
            Reason::ByteCount { .. } => "a buffer has no byte count",
            Reason::XpuNeedsRuntime => "portable-runtime storage cannot be made without that runtime",
            Reason::MpsNotWired => "metal storage cannot be made here",
            Reason::WriteBeyondBuffer { .. } => "a write does not fit the buffer",
            Reason::RegionBeyondBuffer { .. } => "a region does not fit the buffer",
            Reason::RegionBytes { .. } => "a byte position of a region does not fit the address space",
            Reason::XpuRegion { .. } => "part of a portable-runtime buffer cannot be copied",
            Reason::StorageTooSmall { .. } => "a shape asks for more elements than the storage has",
            Reason::NumelMismatch { .. } => "two shapes, or a shape and a buffer, have different element counts",
            Reason::MetaHasNoData => "the elements of a meta tensor cannot be read",
            Reason::NotContiguous => "the elements do not stand one behind the other",
            Reason::ViewBeyondStorage => "a view extends beyond its storage",
            Reason::CpuToXpu => "a move from host memory to a portable-runtime device needs that runtime",
            Reason::MetaToDevice { .. } => "a meta tensor cannot be moved to a device",
            Reason::ReadBackBytes { .. } => "a byte count that is no multiple of the element size",
            Reason::XpuElementSize { .. } => "portable-runtime buffers hold elements of four bytes",
            Reason::ConvertFrom { .. } => "a conversion from this device is not supported",
            Reason::NotRepresentable { .. } => "an element is not a number of the target type",
            Reason::NotScalar { .. } => "the tensor does not have exactly one element",
            Reason::NotOnGpu => "the tensor is not on a CUDA device",
            Reason::OverlappingWrite => "two elements of a view written through share a position",
            Reason::Aliased => "a tensor that others share cannot be resized",
            Reason::ScatterShape => "the source of a scatter does not have the shape of the view",
            Reason::LengthMismatch { .. } => "two parts of an argument have different lengths",
            Reason::IndexRank { .. } => "an entry has a coordinate of another rank than the shape",
            Reason::PointerCount { .. } => "the number of pointers is not one more than the size it goes with",
            Reason::Compressed { fault, .. } => fault.message(),
            Reason::IndexWidth { .. } => "a number does not fit the 32-bit indices of the sparse backend",
            Reason::NotMatrix { .. } => "a matrix is needed",
            Reason::InnerSizes { .. } => "the inner sizes of a product differ",
            Reason::ShapesDiffer => "the shapes of two operands differ",
            Reason::TracksGradients => "the input of a compression tracks gradients",
            Reason::NotMultipleOfFour { .. } => "the innermost dimension must be a multiple of 4",
            Reason::NoDimension => "the input has no dimension",
            Reason::LeadingIndex { .. } => "an index lies outside the leading dimension",
            Reason::NoDerivative { .. } => "the derivative with respect to the first argument is not known",
            Reason::ZeroDimension => "a dimension has to be at least one",
            Reason::SlabCount { .. } => "the number of values is not the number of indices times the slab size",
            Reason::FormatRank { .. } => "a memory format needs another number of dimensions",
        }
    }
}

} // verus!
