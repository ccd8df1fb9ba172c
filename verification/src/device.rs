//! Devices and the handles of device memory.

use crate::dtype::DType;
use vstd::prelude::*;

verus! {

/// Where a tensor resides.
#[derive(Clone, Copy, Debug, PartialEq, Eq, Structural)]
pub enum Device {
    /// Host memory.
    Cpu,
    /// A CUDA device.
    Cuda(usize),
    /// A portable-runtime device.
    Xpu(usize),
    /// A Metal device.
    Mps(usize),
    /// No memory at all: shape and type only.
    Meta,
}

impl Device {
    /// Whether this is host memory.
    pub fn is_cpu(&self) -> (r: bool)
        ensures
            r == (*self is Cpu),
    {
        matches!(self, Device::Cpu)
    }

    /// Whether this is a CUDA device.
    pub fn is_cuda(&self) -> (r: bool)
        ensures
            r == (*self is Cuda),
    {
        matches!(self, Device::Cuda(_))
    }

    /// Whether this is the meta device.
    pub fn is_meta(&self) -> (r: bool)
        ensures
            r == (*self is Meta),
    {
        matches!(self, Device::Meta)
    }
}

/// A buffer in CUDA device memory. The backend that owns the memory finds it by
/// its key.
#[derive(Clone, Copy, Debug, PartialEq, Eq, Structural)]
pub struct GpuBufferHandle {
    pub key: u64,
    pub len: usize,
    pub dtype: DType,
    pub ordinal: usize,
}

impl GpuBufferHandle {
    /// Number of elements in the buffer.
    pub fn len(&self) -> (r: usize)
        ensures
            r == self.len,
    {
        self.len
    }

    /// The device the buffer resides on.
    pub fn device_ordinal(&self) -> (r: usize)
        ensures
            r == self.ordinal,
    {
        self.ordinal
    }
}

/// A buffer in the memory of a portable-runtime device. Its elements are
/// single-precision numbers.
#[derive(Clone, Copy, Debug, PartialEq, Eq, Structural)]
pub struct CubeBufferHandle {
    pub key: u64,
    pub len: usize,
    pub ordinal: usize,
}

impl CubeBufferHandle {
    /// Number of elements in the buffer.
    pub fn len(&self) -> (r: usize)
        ensures
            r == self.len,
    {
        self.len
    }

    /// Whether the buffer is empty.
    pub fn is_empty(&self) -> (r: bool)
        ensures
            r == (self.len == 0),
    {
        self.len == 0
    }
}

} // verus!
