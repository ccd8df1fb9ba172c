//! Special functions: which lane evaluates them, and what their gradients ask for.
//!
//! The values themselves are computed by scalar kernels that this module is handed as
//! functions; it decides where they run.

use crate::autograd::{Context, TensorId};
use crate::broadcast::{broadcast_shapes, common_shape, stretchable};
use crate::device::{Device, GpuBufferHandle};
use crate::dtype::{is_nan, is_nan_spec, is_zero, is_zero_spec, Float};
use crate::error::{CudaGap, FerrotorchError, FerrotorchResult, Reason};
use crate::scatter::copied;
use crate::shape;
use crate::storage::{StorageBuffer, TensorStorage};
use crate::stride_tricks::same_shape;
use crate::tensor::{too_small, Tensor};
use crate::update::{scatter_kernel, scatter_kernel_spec, ScatterKernel};
use vstd::prelude::*;

verus! {

/// A special function.
#[derive(Clone, Copy, Debug, PartialEq, Eq, Structural)]
pub enum SpecialOp {
    Erf,
    Erfc,
    Erfinv,
    Lgamma,
    Digamma,
    Entr,
    Ndtr,
    Ndtri,
    I0,
    I0e,
    I1,
    I1e,
    SphericalBesselJ0,
    ModifiedBesselK0,
    ScaledModifiedBesselK0,
    ModifiedBesselK1,
    ScaledModifiedBesselK1,
    AiryAi,
    Zeta,
    Xlogy,
    Gammainc,
    Gammaincc,
    LogBeta,
    Beta,
    Multigammaln,
    GammalnSign,
}

impl SpecialOp {
    /// What [`SpecialOp::name`] says.
    pub open spec fn name_spec(self) -> Seq<char> {
        match self {
            SpecialOp::Erf => "erf"@,
            SpecialOp::Erfc => "erfc"@,
            SpecialOp::Erfinv => "erfinv"@,
            SpecialOp::Lgamma => "lgamma"@,
            SpecialOp::Digamma => "digamma"@,
            SpecialOp::Entr => "entr"@,
            SpecialOp::Ndtr => "ndtr"@,
            SpecialOp::Ndtri => "ndtri"@,
            SpecialOp::I0 => "i0"@,
            SpecialOp::I0e => "i0e"@,
            SpecialOp::I1 => "i1"@,
            SpecialOp::I1e => "i1e"@,
            SpecialOp::SphericalBesselJ0 => "spherical_bessel_j0"@,
            SpecialOp::ModifiedBesselK0 => "modified_bessel_k0"@,
            SpecialOp::ScaledModifiedBesselK0 => "scaled_modified_bessel_k0"@,
            SpecialOp::ModifiedBesselK1 => "modified_bessel_k1"@,
            SpecialOp::ScaledModifiedBesselK1 => "scaled_modified_bessel_k1"@,
            SpecialOp::AiryAi => "airy_ai"@,
            SpecialOp::Zeta => "zeta"@,
            SpecialOp::Xlogy => "xlogy"@,
            SpecialOp::Gammainc => "gammainc"@,
            SpecialOp::Gammaincc => "gammaincc"@,
            SpecialOp::LogBeta => "log_beta"@,
            SpecialOp::Beta => "beta"@,
            SpecialOp::Multigammaln => "multigammaln"@,
            SpecialOp::GammalnSign => "gammaln_sign"@,
        }
    }

    /// The name of the function.
    pub fn name(self) -> (r: &'static str)
        ensures
            r@ == self.name_spec(),
    {
        match self {
            SpecialOp::Erf => "erf",
            SpecialOp::Erfc => "erfc",
            SpecialOp::Erfinv => "erfinv",
            SpecialOp::Lgamma => "lgamma",
            SpecialOp::Digamma => "digamma",
            SpecialOp::Entr => "entr",
            SpecialOp::Ndtr => "ndtr",
            SpecialOp::Ndtri => "ndtri",
            SpecialOp::I0 => "i0",
            SpecialOp::I0e => "i0e",
            SpecialOp::I1 => "i1",
            SpecialOp::I1e => "i1e",
            SpecialOp::SphericalBesselJ0 => "spherical_bessel_j0",
            SpecialOp::ModifiedBesselK0 => "modified_bessel_k0",
            SpecialOp::ScaledModifiedBesselK0 => "scaled_modified_bessel_k0",
            SpecialOp::ModifiedBesselK1 => "modified_bessel_k1",
            SpecialOp::ScaledModifiedBesselK1 => "scaled_modified_bessel_k1",
            SpecialOp::AiryAi => "airy_ai",
            SpecialOp::Zeta => "zeta",
            SpecialOp::Xlogy => "xlogy",
            SpecialOp::Gammainc => "gammainc",
            SpecialOp::Gammaincc => "gammaincc",
            SpecialOp::LogBeta => "log_beta",
            SpecialOp::Beta => "beta",
            SpecialOp::Multigammaln => "multigammaln",
            SpecialOp::GammalnSign => "gammaln_sign",
        }
    }
}

/// A special function of one argument that has a gradient.
#[derive(Clone, Copy, Debug, PartialEq, Eq, Structural)]
pub enum SpecialUnaryKind {
    Erf,
    Erfc,
    Erfinv,
    Lgamma,
    Digamma,
    Entr,
    Ndtr,
    Ndtri,
    I0,
    I0e,
    I1,
    I1e,
    /// The multivariate log-gamma function of dimension `p`.
    Multigammaln { p: usize },
}

impl SpecialUnaryKind {
    /// What [`SpecialUnaryKind::name`] says.
    pub open spec fn name_spec(self) -> Seq<char> {
        match self {
            SpecialUnaryKind::Erf => "ErfBackward"@,
            SpecialUnaryKind::Erfc => "ErfcBackward"@,
            SpecialUnaryKind::Erfinv => "ErfinvBackward"@,
            SpecialUnaryKind::Lgamma => "LgammaBackward"@,
            SpecialUnaryKind::Digamma => "DigammaBackward"@,
            SpecialUnaryKind::Entr => "SpecialEntrBackward"@,
            SpecialUnaryKind::Ndtr => "SpecialNdtrBackward"@,
            SpecialUnaryKind::Ndtri => "SpecialNdtriBackward"@,
            SpecialUnaryKind::I0 => "SpecialI0Backward"@,
            SpecialUnaryKind::I0e => "SpecialI0EBackward"@,
            SpecialUnaryKind::I1 => "SpecialI1Backward"@,
            SpecialUnaryKind::I1e => "SpecialI1EBackward"@,
            SpecialUnaryKind::Multigammaln { .. } => "MvlgammaBackward"@,
        }
    }

    /// The name of the gradient.
    pub fn name(self) -> (r: &'static str)
        ensures
            r@ == self.name_spec(),
    {
        match self {
            SpecialUnaryKind::Erf => "ErfBackward",
            SpecialUnaryKind::Erfc => "ErfcBackward",
            SpecialUnaryKind::Erfinv => "ErfinvBackward",
            SpecialUnaryKind::Lgamma => "LgammaBackward",
            SpecialUnaryKind::Digamma => "DigammaBackward",
            SpecialUnaryKind::Entr => "SpecialEntrBackward",
            SpecialUnaryKind::Ndtr => "SpecialNdtrBackward",
            SpecialUnaryKind::Ndtri => "SpecialNdtriBackward",
            SpecialUnaryKind::I0 => "SpecialI0Backward",
            SpecialUnaryKind::I0e => "SpecialI0EBackward",
            SpecialUnaryKind::I1 => "SpecialI1Backward",
            SpecialUnaryKind::I1e => "SpecialI1EBackward",
            SpecialUnaryKind::Multigammaln { .. } => "MvlgammaBackward",
        }
    }

    /// What [`SpecialUnaryKind::op`] says.
    pub open spec fn op_spec(self) -> Seq<char> {
        match self {
            SpecialUnaryKind::Erf => "erf_backward"@,
            SpecialUnaryKind::Erfc => "erfc_backward"@,
            SpecialUnaryKind::Erfinv => "erfinv_backward"@,
            SpecialUnaryKind::Lgamma => "lgamma_backward"@,
            SpecialUnaryKind::Digamma => "digamma_backward"@,
            SpecialUnaryKind::Entr => "entr_backward"@,
            SpecialUnaryKind::Ndtr => "ndtr_backward"@,
            SpecialUnaryKind::Ndtri => "ndtri_backward"@,
            SpecialUnaryKind::I0 => "i0_backward"@,
            SpecialUnaryKind::I0e => "i0e_backward"@,
            SpecialUnaryKind::I1 => "i1_backward"@,
            SpecialUnaryKind::I1e => "i1e_backward"@,
            SpecialUnaryKind::Multigammaln { .. } => "mvlgamma_backward"@,
        }
    }

    /// The name of the operation that computes the gradient.
    pub fn op(self) -> (r: &'static str)
        ensures
            r@ == self.op_spec(),
    {
        match self {
            SpecialUnaryKind::Erf => "erf_backward",
            SpecialUnaryKind::Erfc => "erfc_backward",
            SpecialUnaryKind::Erfinv => "erfinv_backward",
            SpecialUnaryKind::Lgamma => "lgamma_backward",
            SpecialUnaryKind::Digamma => "digamma_backward",
            SpecialUnaryKind::Entr => "entr_backward",
            SpecialUnaryKind::Ndtr => "ndtr_backward",
            SpecialUnaryKind::Ndtri => "ndtri_backward",
            SpecialUnaryKind::I0 => "i0_backward",
            SpecialUnaryKind::I0e => "i0e_backward",
            SpecialUnaryKind::I1 => "i1_backward",
            SpecialUnaryKind::I1e => "i1e_backward",
            SpecialUnaryKind::Multigammaln { .. } => "mvlgamma_backward",
        }
    }
}

/// A special function of two arguments that has a gradient.
#[derive(Clone, Copy, Debug, PartialEq, Eq, Structural)]
pub enum SpecialBinaryKind {
    Xlogy,
    /// The lower regularized incomplete gamma function.
    Gammainc,
    /// The upper regularized incomplete gamma function.
    Gammaincc,
    LogBeta,
    Beta,
    Zeta,
}

impl SpecialBinaryKind {
    /// What [`SpecialBinaryKind::name`] says.
    pub open spec fn name_spec(self) -> Seq<char> {
        match self {
            SpecialBinaryKind::Xlogy => "XlogyBackward"@,
            SpecialBinaryKind::Gammainc => "IgammaBackward"@,
            SpecialBinaryKind::Gammaincc => "IgammacBackward"@,
            SpecialBinaryKind::LogBeta => "LogBetaBackward"@,
            SpecialBinaryKind::Beta => "BetaBackward"@,
            SpecialBinaryKind::Zeta => "SpecialZetaBackward"@,
        }
    }

    /// The name of the gradient.
    pub fn name(self) -> (r: &'static str)
        ensures
            r@ == self.name_spec(),
    {
        match self {
            SpecialBinaryKind::Xlogy => "XlogyBackward",
            SpecialBinaryKind::Gammainc => "IgammaBackward",
            SpecialBinaryKind::Gammaincc => "IgammacBackward",
            SpecialBinaryKind::LogBeta => "LogBetaBackward",
            SpecialBinaryKind::Beta => "BetaBackward",
            SpecialBinaryKind::Zeta => "SpecialZetaBackward",
        }
    }

    /// No derivative with respect to the first argument is known.
    pub open spec fn first_underivable(self) -> bool {
        self is Gammainc || self is Gammaincc || self is Zeta
    }

    /// Which gradients to compute, by which arguments track gradients. Refused where
    /// the first argument does and its derivative is not known.
    pub fn wanted_grads(self, first: bool, second: bool) -> (r: FerrotorchResult<(bool, bool)>)
        ensures
            if first && self.first_underivable() {
                r matches Err(e) && e == (FerrotorchError::InvalidArgument {
                    reason: Reason::NoDerivative { kind: self },
                })
            } else {
                r == Ok::<(bool, bool), FerrotorchError>((first, second))
            },
    {
        let underivable: bool = match self {
            SpecialBinaryKind::Gammainc => true,
            SpecialBinaryKind::Gammaincc => true,
            SpecialBinaryKind::Zeta => true,
            _ => false,
        };
        if first && underivable {
            return Err(
                FerrotorchError::InvalidArgument { reason: Reason::NoDerivative { kind: self } },
            );
        }
        Ok((first, second))
    }
}

/// Where a gradient is computed.
#[derive(Clone, Copy, Debug, PartialEq, Eq, Structural)]
pub enum GradLane {
    /// Nowhere: the input does not track gradients.
    Skip,
    /// On the host, element by element.
    Host,
    /// On the device, by tensor operations.
    Device,
}

/// Where the gradient of a special function of one argument is computed.
pub fn unary_grad_lane<T: Float>(
    kind: SpecialUnaryKind,
    input: &Tensor<T>,
    grad_output: &Tensor<T>,
) -> (r: FerrotorchResult<GradLane>)
    ensures
        if !input.inner.requires_grad {
            r == Ok::<GradLane, FerrotorchError>(GradLane::Skip)
        } else if input.inner.storage.device is Cuda || grad_output.inner.storage.device is Cuda {
            if kind is Lgamma || kind is Digamma || kind is Multigammaln {
                r matches Err(e) && e == (FerrotorchError::NotImplementedOnCuda {
                    op: CudaGap::SpecialBackward { kind },
                })
            } else {
                r == Ok::<GradLane, FerrotorchError>(GradLane::Device)
            }
        } else {
            r == Ok::<GradLane, FerrotorchError>(GradLane::Host)
        },
{
    if !input.requires_grad() {
        return Ok(GradLane::Skip);
    }
    if input.is_cuda() || grad_output.is_cuda() {
        return match kind {
            SpecialUnaryKind::Lgamma => Err(
                FerrotorchError::NotImplementedOnCuda { op: CudaGap::SpecialBackward { kind } },
            ),
            SpecialUnaryKind::Digamma => Err(
                FerrotorchError::NotImplementedOnCuda { op: CudaGap::SpecialBackward { kind } },
            ),
            SpecialUnaryKind::Multigammaln { .. } => Err(
                FerrotorchError::NotImplementedOnCuda { op: CudaGap::SpecialBackward { kind } },
            ),
            _ => Ok(GradLane::Device),
        };
    }
    Ok(GradLane::Host)
}

/// Whether the result of a function of one argument tracks gradients.
pub fn special_needs_grad_unary<T: Float>(input: &Tensor<T>, ctx: Context) -> (r: bool)
    ensures
        r == (ctx.grad_enabled && input.inner.requires_grad),
{
    ctx.grad_enabled && input.requires_grad()
}

/// Whether the result of a function of two arguments tracks gradients.
pub fn special_needs_grad_binary<T: Float>(a: &Tensor<T>, b: &Tensor<T>, ctx: Context) -> (r: bool)
    ensures
        r == (ctx.grad_enabled && (a.inner.requires_grad || b.inner.requires_grad)),
{
    ctx.grad_enabled && (a.requires_grad() || b.requires_grad())
}

/// A special function to be evaluated on a CUDA device: every operand is stretched to
/// the shape of the result and made contiguous first.
#[derive(Debug)]
pub struct SpecialJob<T: Float> {
    pub op: SpecialOp,
    pub kernel: ScatterKernel,
    pub x: Tensor<T>,
    pub y: Option<Tensor<T>>,
    pub shape: Vec<usize>,
}

/// The error for a special function without a CUDA kernel.
pub open spec fn no_kernel(op: SpecialOp) -> FerrotorchError {
    FerrotorchError::NotImplementedOnCuda { op: CudaGap::Special { op } }
}

fn no_kernel_for(op: SpecialOp) -> (r: FerrotorchError)
    ensures
        r == no_kernel(op),
{
    FerrotorchError::NotImplementedOnCuda { op: CudaGap::Special { op } }
}

/// The device work for a function of one argument; `None` if the host evaluates it.
pub fn special_gpu_simple<T: Float>(input: &Tensor<T>, op: SpecialOp, ctx: Context) -> (r:
    FerrotorchResult<Option<SpecialJob<T>>>)
    ensures
        if !(input.inner.storage.device is Cuda) {
            r matches Ok(None)
        } else if scatter_kernel_spec(T::dtype_spec()) is None {
            r matches Err(e) && e == no_kernel(op)
        } else if !ctx.backend {
            r matches Err(e) && e == FerrotorchError::DeviceUnavailable
        } else {
            r matches Ok(Some(j)) && j.op == op && Some(j.kernel) == scatter_kernel_spec(
                T::dtype_spec(),
            ) && j.x == *input && j.y is None && j.shape@ == input.inner.shape@
        },
{
    if !input.is_cuda() {
        return Ok(None);
    }
    match scatter_kernel(T::dtype()) {
        None => Err(no_kernel_for(op)),
        Some(kernel) => if ctx.backend {
            Ok(
                Some(
                    SpecialJob {
                        op,
                        kernel,
                        x: input.clone(),
                        y: None,
                        shape: copied(input.shape()),
                    },
                ),
            )
        } else {
            Err(FerrotorchError::DeviceUnavailable)
        },
    }
}

/// The device work for a function of two arguments whose kernel does not stretch its
/// operands, which reside on one device; `None` if the host evaluates it.
pub fn special_gpu_binary<T: Float>(
    x: &Tensor<T>,
    q: &Tensor<T>,
    op: SpecialOp,
    ctx: Context,
) -> (r: FerrotorchResult<Option<SpecialJob<T>>>)
    ensures
        if !(x.inner.storage.device is Cuda) && !(q.inner.storage.device is Cuda) {
            r matches Ok(None)
        } else if scatter_kernel_spec(T::dtype_spec()) is None || x.inner.storage.device
            != q.inner.storage.device || x.inner.shape@ != q.inner.shape@ {
            r matches Err(e) && e == no_kernel(op)
        } else if !ctx.backend {
            r matches Err(e) && e == FerrotorchError::DeviceUnavailable
        } else {
            r matches Ok(Some(j)) && j.op == op && Some(j.kernel) == scatter_kernel_spec(
                T::dtype_spec(),
            ) && j.x == *x && j.y == Some(*q) && j.shape@ == x.inner.shape@
        },
{
    if !x.is_cuda() && !q.is_cuda() {
        return Ok(None);
    }
    let kernel: ScatterKernel = match scatter_kernel(T::dtype()) {
        Some(k) => k,
        None => return Err(no_kernel_for(op)),
    };
    if x.device() != q.device() || !same_shape(x.shape(), q.shape()) {
        return Err(no_kernel_for(op));
    }
    if !ctx.backend {
        return Err(FerrotorchError::DeviceUnavailable);
    }
    Ok(
        Some(
            SpecialJob {
                op,
                kernel,
                x: x.clone(),
                y: Some(q.clone()),
                shape: copied(x.shape()),
            },
        ),
    )
}

/// The device work for a function of two arguments that are stretched to a common
/// shape; `None` if the host evaluates it.
pub fn special_gpu_binary_broadcast<T: Float>(
    x: &Tensor<T>,
    y: &Tensor<T>,
    op: SpecialOp,
    ctx: Context,
) -> (r: FerrotorchResult<Option<SpecialJob<T>>>)
    ensures
        if !(x.inner.storage.device is Cuda) && !(y.inner.storage.device is Cuda) {
            r matches Ok(None)
        } else if !(x.inner.storage.device is Cuda) || !(y.inner.storage.device is Cuda) {
            r matches Err(e) && e == no_kernel(op)
        } else if x.inner.storage.device != y.inner.storage.device {
            r matches Err(e) && e == (FerrotorchError::DeviceMismatch {
                expected: x.inner.storage.device,
                got: y.inner.storage.device,
            })
        } else if scatter_kernel_spec(T::dtype_spec()) is None {
            r matches Err(e) && e == no_kernel(op)
        } else if !stretchable(x.inner.shape@, y.inner.shape@) {
            r matches Err(e) && e == (FerrotorchError::ShapeMismatch {
                reason: Reason::ShapesDiffer,
            })
        } else if !ctx.backend {
            r matches Err(e) && e == FerrotorchError::DeviceUnavailable
        } else {
            r matches Ok(Some(j)) && j.op == op && Some(j.kernel) == scatter_kernel_spec(
                T::dtype_spec(),
            ) && j.x == *x && j.y == Some(*y) && j.shape@ == common_shape(
                x.inner.shape@,
                y.inner.shape@,
            )
        },
{
    if !x.is_cuda() && !y.is_cuda() {
        return Ok(None);
    }
    if !x.is_cuda() || !y.is_cuda() {
        return Err(no_kernel_for(op));
    }
    if x.device() != y.device() {
        return Err(FerrotorchError::DeviceMismatch { expected: x.device(), got: y.device() });
    }
    let kernel: ScatterKernel = match scatter_kernel(T::dtype()) {
        Some(k) => k,
        None => return Err(no_kernel_for(op)),
    };
    let out: Vec<usize> = match broadcast_shapes(x.shape(), y.shape()) {
        Ok(s) => s,
        Err(e) => return Err(e),
    };
    if !ctx.backend {
        return Err(FerrotorchError::DeviceUnavailable);
    }
    Ok(Some(SpecialJob { op, kernel, x: x.clone(), y: Some(y.clone()), shape: out }))
}

/// The result over the device buffer that holds its elements.
pub fn poly_gpu_output<T: Float>(handle: GpuBufferHandle, sh: Vec<usize>, id: TensorId) -> (r:
    FerrotorchResult<Tensor<T>>)
    requires
        shape::shape_fits(sh@),
    ensures
        ({
            let storage = TensorStorage {
                data: StorageBuffer::<T>::Gpu(handle),
                device: Device::Cuda(handle.ordinal),
            };
            match r {
                Ok(t) => {
                    &&& shape::prod(sh@) <= handle.len
                    &&& t.is_dense(id, storage, sh@)
                    &&& t.is_plain(false)
                    &&& t.wf()
                    &&& t.in_bounds()
                },
                Err(e) => shape::prod(sh@) > handle.len && e == too_small(sh@, storage),
            }
        }),
{
    Tensor::from_storage(TensorStorage::gpu(handle), sh, false, id)
}

/// Refuses a CUDA operand.
pub fn reject_cuda_unary<T: Float>(input: &Tensor<T>, op: SpecialOp) -> (r: FerrotorchResult<()>)
    ensures
        if input.inner.storage.device is Cuda {
            r matches Err(e) && e == no_kernel(op)
        } else {
            r is Ok
        },
{
    if input.is_cuda() {
        Err(no_kernel_for(op))
    } else {
        Ok(())
    }
}

/// Refuses CUDA operands.
pub fn reject_cuda_binary<T: Float>(a: &Tensor<T>, b: &Tensor<T>, op: SpecialOp) -> (r:
    FerrotorchResult<()>)
    ensures
        if a.inner.storage.device is Cuda || b.inner.storage.device is Cuda {
            r matches Err(e) && e == no_kernel(op)
        } else {
            r is Ok
        },
{
    if a.is_cuda() || b.is_cuda() {
        Err(no_kernel_for(op))
    } else {
        Ok(())
    }
}

/// Whether the multivariate log-gamma function of dimension `p` is evaluated on the
/// host: the dimension has to be positive, and there is no device kernel.
pub fn check_multigammaln<T: Float>(input: &Tensor<T>, p: usize) -> (r: FerrotorchResult<()>)
    ensures
        if p == 0 {
            r matches Err(e) && e == (FerrotorchError::InvalidArgument {
                reason: Reason::ZeroDimension,
            })
        } else if input.inner.storage.device is Cuda {
            r matches Err(e) && e == no_kernel(SpecialOp::Multigammaln)
        } else {
            r is Ok
        },
{
    if p == 0 {
        return Err(FerrotorchError::InvalidArgument { reason: Reason::ZeroDimension });
    }
    reject_cuda_unary(input, SpecialOp::Multigammaln)
}

/// A polynomial with these coefficients, the highest first, by the first `n` of them.
pub open spec fn horner<T: Float>(x: T, coeffs: Seq<T>, n: int) -> T
    decreases n,
{
    if n <= 0 {
        T::zero_spec()
    } else {
        horner(x, coeffs, n - 1).times(x).plus(coeffs[n - 1])
    }
}

/// The values on the way to a polynomial: zero, and from one coefficient to the next the
/// value times `x` plus the coefficient.
pub open spec fn is_horner_run<T: Float>(h: Seq<T>, x: T, coeffs: Seq<T>) -> bool {
    &&& h.len() == coeffs.len() + 1
    &&& h[0] == T::zero_spec()
    &&& forall|i: int|
        #![trigger coeffs[i]]
        0 <= i < coeffs.len() ==> h[i + 1] == h[i].times(x).plus(coeffs[i])
}

/// A polynomial is the last value on the way to it.
pub proof fn lemma_horner_run<T: Float>(x: T, coeffs: Seq<T>)
    ensures
        exists|h: Seq<T>|
            #[trigger] is_horner_run(h, x, coeffs) && horner(x, coeffs, coeffs.len() as int)
                == h[coeffs.len() as int],
{
    let h = Seq::new(coeffs.len() + 1, |i: int| horner(x, coeffs, i));
    assert(is_horner_run(h, x, coeffs));
}

/// One more coefficient: a polynomial times `x` plus the coefficient; a polynomial without
/// coefficients is zero.
pub proof fn lemma_horner_appended<T: Float>(x: T, coeffs: Seq<T>, c: T)
    ensures
        horner(x, coeffs.push(c), coeffs.len() as int + 1) == horner(
            x,
            coeffs,
            coeffs.len() as int,
        ).times(x).plus(c),
        horner(x, Seq::<T>::empty(), 0) == T::zero_spec(),
{
    lemma_horner_longer(x, coeffs, c, coeffs.len() as int);
}

proof fn lemma_horner_longer<T: Float>(x: T, coeffs: Seq<T>, c: T, n: int)
    requires
        0 <= n <= coeffs.len(),
    ensures
        horner(x, coeffs.push(c), n) == horner(x, coeffs, n),
    decreases n,
{
    if n > 0 {
        lemma_horner_longer(x, coeffs, c, n - 1);
    }
}

/// A polynomial with these coefficients, the highest first.
pub fn polevl<T: Float>(x: T, coeffs: &[T]) -> (r: T)
    ensures
        r == horner(x, coeffs@, coeffs@.len() as int),
        exists|h: Seq<T>| #[trigger] is_horner_run(h, x, coeffs@) && r == h[coeffs@.len() as int],
{
    let mut result: T = T::zero();
    let mut i: usize = 0;
    while i < coeffs.len()
        invariant
            i <= coeffs@.len(),
            result == horner(x, coeffs@, i as int),
        decreases coeffs.len() - i,
    {
        result = result.mul(x).add(coeffs[i]);
        i = i + 1;
    }
    proof {
        lemma_horner_run(x, coeffs@);
    }
    result
}

/// The running values of a Chebyshev series after the first `n` coefficients.
pub open spec fn clenshaw<T: Float>(x: T, coeffs: Seq<T>, n: int) -> (T, T, T)
    decreases n,
{
    if n <= 1 {
        (coeffs[0], T::zero_spec(), T::zero_spec())
    } else {
        let (b0, b1, b2) = clenshaw(x, coeffs, n - 1);
        (x.times(b0).minus(b1).plus(coeffs[n - 1]), b0, b1)
    }
}

/// A half.
pub open spec fn half_spec<T: Float>() -> T {
    T::one_spec().over(T::one_spec().plus(T::one_spec()))
}

/// The values on the way to a Chebyshev series: two zeros, the first coefficient, and
/// `x` times the last value less the one before it plus the coefficient.
pub open spec fn is_clenshaw_run<T: Float>(b: Seq<T>, x: T, coeffs: Seq<T>) -> bool {
    &&& b.len() == coeffs.len() + 2
    &&& b[0] == T::zero_spec()
    &&& b[1] == T::zero_spec()
    &&& b[2] == coeffs[0]
    &&& forall|i: int|
        #![trigger coeffs[i]]
        1 <= i < coeffs.len() ==> b[i + 2] == x.times(b[i + 1]).minus(b[i]).plus(coeffs[i])
}

/// The running values of a Chebyshev series are the last three on the way to it.
pub proof fn lemma_clenshaw_run<T: Float>(x: T, coeffs: Seq<T>)
    requires
        coeffs.len() > 0,
    ensures
        ({
            let n = coeffs.len() as int;
            exists|b: Seq<T>|
                #[trigger] is_clenshaw_run(b, x, coeffs) && clenshaw(x, coeffs, n) == (
                    b[n + 1],
                    b[n],
                    b[n - 1],
                )
        }),
{
    let n = coeffs.len() as int;
    let b = Seq::new(
        coeffs.len() + 2,
        |i: int|
            if i < 2 {
                T::zero_spec()
            } else {
                clenshaw(x, coeffs, i - 1).0
            },
    );
    reveal_with_fuel(clenshaw, 3);
    assert forall|i: int| #![trigger coeffs[i]] 1 <= i < coeffs.len() implies b[i + 2] == x.times(
        b[i + 1],
    ).minus(b[i]).plus(coeffs[i]) by {
        assert(b[i + 2] == clenshaw(x, coeffs, i + 1).0);
        assert(b[i + 1] == clenshaw(x, coeffs, i).0);
        if i > 1 {
            assert(b[i] == clenshaw(x, coeffs, i - 1).0);
        }
    }
    assert(is_clenshaw_run(b, x, coeffs));
    assert(b[n + 1] == clenshaw(x, coeffs, n).0);
    if n > 1 {
        assert(b[n] == clenshaw(x, coeffs, n - 1).0);
        if n > 2 {
            assert(b[n - 1] == clenshaw(x, coeffs, n - 2).0);
        }
    }
}

/// A Chebyshev series with these coefficients.
pub fn chbevl<T: Float>(x: T, coeffs: &[T]) -> (r: T)
    requires
        coeffs@.len() > 0,
    ensures
        ({
            let (b0, b1, b2) = clenshaw(x, coeffs@, coeffs@.len() as int);
            r == half_spec::<T>().times(b0.minus(b2))
        }),
        exists|b: Seq<T>|
            #[trigger] is_clenshaw_run(b, x, coeffs@) && r == T::one_spec().over(
                T::one_spec().plus(T::one_spec()),
            ).times(b[coeffs@.len() as int + 1].minus(b[coeffs@.len() - 1])),
{
    let mut b0: T = coeffs[0];
    let mut b1: T = T::zero();
    let mut b2: T = T::zero();
    let mut i: usize = 1;
    while i < coeffs.len()
        invariant
            1 <= i <= coeffs@.len(),
            (b0, b1, b2) == clenshaw(x, coeffs@, i as int),
        decreases coeffs.len() - i,
    {
        b2 = b1;
        b1 = b0;
        b0 = x.mul(b1).sub(b2).add(coeffs[i]);
        i = i + 1;
    }
    proof {
        lemma_clenshaw_run(x, coeffs@);
    }
    let half: T = T::one().div(T::one().add(T::one()));
    half.mul(b0.sub(b2))
}

/// `x log y`, given the logarithm of `y`: zero where `x` is zero, unless `y` is not a
/// number.
pub open spec fn xlogy_spec<T: Float>(x: T, y: T, log_y: T) -> T {
    if is_nan_spec(y) {
        y
    } else if is_zero_spec(x) {
        T::zero_spec()
    } else {
        x.times(log_y)
    }
}

/// What `x log y` is: not a number where `y` is none, zero where `x` is zero, and else the
/// product of `x`, with its sign, and the logarithm.
pub proof fn lemma_xlogy<T: Float>(x: T, y: T, log_y: T)
    ensures
        !y.same(y) ==> xlogy_spec(x, y, log_y) == y,
        y.same(y) && x.same(T::zero_spec()) ==> xlogy_spec(x, y, log_y) == T::zero_spec(),
        y.same(y) && !x.same(T::zero_spec()) ==> xlogy_spec(x, y, log_y) == x.times(log_y),
{
}

/// `x log y`, given the logarithm of `y`.
pub fn xlogy_scalar<T: Float>(x: T, y: T, log_y: T) -> (r: T)
    ensures
        r == xlogy_spec(x, y, log_y),
        !y.same(y) ==> r == y,
        y.same(y) && x.same(T::zero_spec()) ==> r == T::zero_spec(),
        y.same(y) && !x.same(T::zero_spec()) ==> r == x.times(log_y),
{
    if is_nan(y) {
        return y;
    }
    if is_zero(x) {
        T::zero()
    } else {
        x.mul(log_y)
    }
}

/// The gradient of `x log y` with respect to `x`, given the logarithm of `y`: the
/// upstream gradient takes the place of `x`, and there is none where `x` is zero and
/// `y` is not positive.
pub fn xlogy_grad_first<T: Float>(g: T, x: T, y: T, log_y: T) -> (r: T)
    ensures
        r == (if is_zero_spec(x) && (y.below(T::zero_spec()) || is_zero_spec(y)) {
            T::zero_spec()
        } else {
            xlogy_spec(g, y, log_y)
        }),
        x.same(T::zero_spec()) && (y.below(T::zero_spec()) || y.same(T::zero_spec())) ==> r
            == T::zero_spec(),
        y.same(y) && !x.same(T::zero_spec()) && !g.same(T::zero_spec()) ==> r == g.times(log_y),
        y.same(y) && !y.below(T::zero_spec()) && !y.same(T::zero_spec()) && !g.same(
            T::zero_spec(),
        ) ==> r == g.times(log_y),
        y.same(y) && g.same(T::zero_spec()) ==> r == T::zero_spec(),
{
    if is_zero(x) && (y.is_below(T::zero()) || is_zero(y)) {
        T::zero()
    } else {
        xlogy_scalar(g, y, log_y)
    }
}

/// The gradient of `x log y` with respect to `y`.
pub fn xlogy_grad_second<T: Float>(g: T, x: T, y: T) -> (r: T)
    ensures
        r == g.times(x).over(y),
{
    g.mul(x).div(y)
}

/// The gradient of the beta function, or of its logarithm, with respect to an argument,
/// given the result and the digamma function of the argument and of the sum.
pub fn beta_grad<T: Float>(kind: SpecialBinaryKind, g: T, out: T, digamma_arg: T, digamma_sum: T)
    -> (r: T)
    ensures
        r == (if kind is Beta {
            g.times(out)
        } else {
            g
        }).times(digamma_arg.minus(digamma_sum)),
{
    let scale: T = match kind {
        SpecialBinaryKind::Beta => g.mul(out),
        _ => g,
    };
    scale.mul(digamma_arg.sub(digamma_sum))
}

} // verus!
