//! Special functions applied to tensors: lane, values and gradient edge together.

use crate::autograd::{Context, Plan, TensorId};
use crate::broadcast::{
    binary_map, common_shape, elementwise_native, lemma_common_shape,
    reduce_grad_to_shape, reduced, source_position, source_positions,
    stretchable,
};
use crate::dtype::Float;
use crate::error::{FerrotorchError, FerrotorchResult, Reason};
use crate::scatter::copied;
use crate::shape;
use crate::special::{
    no_kernel, reject_cuda_binary, reject_cuda_unary, special_gpu_binary,
    special_gpu_binary_broadcast, special_gpu_simple, special_needs_grad_binary,
    special_needs_grad_unary, unary_grad_lane, GradLane, SpecialBinaryKind, SpecialJob, SpecialOp,
    SpecialUnaryKind,
};
use crate::storage::TensorStorage;
use crate::tensor::{too_small, GradFn, Tensor};
use crate::transfer::TransferJob;
use crate::update::scatter_kernel_spec;
use vstd::prelude::*;

verus! {

/// The gradient of a special function of one argument.
#[derive(Debug)]
pub struct SpecialUnaryBackward<T: Float> {
    pub input: Tensor<T>,
    /// The result, without gradient history.
    pub output: Tensor<T>,
    pub kind: SpecialUnaryKind,
}

/// The gradient of a special function of two arguments.
#[derive(Debug)]
pub struct SpecialBinaryBackward<T: Float> {
    pub a: Tensor<T>,
    pub b: Tensor<T>,
    /// The result, without gradient history.
    pub output: Tensor<T>,
    pub kind: SpecialBinaryKind,
}

/// How a function of two arguments takes CUDA operands.
#[derive(Clone, Copy, Debug, PartialEq, Eq, Structural)]
pub enum BinaryLane {
    /// By a kernel, if they have the same shape.
    SameShape,
    /// By a kernel, stretched to a common shape.
    Stretched,
    /// Not at all.
    HostOnly,
}

/// What has to be done to apply a special function.
#[derive(Debug)]
pub enum SpecialApplyJob<T: Float> {
    /// Evaluate it on the device.
    Evaluate(SpecialJob<T>),
    /// Read the first operand back.
    ReadFirst(TransferJob<T>),
    /// Read the second operand back.
    ReadSecond(TransferJob<T>),
}

/// What has to be done for the gradient of a special function.
#[derive(Debug)]
pub enum SpecialGradJob<T: Float> {
    /// Compute it on the device.
    OnDevice,
    /// Read the upstream gradient back.
    ReadGrad(TransferJob<T>),
    /// Read the argument, or the first one, back.
    ReadInput(TransferJob<T>),
    /// Read the second argument back.
    ReadOther(TransferJob<T>),
    /// Read the result back.
    ReadOutput(TransferJob<T>),
}

/// A read that did not give elements: the job that gives them, or the error.
pub open spec fn is_pending_read<T: Float>(
    t: &Tensor<T>,
    ctx: Context,
    pending: FerrotorchResult<TransferJob<T>>,
) -> bool {
    match pending {
        Ok(j) => t.data_vec_outcome(ctx, Ok(Plan::Device(j))),
        Err(e) => t.data_vec_outcome(ctx, Err(e)),
    }
}

/// `out` holds a value of the function for every element.
pub open spec fn evaluated<T: Float, F: Fn(T) -> T>(f: F, data: Seq<T>, out: Seq<T>) -> bool {
    &&& out.len() == data.len()
    &&& forall|i: int| 0 <= i < data.len() ==> call_ensures(f, (data[i],), #[trigger] out[i])
}

/// The elements of `t`, if they are on the host, can be listed.
pub open spec fn listable<T: Float>(t: &Tensor<T>) -> bool {
    &&& t.wf()
    &&& t.inner.storage.on_host() && !t.contiguous_spec() ==> t.in_bounds()
}

/// `saved` shows the elements of `t` and has no gradient history.
pub open spec fn is_saved_output<T: Float>(saved: Tensor<T>, t: Tensor<T>, id: TensorId) -> bool {
    &&& saved.inner.storage == t.inner.storage
    &&& saved.inner.shape@ == t.inner.shape@
    &&& saved.inner.strides@ == t.inner.strides@
    &&& saved.inner.offset == t.inner.offset
    &&& saved.inner.id == id
    &&& saved.inner.object == id
    &&& saved.is_plain(false)
}

/// The gradient part of the result of a function of one argument.
pub open spec fn special_unary_grad<T: Float>(
    input: &Tensor<T>,
    kind: Option<SpecialUnaryKind>,
    ctx: Context,
    saved: TensorId,
    t: Tensor<T>,
) -> bool {
    if kind is Some && ctx.grad_enabled && input.inner.requires_grad && !ctx.inference {
        &&& t.inner.grad_fn matches Some(g) && (*g matches GradFn::SpecialUnary(b) && b.input
            == *input && Some(b.kind) == kind && is_saved_output(b.output, t, saved))
        &&& t.inner.requires_grad
        &&& !t.inner.is_leaf
    } else {
        t.is_plain(false)
    }
}

/// The result of a function of one argument over the storage that holds its elements.
pub fn finish_special_unary<T: Float>(
    storage: TensorStorage<T>,
    input: &Tensor<T>,
    kind: Option<SpecialUnaryKind>,
    ctx: Context,
    saved: TensorId,
) -> (r: FerrotorchResult<Tensor<T>>)
    requires
        input.wf(),
        storage.wf(),
    ensures
        match r {
            Ok(t) => {
                &&& input.count() <= storage.spec_len()
                &&& t.is_dense(ctx.fresh, storage, input.inner.shape@)
                &&& special_unary_grad(input, kind, ctx, saved, t)
                &&& t.wf()
                &&& t.in_bounds()
            },
            Err(e) => {
                &&& input.count() > storage.spec_len()
                &&& e == too_small(input.inner.shape@, storage)
            },
        },
{
    if let Some(k) = kind {
        if special_needs_grad_unary(input, ctx) && !ctx.inference {
            let plain: Tensor<T> = Tensor::from_storage(
                storage,
                copied(input.shape()),
                false,
                saved,
            )?;
            return Ok(
                plain.stride_view_operation(
                    copied(plain.shape()),
                    copied(plain.strides()),
                    0,
                    GradFn::SpecialUnary(
                        SpecialUnaryBackward {
                            input: input.clone(),
                            output: plain.clone(),
                            kind: k,
                        },
                    ),
                    ctx.fresh,
                ),
            );
        }
    }
    Tensor::from_storage(storage, copied(input.shape()), false, ctx.fresh)
}

/// The outcome of applying a special function of one argument.
pub open spec fn special_unary_outcome<T: Float, F: Fn(T) -> T>(
    op: SpecialOp,
    has_kernel: bool,
    kind: Option<SpecialUnaryKind>,
    input: &Tensor<T>,
    f: F,
    ctx: Context,
    saved: TensorId,
    r: FerrotorchResult<Plan<Tensor<T>, SpecialApplyJob<T>>>,
) -> bool {
    if input.inner.storage.device is Cuda {
        if !has_kernel || scatter_kernel_spec(T::dtype_spec()) is None {
            r matches Err(e) && e == no_kernel(op)
        } else if !ctx.backend {
            r matches Err(e) && e == FerrotorchError::DeviceUnavailable
        } else {
            r matches Ok(Plan::Device(SpecialApplyJob::Evaluate(j))) && j.op == op && Some(
                j.kernel,
            ) == scatter_kernel_spec(T::dtype_spec()) && j.x == *input && j.y is None
                && j.shape@ == input.inner.shape@
        }
    } else if input.inner.storage.on_host() && input.readable() {
        r matches Ok(Plan::Ready(t)) && (exists|out: Seq<T>|
            #[trigger] evaluated(f, input.logical(), out) && t.is_dense_cpu(
                ctx.fresh,
                out,
                input.inner.shape@,
            )) && special_unary_grad(input, kind, ctx, saved, t) && t.wf() && t.in_bounds()
    } else {
        match r {
            Ok(Plan::Device(SpecialApplyJob::ReadFirst(j))) => is_pending_read(input, ctx, Ok(j)),
            Ok(_) => false,
            Err(e) => is_pending_read(input, ctx, Err(e)),
        }
    }
}

/// Applies a special function of one argument. A CUDA operand goes to the device
/// kernel if there is one, and is refused otherwise; `f` computes a value on the host.
pub fn special_unary<T: Float, F: Fn(T) -> T>(
    op: SpecialOp,
    has_kernel: bool,
    kind: Option<SpecialUnaryKind>,
    input: &Tensor<T>,
    f: F,
    ctx: Context,
    saved: TensorId,
) -> (r: FerrotorchResult<Plan<Tensor<T>, SpecialApplyJob<T>>>)
    requires
        listable(input),
        forall|x: T| call_requires(f, (x,)),
    ensures
        special_unary_outcome(op, has_kernel, kind, input, f, ctx, saved, r),
{
    if has_kernel {
        match special_gpu_simple(input, op, ctx) {
            Ok(Some(j)) => return Ok(Plan::Device(SpecialApplyJob::Evaluate(j))),
            Ok(None) => {},
            Err(e) => return Err(e),
        }
    } else {
        reject_cuda_unary(input, op)?;
    }
    match input.data_vec(ctx)? {
        Plan::Device(j) => Ok(Plan::Device(SpecialApplyJob::ReadFirst(j))),
        Plan::Ready(data) => {
            let out: Vec<T> = elementwise_native(data.as_slice(), f);
            let ghost values = out@;
            proof {
                assert(evaluated(f, input.logical(), values));
            }
            match finish_special_unary(TensorStorage::cpu(out), input, kind, ctx, saved) {
                Ok(t) => {
                    proof {
                        assert(t.is_dense_cpu(ctx.fresh, values, input.inner.shape@));
                    }
                    Ok(Plan::Ready(t))
                },
                Err(e) => {
                    proof {
                        assert(false);
                    }
                    Err(e)
                },
            }
        },
    }
}

impl<T: Float> SpecialUnaryBackward<T> {
    /// `r` is the upstream gradient times a value of the derivative.
    pub open spec fn is_product<F: Fn(T, T) -> T>(factor: F, go: T, x: T, y: T, r: T) -> bool {
        exists|w: T| #[trigger] call_ensures(factor, (x, y), w) && r == go.times(w)
    }

    /// The gradient of every element: the upstream gradient times the derivative.
    pub open spec fn is_gradient<F: Fn(T, T) -> T>(
        factor: F,
        go: Seq<T>,
        x: Seq<T>,
        y: Seq<T>,
        out: Seq<T>,
    ) -> bool {
        &&& out.len() == go.len()
        &&& forall|i: int|
            0 <= i < go.len() ==> Self::is_product(factor, go[i], x[i], y[i], #[trigger] out[i])
    }

    /// The gradient of every element, from listed elements: `factor` computes the
    /// derivative from an argument and the value of the function there.
    pub fn gradient_data<F: Fn(T, T) -> T>(go: &[T], x: &[T], y: &[T], factor: F) -> (r: Vec<T>)
        requires
            go@.len() == x@.len(),
            go@.len() == y@.len(),
            forall|a: T, b: T| call_requires(factor, (a, b)),
        ensures
            Self::is_gradient(factor, go@, x@, y@, r@),
    {
        let mut out: Vec<T> = Vec::new();
        let mut i: usize = 0;
        while i < go.len()
            invariant
                i <= go@.len(),
                go@.len() == x@.len(),
                go@.len() == y@.len(),
                forall|a: T, b: T| call_requires(factor, (a, b)),
                out@.len() == i,
                forall|j: int|
                    0 <= j < i ==> Self::is_product(
                        factor,
                        go@[j],
                        x@[j],
                        y@[j],
                        #[trigger] out@[j],
                    ),
            decreases go.len() - i,
        {
            let w: T = factor(x[i], y[i]);
            out.push(go[i].mul(w));
            i = i + 1;
        }
        out
    }

    /// The gradient of the argument.
    pub fn backward<F: Fn(T, T) -> T>(
        &self,
        grad_output: &Tensor<T>,
        factor: F,
        ctx: Context,
    ) -> (r: FerrotorchResult<Plan<Option<Tensor<T>>, SpecialGradJob<T>>>)
        requires
            listable(&self.input),
            listable(&self.output),
            listable(grad_output),
            grad_output.count() == self.input.count(),
            self.output.count() == self.input.count(),
            forall|a: T, b: T| call_requires(factor, (a, b)),
        ensures
            self.backward_outcome(grad_output, factor, ctx, r),
    {
        match unary_grad_lane(self.kind, &self.input, grad_output)? {
            GradLane::Skip => Ok(Plan::Ready(None)),
            GradLane::Device => Ok(Plan::Device(SpecialGradJob::OnDevice)),
            GradLane::Host => {
                let go: Vec<T> = match grad_output.data_vec(ctx)? {
                    Plan::Ready(v) => v,
                    Plan::Device(j) => return Ok(Plan::Device(SpecialGradJob::ReadGrad(j))),
                };
                let x: Vec<T> = match self.input.data_vec(ctx)? {
                    Plan::Ready(v) => v,
                    Plan::Device(j) => return Ok(Plan::Device(SpecialGradJob::ReadInput(j))),
                };
                let y: Vec<T> = match self.output.data_vec(ctx)? {
                    Plan::Ready(v) => v,
                    Plan::Device(j) => return Ok(Plan::Device(SpecialGradJob::ReadOutput(j))),
                };
                let out: Vec<T> = Self::gradient_data(
                    go.as_slice(),
                    x.as_slice(),
                    y.as_slice(),
                    factor,
                );
                let ghost values = out@;
                proof {
                    assert(Self::is_gradient(
                        factor,
                        grad_output.logical(),
                        self.input.logical(),
                        self.output.logical(),
                        values,
                    ));
                }
                match Tensor::from_storage(
                    TensorStorage::cpu(out),
                    copied(self.input.shape()),
                    false,
                    ctx.fresh,
                ) {
                    Ok(t) => {
                        proof {
                            assert(t.is_dense_cpu(ctx.fresh, values, self.input.inner.shape@));
                        }
                        Ok(Plan::Ready(Some(t)))
                    },
                    Err(e) => {
                        proof {
                            assert(false);
                        }
                        Err(e)
                    },
                }
            },
        }
    }

    /// The outcome of computing the gradient of the argument.
    pub open spec fn backward_outcome<F: Fn(T, T) -> T>(
        &self,
        grad_output: &Tensor<T>,
        factor: F,
        ctx: Context,
        r: FerrotorchResult<Plan<Option<Tensor<T>>, SpecialGradJob<T>>>,
    ) -> bool {
        if !self.input.inner.requires_grad {
            r matches Ok(Plan::Ready(None))
        } else if self.input.inner.storage.device is Cuda
            || grad_output.inner.storage.device is Cuda {
            if self.kind is Lgamma || self.kind is Digamma || self.kind is Multigammaln {
                r matches Err(e) && e == (FerrotorchError::NotImplementedOnCuda {
                    op: crate::error::CudaGap::SpecialBackward { kind: self.kind },
                })
            } else {
                r matches Ok(Plan::Device(SpecialGradJob::OnDevice))
            }
        } else if !(grad_output.inner.storage.on_host() && grad_output.readable()) {
            match r {
                Ok(Plan::Device(SpecialGradJob::ReadGrad(j))) => is_pending_read(
                    grad_output,
                    ctx,
                    Ok(j),
                ),
                Ok(_) => false,
                Err(e) => is_pending_read(grad_output, ctx, Err(e)),
            }
        } else if !(self.input.inner.storage.on_host() && self.input.readable()) {
            match r {
                Ok(Plan::Device(SpecialGradJob::ReadInput(j))) => is_pending_read(
                    &self.input,
                    ctx,
                    Ok(j),
                ),
                Ok(_) => false,
                Err(e) => is_pending_read(&self.input, ctx, Err(e)),
            }
        } else if !(self.output.inner.storage.on_host() && self.output.readable()) {
            match r {
                Ok(Plan::Device(SpecialGradJob::ReadOutput(j))) => is_pending_read(
                    &self.output,
                    ctx,
                    Ok(j),
                ),
                Ok(_) => false,
                Err(e) => is_pending_read(&self.output, ctx, Err(e)),
            }
        } else {
            r matches Ok(Plan::Ready(Some(t))) && (exists|out: Seq<T>|
                #[trigger] Self::is_gradient(
                    factor,
                    grad_output.logical(),
                    self.input.logical(),
                    self.output.logical(),
                    out,
                ) && t.is_dense_cpu(ctx.fresh, out, self.input.inner.shape@)) && t.is_plain(false)
                && t.wf() && t.in_bounds()
        }
    }
}

/// What a function of two arguments may give.
pub open spec fn pair_values<T: Float, F: Fn(T, T) -> T>(f: F) -> spec_fn(T, T, T) -> bool {
    |x: T, y: T, r: T| call_ensures(f, (x, y), r)
}

/// `out` holds for every pair of the common shape a value that `gives` allows.
pub open spec fn evaluated_pairs<T: Float>(
    gives: spec_fn(T, T, T) -> bool,
    a: Seq<T>,
    a_shape: Seq<usize>,
    b: Seq<T>,
    b_shape: Seq<usize>,
    out: Seq<T>,
) -> bool {
    let sh = common_shape(a_shape, b_shape);
    &&& out.len() == shape::prod(sh)
    &&& forall|k: int|
        0 <= k < out.len() ==> gives(
            a[source_position(k, sh, a_shape)],
            b[source_position(k, sh, b_shape)],
            #[trigger] out[k],
        )
}

/// The gradient part of the result of a function of two arguments.
pub open spec fn special_binary_grad<T: Float>(
    a: &Tensor<T>,
    b: &Tensor<T>,
    kind: SpecialBinaryKind,
    ctx: Context,
    saved: TensorId,
    t: Tensor<T>,
) -> bool {
    if ctx.grad_enabled && (a.inner.requires_grad || b.inner.requires_grad) && !ctx.inference {
        &&& t.inner.grad_fn matches Some(g) && (*g matches GradFn::SpecialBinary(w) && w.a == *a
            && w.b == *b && w.kind == kind && is_saved_output(w.output, t, saved))
        &&& t.inner.requires_grad
        &&& !t.inner.is_leaf
    } else {
        t.is_plain(false)
    }
}

/// The result of a function of two arguments over the storage that holds its elements.
pub fn finish_special_binary<T: Float>(
    storage: TensorStorage<T>,
    sh: Vec<usize>,
    a: &Tensor<T>,
    b: &Tensor<T>,
    kind: SpecialBinaryKind,
    ctx: Context,
    saved: TensorId,
) -> (r: FerrotorchResult<Tensor<T>>)
    requires
        shape::shape_fits(sh@),
        storage.wf(),
    ensures
        match r {
            Ok(t) => {
                &&& shape::prod(sh@) <= storage.spec_len()
                &&& t.is_dense(ctx.fresh, storage, sh@)
                &&& special_binary_grad(a, b, kind, ctx, saved, t)
                &&& t.wf()
                &&& t.in_bounds()
            },
            Err(e) => {
                &&& shape::prod(sh@) > storage.spec_len()
                &&& e == too_small(sh@, storage)
            },
        },
{
    if special_needs_grad_binary(a, b, ctx) && !ctx.inference {
        let plain: Tensor<T> = Tensor::from_storage(storage, sh, false, saved)?;
        return Ok(
            plain.stride_view_operation(
                copied(plain.shape()),
                copied(plain.strides()),
                0,
                GradFn::SpecialBinary(
                    SpecialBinaryBackward {
                        a: a.clone(),
                        b: b.clone(),
                        output: plain.clone(),
                        kind,
                    },
                ),
                ctx.fresh,
            ),
        );
    }
    Tensor::from_storage(storage, sh, false, ctx.fresh)
}

/// Why CUDA operands are refused, or the error of a missing backend.
pub open spec fn binary_device_error<T: Float>(
    op: SpecialOp,
    lane: BinaryLane,
    a: &Tensor<T>,
    b: &Tensor<T>,
    ctx: Context,
) -> Option<FerrotorchError> {
    let both = a.inner.storage.device is Cuda && b.inner.storage.device is Cuda;
    let kernel = scatter_kernel_spec(T::dtype_spec()) is Some;
    match lane {
        BinaryLane::HostOnly => Some(no_kernel(op)),
        BinaryLane::SameShape => if !kernel || a.inner.storage.device != b.inner.storage.device
            || a.inner.shape@ != b.inner.shape@ {
            Some(no_kernel(op))
        } else if !ctx.backend {
            Some(FerrotorchError::DeviceUnavailable)
        } else {
            None
        },
        BinaryLane::Stretched => if !both {
            Some(no_kernel(op))
        } else if a.inner.storage.device != b.inner.storage.device {
            Some(
                FerrotorchError::DeviceMismatch {
                    expected: a.inner.storage.device,
                    got: b.inner.storage.device,
                },
            )
        } else if !kernel {
            Some(no_kernel(op))
        } else if !stretchable(a.inner.shape@, b.inner.shape@) {
            Some(FerrotorchError::ShapeMismatch { reason: Reason::ShapesDiffer })
        } else if !ctx.backend {
            Some(FerrotorchError::DeviceUnavailable)
        } else {
            None
        },
    }
}

/// The outcome of applying a special function of two arguments.
pub open spec fn special_binary_outcome<T: Float>(
    op: SpecialOp,
    lane: BinaryLane,
    kind: SpecialBinaryKind,
    a: &Tensor<T>,
    b: &Tensor<T>,
    gives: spec_fn(T, T, T) -> bool,
    ctx: Context,
    saved: TensorId,
    r: FerrotorchResult<Plan<Tensor<T>, SpecialApplyJob<T>>>,
) -> bool {
    if a.inner.storage.device is Cuda || b.inner.storage.device is Cuda {
        match binary_device_error(op, lane, a, b, ctx) {
            Some(err) => r matches Err(e) && e == err,
            None => r matches Ok(Plan::Device(SpecialApplyJob::Evaluate(j))) && j.op == op && Some(
                j.kernel,
            ) == scatter_kernel_spec(T::dtype_spec()) && j.x == *a && j.y == Some(*b) && j.shape@
                == (if lane is Stretched {
                common_shape(a.inner.shape@, b.inner.shape@)
            } else {
                a.inner.shape@
            }),
        }
    } else if !(a.inner.storage.on_host() && a.readable()) {
        match r {
            Ok(Plan::Device(SpecialApplyJob::ReadFirst(j))) => is_pending_read(a, ctx, Ok(j)),
            Ok(_) => false,
            Err(e) => is_pending_read(a, ctx, Err(e)),
        }
    } else if !(b.inner.storage.on_host() && b.readable()) {
        match r {
            Ok(Plan::Device(SpecialApplyJob::ReadSecond(j))) => is_pending_read(b, ctx, Ok(j)),
            Ok(_) => false,
            Err(e) => is_pending_read(b, ctx, Err(e)),
        }
    } else if !stretchable(a.inner.shape@, b.inner.shape@) {
        r matches Err(e) && e == (FerrotorchError::ShapeMismatch { reason: Reason::ShapesDiffer })
    } else {
        r matches Ok(Plan::Ready(t)) && (exists|out: Seq<T>|
            #[trigger] evaluated_pairs(
                gives,
                a.logical(),
                a.inner.shape@,
                b.logical(),
                b.inner.shape@,
                out,
            ) && t.is_dense_cpu(ctx.fresh, out, common_shape(a.inner.shape@, b.inner.shape@)))
            && special_binary_grad(a, b, kind, ctx, saved, t) && t.wf() && t.in_bounds()
    }
}

/// Applies a special function of two arguments to operands stretched to a common
/// shape; `f` computes a value on the host.
pub fn special_binary<T: Float, F: Fn(T, T) -> T>(
    op: SpecialOp,
    lane: BinaryLane,
    kind: SpecialBinaryKind,
    a: &Tensor<T>,
    b: &Tensor<T>,
    f: F,
    ctx: Context,
    saved: TensorId,
) -> (r: FerrotorchResult<Plan<Tensor<T>, SpecialApplyJob<T>>>)
    requires
        listable(a),
        listable(b),
        stretchable(a.inner.shape@, b.inner.shape@) ==> shape::shape_fits(
            common_shape(a.inner.shape@, b.inner.shape@),
        ),
        forall|x: T, y: T| call_requires(f, (x, y)),
    ensures
        special_binary_outcome(op, lane, kind, a, b, pair_values(f), ctx, saved, r),
{
    match lane {
        BinaryLane::HostOnly => reject_cuda_binary(a, b, op)?,
        BinaryLane::SameShape => match special_gpu_binary(a, b, op, ctx) {
            Ok(Some(j)) => return Ok(Plan::Device(SpecialApplyJob::Evaluate(j))),
            Ok(None) => {},
            Err(e) => return Err(e),
        },
        BinaryLane::Stretched => match special_gpu_binary_broadcast(a, b, op, ctx) {
            Ok(Some(j)) => return Ok(Plan::Device(SpecialApplyJob::Evaluate(j))),
            Ok(None) => {},
            Err(e) => return Err(e),
        },
    }
    let x: Vec<T> = match a.data_vec(ctx)? {
        Plan::Ready(v) => v,
        Plan::Device(j) => return Ok(Plan::Device(SpecialApplyJob::ReadFirst(j))),
    };
    let y: Vec<T> = match b.data_vec(ctx)? {
        Plan::Ready(v) => v,
        Plan::Device(j) => return Ok(Plan::Device(SpecialApplyJob::ReadSecond(j))),
    };
    match binary_map(x.as_slice(), a.shape(), y.as_slice(), b.shape(), f) {
        Err(e) => Err(e),
        Ok((out, sh)) => {
            let ghost values = out@;
            proof {
                assert(evaluated_pairs(
                    pair_values(f),
                    a.logical(),
                    a.inner.shape@,
                    b.logical(),
                    b.inner.shape@,
                    values,
                ));
            }
            match finish_special_binary(TensorStorage::cpu(out), sh, a, b, kind, ctx, saved) {
                Ok(t) => {
                    proof {
                        assert(t.is_dense_cpu(
                            ctx.fresh,
                            values,
                            common_shape(a.inner.shape@, b.inner.shape@),
                        ));
                    }
                    Ok(Plan::Ready(t))
                },
                Err(e) => {
                    proof {
                        assert(false);
                    }
                    Err(e)
                },
            }
        },
    }
}

/// The gradients of the two arguments, `None` for one that tracks none.
#[derive(Debug)]
pub struct PairGrads<T: Float> {
    pub first: Option<Tensor<T>>,
    pub second: Option<Tensor<T>>,
}

impl<T: Float> SpecialBinaryBackward<T> {
    /// The shape that both arguments are stretched to.
    pub open spec fn common(&self) -> Seq<usize> {
        common_shape(self.a.inner.shape@, self.b.inner.shape@)
    }

    /// `raw` holds the gradient of one argument at every position of the common shape:
    /// a value of `f` on the upstream gradient, both arguments and the result there.
    pub open spec fn is_raw<F: Fn(T, T, T, T) -> T>(
        &self,
        f: F,
        grad_output: &Tensor<T>,
        raw: Seq<T>,
    ) -> bool {
        &&& raw.len() == shape::prod(self.common())
        &&& forall|k: int|
            0 <= k < raw.len() ==> call_ensures(
                f,
                (
                    grad_output.logical()[k],
                    self.a.logical()[source_position(k, self.common(), self.a.inner.shape@)],
                    self.b.logical()[source_position(k, self.common(), self.b.inner.shape@)],
                    self.output.logical()[k],
                ),
                #[trigger] raw[k],
            )
    }

    /// `t` is the gradient of `arg`, summed over the positions that are taken from the
    /// same element.
    pub open spec fn is_arg_grad<F: Fn(T, T, T, T) -> T>(
        &self,
        f: F,
        grad_output: &Tensor<T>,
        arg: &Tensor<T>,
        id: TensorId,
        r: Option<Tensor<T>>,
    ) -> bool {
        if arg.inner.requires_grad {
            r matches Some(t) && (exists|raw: Seq<T>|
                #[trigger] self.is_raw(f, grad_output, raw) && t.is_dense_cpu(
                    id,
                    reduced(raw, self.common(), arg.inner.shape@),
                    arg.inner.shape@,
                )) && t.is_plain(false) && t.wf() && t.in_bounds()
        } else {
            r is None
        }
    }

    /// The outcome of computing the gradients of the arguments.
    pub open spec fn backward_outcome<F: Fn(T, T, T, T) -> T, G: Fn(T, T, T, T) -> T>(
        &self,
        grad_output: &Tensor<T>,
        first: F,
        second: G,
        ctx: Context,
        second_id: TensorId,
        r: FerrotorchResult<Plan<PairGrads<T>, SpecialGradJob<T>>>,
    ) -> bool {
        if self.a.inner.requires_grad && self.kind.first_underivable() {
            r matches Err(e) && e == (FerrotorchError::InvalidArgument {
                reason: Reason::NoDerivative { kind: self.kind },
            })
        } else if !self.a.inner.requires_grad && !self.b.inner.requires_grad {
            r matches Ok(Plan::Ready(g)) && g.first is None && g.second is None
        } else if self.a.inner.storage.device is Cuda || self.b.inner.storage.device is Cuda
            || grad_output.inner.storage.device is Cuda {
            r matches Ok(Plan::Device(SpecialGradJob::OnDevice))
        } else if !(grad_output.inner.storage.on_host() && grad_output.readable()) {
            match r {
                Ok(Plan::Device(SpecialGradJob::ReadGrad(j))) => is_pending_read(
                    grad_output,
                    ctx,
                    Ok(j),
                ),
                Ok(_) => false,
                Err(e) => is_pending_read(grad_output, ctx, Err(e)),
            }
        } else if !(self.a.inner.storage.on_host() && self.a.readable()) {
            match r {
                Ok(Plan::Device(SpecialGradJob::ReadInput(j))) => is_pending_read(
                    &self.a,
                    ctx,
                    Ok(j),
                ),
                Ok(_) => false,
                Err(e) => is_pending_read(&self.a, ctx, Err(e)),
            }
        } else if !(self.b.inner.storage.on_host() && self.b.readable()) {
            match r {
                Ok(Plan::Device(SpecialGradJob::ReadOther(j))) => is_pending_read(
                    &self.b,
                    ctx,
                    Ok(j),
                ),
                Ok(_) => false,
                Err(e) => is_pending_read(&self.b, ctx, Err(e)),
            }
        } else if !(self.output.inner.storage.on_host() && self.output.readable()) {
            match r {
                Ok(Plan::Device(SpecialGradJob::ReadOutput(j))) => is_pending_read(
                    &self.output,
                    ctx,
                    Ok(j),
                ),
                Ok(_) => false,
                Err(e) => is_pending_read(&self.output, ctx, Err(e)),
            }
        } else {
            r matches Ok(Plan::Ready(g)) && self.is_arg_grad(
                first,
                grad_output,
                &self.a,
                ctx.fresh,
                g.first,
            ) && self.is_arg_grad(second, grad_output, &self.b, second_id, g.second)
        }
    }

    /// The gradient of one argument, from listed elements.
    fn arg_grad<F: Fn(T, T, T, T) -> T>(
        &self,
        f: F,
        grad_output: &Tensor<T>,
        listed: (&[T], &[T], &[T], &[T]),
        sh: &[usize],
        arg: &Tensor<T>,
        id: TensorId,
    ) -> (r: Option<Tensor<T>>)
        requires
            self.a.wf(),
            self.b.wf(),
            arg.wf(),
            arg.inner.shape@ == self.a.inner.shape@ || arg.inner.shape@ == self.b.inner.shape@,
            stretchable(self.a.inner.shape@, self.b.inner.shape@),
            shape::shape_fits(self.common()),
            sh@ == self.common(),
            listed.0@ == grad_output.logical(),
            listed.1@ == self.a.logical(),
            listed.2@ == self.b.logical(),
            listed.3@ == self.output.logical(),
            listed.0@.len() == shape::prod(sh@),
            listed.3@.len() == shape::prod(sh@),
            forall|g: T, x: T, y: T, z: T| call_requires(f, (g, x, y, z)),
        ensures
            self.is_arg_grad(f, grad_output, arg, id, r),
    {
        if !arg.requires_grad() {
            return None;
        }
        proof {
            lemma_common_shape(self.a.inner.shape@, self.b.inner.shape@);
        }
        let from_a: Vec<usize> = source_positions(sh, self.a.shape());
        let from_b: Vec<usize> = source_positions(sh, self.b.shape());
        let n: usize = listed.0.len();
        let mut raw: Vec<T> = Vec::new();
        let mut k: usize = 0;
        while k < n
            invariant
                k <= n,
                n == listed.0@.len(),
                n == listed.3@.len(),
                n == from_a@.len(),
                n == from_b@.len(),
                sh@ == self.common(),
                listed.0@ == grad_output.logical(),
                listed.1@ == self.a.logical(),
                listed.2@ == self.b.logical(),
                listed.3@ == self.output.logical(),
                listed.1@.len() == shape::prod(self.a.inner.shape@),
                listed.2@.len() == shape::prod(self.b.inner.shape@),
                forall|i: int|
                    0 <= i < n ==> #[trigger] from_a@[i] < shape::prod(self.a.inner.shape@),
                forall|i: int|
                    0 <= i < n ==> #[trigger] from_b@[i] < shape::prod(self.b.inner.shape@),
                forall|i: int|
                    0 <= i < n ==> #[trigger] from_a@[i] == source_position(
                        i,
                        sh@,
                        self.a.inner.shape@,
                    ),
                forall|i: int|
                    0 <= i < n ==> #[trigger] from_b@[i] == source_position(
                        i,
                        sh@,
                        self.b.inner.shape@,
                    ),
                forall|g: T, x: T, y: T, z: T| call_requires(f, (g, x, y, z)),
                raw@.len() == k,
                forall|i: int|
                    0 <= i < k ==> call_ensures(
                        f,
                        (
                            grad_output.logical()[i],
                            self.a.logical()[source_position(i, sh@, self.a.inner.shape@)],
                            self.b.logical()[source_position(i, sh@, self.b.inner.shape@)],
                            self.output.logical()[i],
                        ),
                        #[trigger] raw@[i],
                    ),
            decreases n - k,
        {
            raw.push(f(listed.0[k], listed.1[from_a[k]], listed.2[from_b[k]], listed.3[k]));
            k = k + 1;
        }
        let sums: Vec<T> = reduce_grad_to_shape(raw.as_slice(), sh, arg.shape());
        let ghost values = sums@;
        proof {
            assert(self.is_raw(f, grad_output, raw@));
        }
        match Tensor::from_storage(TensorStorage::cpu(sums), copied(arg.shape()), false, id) {
            Ok(t) => {
                proof {
                    assert(t.is_dense_cpu(id, values, arg.inner.shape@));
                }
                Some(t)
            },
            Err(_) => {
                proof {
                    assert(false);
                }
                None
            },
        }
    }

    /// The gradients of the arguments. `first` and `second` compute the gradient of an
    /// argument at one position of the common shape, from the upstream gradient, both
    /// arguments and the result there.
    pub fn backward<F: Fn(T, T, T, T) -> T, G: Fn(T, T, T, T) -> T>(
        &self,
        grad_output: &Tensor<T>,
        first: F,
        second: G,
        ctx: Context,
        second_id: TensorId,
    ) -> (r: FerrotorchResult<Plan<PairGrads<T>, SpecialGradJob<T>>>)
        requires
            listable(&self.a),
            listable(&self.b),
            listable(&self.output),
            listable(grad_output),
            stretchable(self.a.inner.shape@, self.b.inner.shape@),
            shape::shape_fits(self.common()),
            grad_output.inner.shape@ == self.common(),
            self.output.inner.shape@ == self.common(),
            forall|g: T, x: T, y: T, z: T| call_requires(first, (g, x, y, z)),
            forall|g: T, x: T, y: T, z: T| call_requires(second, (g, x, y, z)),
        ensures
            self.backward_outcome(grad_output, first, second, ctx, second_id, r),
    {
        let (for_a, for_b): (bool, bool) = self.kind.wanted_grads(
            self.a.requires_grad(),
            self.b.requires_grad(),
        )?;
        if !for_a && !for_b {
            return Ok(Plan::Ready(PairGrads { first: None, second: None }));
        }
        if self.a.is_cuda() || self.b.is_cuda() || grad_output.is_cuda() {
            return Ok(Plan::Device(SpecialGradJob::OnDevice));
        }
        let go: Vec<T> = match grad_output.data_vec(ctx)? {
            Plan::Ready(v) => v,
            Plan::Device(j) => return Ok(Plan::Device(SpecialGradJob::ReadGrad(j))),
        };
        let x: Vec<T> = match self.a.data_vec(ctx)? {
            Plan::Ready(v) => v,
            Plan::Device(j) => return Ok(Plan::Device(SpecialGradJob::ReadInput(j))),
        };
        let y: Vec<T> = match self.b.data_vec(ctx)? {
            Plan::Ready(v) => v,
            Plan::Device(j) => return Ok(Plan::Device(SpecialGradJob::ReadOther(j))),
        };
        let z: Vec<T> = match self.output.data_vec(ctx)? {
            Plan::Ready(v) => v,
            Plan::Device(j) => return Ok(Plan::Device(SpecialGradJob::ReadOutput(j))),
        };
        let listed: (&[T], &[T], &[T], &[T]) = (
            go.as_slice(),
            x.as_slice(),
            y.as_slice(),
            z.as_slice(),
        );
        let sh: &[usize] = grad_output.shape();
        Ok(
            Plan::Ready(
                PairGrads {
                    first: self.arg_grad(first, grad_output, listed, sh, &self.a, ctx.fresh),
                    second: self.arg_grad(second, grad_output, listed, sh, &self.b, second_id),
                },
            ),
        )
    }
}

} // verus!
