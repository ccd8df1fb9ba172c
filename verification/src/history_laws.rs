//! Which results keep a gradient history, and of what: a result tracks gradients exactly
//! where tracking is on, an operand asks for it and no inference runs.

use crate::autograd::{Context, Plan, TensorId};
use crate::dtype::Float;
use crate::matmul24::matmul_24_grad;
use crate::semi24::SemiStructuredSparseTensor;
use crate::sparse_tensor::SparseTensor;
use crate::special::{SpecialBinaryKind, SpecialUnaryKind};
use crate::special_apply::{
    special_binary_grad, special_unary_grad, PairGrads, SpecialBinaryBackward, SpecialGradJob,
};
use crate::tensor::{GradFn, Tensor};
use vstd::prelude::*;

verus! {

/// The result of a special function keeps its input and itself, where it has a derivative;
/// a result without history is a leaf that asks for no gradient.
pub proof fn lemma_unary_history<T: Float>(
    input: &Tensor<T>,
    kind: Option<SpecialUnaryKind>,
    ctx: Context,
    saved: TensorId,
    t: Tensor<T>,
)
    requires
        special_unary_grad(input, kind, ctx, saved, t),
    ensures
        t.inner.requires_grad <==> kind is Some && ctx.grad_enabled && input.inner.requires_grad
            && !ctx.inference,
        t.inner.is_leaf <==> !t.inner.requires_grad,
        t.inner.grad_fn is Some <==> t.inner.requires_grad,
        t.inner.requires_grad ==> t.inner.grad_fn->Some_0.inputs_spec() == seq![*input],
        t.inner.requires_grad ==> (*t.inner.grad_fn->Some_0 matches GradFn::SpecialUnary(b) && Some(
            b.kind,
        ) == kind && b.output.logical() == t.logical() && !b.output.inner.requires_grad),
{
    if t.inner.requires_grad {
        let f = *t.inner.grad_fn->Some_0;
        let b = f->SpecialUnary_0;
        assert(b.output.logical() =~= t.logical());
    }
}

/// The same for a function of two tensors, either of which may ask for gradients.
pub proof fn lemma_binary_history<T: Float>(
    a: &Tensor<T>,
    b: &Tensor<T>,
    kind: SpecialBinaryKind,
    ctx: Context,
    saved: TensorId,
    t: Tensor<T>,
)
    requires
        special_binary_grad(a, b, kind, ctx, saved, t),
    ensures
        t.inner.requires_grad <==> ctx.grad_enabled && (a.inner.requires_grad
            || b.inner.requires_grad) && !ctx.inference,
        t.inner.is_leaf <==> !t.inner.requires_grad,
        t.inner.grad_fn is Some <==> t.inner.requires_grad,
        t.inner.requires_grad ==> t.inner.grad_fn->Some_0.inputs_spec() == seq![*a, *b],
        t.inner.requires_grad ==> (*t.inner.grad_fn->Some_0 matches GradFn::SpecialBinary(w)
            && w.kind == kind && w.output.logical() == t.logical()
            && !w.output.inner.requires_grad),
{
    if t.inner.requires_grad {
        let f = *t.inner.grad_fn->Some_0;
        let w = f->SpecialBinary_0;
        assert(w.output.logical() =~= t.logical());
    }
}

/// The product of a sparse and a dense matrix keeps the dense operand and the transposed
/// sparse one: entry for entry with row and column exchanged.
pub proof fn lemma_product_history<T: Float>(
    s: &SparseTensor<T>,
    dense: &Tensor<T>,
    ctx: Context,
    t: Tensor<T>,
)
    requires
        s.wf(),
        s.shape@.len() == 2,
        s.spmm_grad(dense, ctx, t),
    ensures
        t.inner.requires_grad <==> ctx.grad_enabled && dense.inner.requires_grad && !ctx.inference,
        t.inner.is_leaf <==> !t.inner.requires_grad,
        t.inner.grad_fn is Some <==> t.inner.requires_grad,
        t.inner.requires_grad ==> t.inner.grad_fn->Some_0.inputs_spec() == seq![*dense],
        t.inner.requires_grad ==> (*t.inner.grad_fn->Some_0 matches GradFn::Spmm(b)
            && b.sparse_t.values@ == s.values@ && b.sparse_t.shape@ == seq![
            s.shape@[1],
            s.shape@[0],
        ] && b.sparse_t.coords().len() == s.coords().len() && forall|e: int|
            0 <= e < s.coords().len() ==> {
                &&& (#[trigger] b.sparse_t.coords()[e])[0] == s.coords()[e][1]
                &&& b.sparse_t.coords()[e][1] == s.coords()[e][0]
            }),
{
}

/// The product with a two-of-four matrix keeps its left factor and the dense weight.
pub proof fn lemma_matmul_24_history<T: Float>(
    a: &Tensor<T>,
    b: &SemiStructuredSparseTensor<T>,
    ctx: Context,
    t: Tensor<T>,
)
    requires
        matmul_24_grad(a, b, ctx, t),
    ensures
        t.inner.requires_grad <==> ctx.grad_enabled && a.inner.requires_grad && !ctx.inference,
        t.inner.is_leaf <==> !t.inner.requires_grad,
        t.inner.grad_fn is Some <==> t.inner.requires_grad,
        t.inner.requires_grad ==> t.inner.grad_fn->Some_0.inputs_spec() == seq![*a],
        t.inner.requires_grad ==> (*t.inner.grad_fn->Some_0 matches GradFn::Matmul24(w) && w.weight@
            == b.elements() && w.k == b.shape@[0] && w.n == b.shape@[1]),
{
}

/// A moved tensor keeps the tensor that it was moved from.
pub proof fn lemma_moved_history<T: Float>(source: &Tensor<T>, ctx: Context, t: Tensor<T>)
    requires
        t.is_moved(source, ctx),
    ensures
        t.inner.requires_grad <==> ctx.grad_enabled && source.inner.requires_grad && !ctx.inference,
        t.inner.is_leaf <==> !t.inner.requires_grad,
        t.inner.grad_fn is Some <==> t.inner.requires_grad,
        t.inner.requires_grad ==> t.inner.grad_fn->Some_0.inputs_spec() == seq![*source],
{
}

/// A rearranged tensor keeps the tensor that it was made from.
pub proof fn lemma_rearranged_history<T: Float>(source: &Tensor<T>, ctx: Context, t: Tensor<T>)
    requires
        t.is_rearranged(source, ctx),
    ensures
        t.inner.requires_grad <==> ctx.grad_enabled && source.inner.requires_grad && !ctx.inference,
        t.inner.is_leaf <==> !t.inner.requires_grad,
        t.inner.grad_fn is Some <==> t.inner.requires_grad,
        t.inner.requires_grad ==> t.inner.grad_fn->Some_0.inputs_spec() == seq![*source],
{
}

/// A strided view or copy keeps its source, its shape, its strides and its offset.
pub proof fn lemma_strided_history<T: Float>(
    source: &Tensor<T>,
    size: Seq<usize>,
    stride: Seq<isize>,
    offset: usize,
    recorded: bool,
    t: Tensor<T>,
)
    requires
        t.strided_grad(source, size, stride, offset, recorded),
    ensures
        t.inner.requires_grad <==> recorded,
        t.inner.is_leaf <==> !recorded,
        t.inner.grad_fn is Some <==> recorded,
        recorded ==> t.inner.grad_fn->Some_0.inputs_spec() == seq![*source],
        recorded ==> (*t.inner.grad_fn->Some_0 matches GradFn::AsStrided(b) && b.size@ == size
            && b.stride@ == stride && b.storage_offset == offset),
{
}

/// A strided scatter keeps both operands.
pub proof fn lemma_scattered_history<T: Float>(
    base: &Tensor<T>,
    src: &Tensor<T>,
    size: Seq<usize>,
    stride: Seq<isize>,
    offset: usize,
    ctx: Context,
    t: Tensor<T>,
)
    requires
        t.scatter_grad(base, src, size, stride, offset, ctx),
    ensures
        t.inner.requires_grad <==> ctx.grad_enabled && (base.inner.requires_grad
            || src.inner.requires_grad) && !ctx.inference,
        t.inner.is_leaf <==> !t.inner.requires_grad,
        t.inner.grad_fn is Some <==> t.inner.requires_grad,
        t.inner.requires_grad ==> t.inner.grad_fn->Some_0.inputs_spec() == seq![*base, *src],
        t.inner.requires_grad ==> (*t.inner.grad_fn->Some_0 matches GradFn::AsStridedScatter(b)
            && b.size@ == size && b.stride@ == stride && b.storage_offset == offset),
{
}

impl<T: Float> SpecialBinaryBackward<T> {
    /// The incomplete gamma functions and the zeta function have no gradient for their
    /// first argument: where it asks for one, nothing is computed.
    pub proof fn lemma_no_first_gradient<
        F: Fn(T, T, T, T) -> T,
        G: Fn(T, T, T, T) -> T,
    >(
        &self,
        grad_output: &Tensor<T>,
        first: F,
        second: G,
        ctx: Context,
        second_id: TensorId,
        r: Result<Plan<PairGrads<T>, SpecialGradJob<T>>, crate::error::FerrotorchError>,
    )
        requires
            self.backward_outcome(grad_output, first, second, ctx, second_id, r),
        ensures
            self.a.inner.requires_grad && (self.kind is Gammainc || self.kind is Gammaincc
                || self.kind is Zeta) ==> r is Err,
            r matches Ok(Plan::Ready(g)) ==> (g.first is Some <==> self.a.inner.requires_grad) && (
            g.second is Some <==> self.b.inner.requires_grad),
    {
    }
}

} // verus!
