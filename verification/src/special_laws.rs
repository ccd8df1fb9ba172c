//! The special functions of tensors, element by element: which values of the operands an
//! element comes from, and what its gradient is.

use crate::autograd::{Context, Plan, TensorId};
use crate::broadcast::{
    common_shape, lemma_common_shape, lemma_source_same_shape, reduced, source_position,
    stretchable,
};
use crate::broadcast_laws::{lemma_source_of_coordinate, own_coordinate};
use crate::dtype::Float;
use crate::shape;
use crate::special::{lemma_xlogy, SpecialBinaryKind, SpecialOp, SpecialUnaryKind};
use crate::special_apply::{
    evaluated, evaluated_pairs, special_binary_outcome, special_unary_outcome, BinaryLane,
    SpecialBinaryBackward, SpecialUnaryBackward,
};
use crate::special_functions::xlogy_values;
use crate::tensor::Tensor;
use vstd::prelude::*;

verus! {

/// Every element of a special function of a host tensor is a value of the function at the
/// element of the input.
pub proof fn lemma_unary_element<T: Float, F: Fn(T) -> T>(
    op: SpecialOp,
    has_kernel: bool,
    kind: Option<SpecialUnaryKind>,
    input: &Tensor<T>,
    f: F,
    ctx: Context,
    saved: TensorId,
    t: Tensor<T>,
    i: int,
)
    requires
        input.wf(),
        input.inner.storage.on_host(),
        input.readable(),
        special_unary_outcome(op, has_kernel, kind, input, f, ctx, saved, Ok(Plan::Ready(t))),
        0 <= i < input.logical().len(),
    ensures
        t.inner.shape@ == input.inner.shape@,
        t.logical().len() == input.logical().len(),
        call_ensures(f, (input.logical()[i],), t.logical()[i]),
{
    let out = choose|out: Seq<T>|
        #[trigger] evaluated(f, input.logical(), out) && t.is_dense_cpu(
            ctx.fresh,
            out,
            input.inner.shape@,
        );
    t.lemma_dense();
    assert(t.logical() =~= out);
}

impl<T: Float> SpecialUnaryBackward<T> {
    /// Every element of the gradient of a special function is the upstream gradient times
    /// a value of the derivative at the element of the input and that of the result.
    pub proof fn lemma_gradient_element<F: Fn(T, T) -> T>(
        &self,
        grad_output: &Tensor<T>,
        factor: F,
        ctx: Context,
        t: Tensor<T>,
        i: int,
    )
        requires
            self.input.inner.requires_grad,
            self.input.wf(),
            grad_output.wf(),
            self.output.wf(),
            self.input.inner.storage.on_host() && self.input.readable(),
            grad_output.inner.storage.on_host() && grad_output.readable(),
            self.output.inner.storage.on_host() && self.output.readable(),
            grad_output.inner.shape@ == self.input.inner.shape@,
            self.backward_outcome(grad_output, factor, ctx, Ok(Plan::Ready(Some(t)))),
            0 <= i < self.input.logical().len(),
        ensures
            t.inner.shape@ == self.input.inner.shape@,
            exists|w: T|
                #[trigger] call_ensures(
                    factor,
                    (self.input.logical()[i], self.output.logical()[i]),
                    w,
                ) && t.logical()[i] == grad_output.logical()[i].times(w),
    {
        let out = choose|out: Seq<T>|
            #[trigger] Self::is_gradient(
                factor,
                grad_output.logical(),
                self.input.logical(),
                self.output.logical(),
                out,
            ) && t.is_dense_cpu(ctx.fresh, out, self.input.inner.shape@);
        t.lemma_dense();
        assert(t.logical() =~= out);
        assert(Self::is_product(
            factor,
            grad_output.logical()[i],
            self.input.logical()[i],
            self.output.logical()[i],
            out[i],
        ));
    }
}

/// Both operands of a special function of two tensors are in host memory, and `t` is its
/// result.
pub open spec fn is_host_result<T: Float>(
    op: SpecialOp,
    lane: BinaryLane,
    kind: SpecialBinaryKind,
    a: &Tensor<T>,
    b: &Tensor<T>,
    gives: spec_fn(T, T, T) -> bool,
    ctx: Context,
    saved: TensorId,
    t: Tensor<T>,
) -> bool {
    &&& a.wf()
    &&& b.wf()
    &&& a.inner.storage.on_host() && a.readable()
    &&& b.inner.storage.on_host() && b.readable()
    &&& stretchable(a.inner.shape@, b.inner.shape@)
    &&& special_binary_outcome(op, lane, kind, a, b, gives, ctx, saved, Ok(Plan::Ready(t)))
}

proof fn lemma_binary_values<T: Float>(
    op: SpecialOp,
    lane: BinaryLane,
    kind: SpecialBinaryKind,
    a: &Tensor<T>,
    b: &Tensor<T>,
    gives: spec_fn(T, T, T) -> bool,
    ctx: Context,
    saved: TensorId,
    t: Tensor<T>,
)
    requires
        is_host_result(op, lane, kind, a, b, gives, ctx, saved, t),
    ensures
        t.inner.shape@ == common_shape(a.inner.shape@, b.inner.shape@),
        evaluated_pairs(
            gives,
            a.logical(),
            a.inner.shape@,
            b.logical(),
            b.inner.shape@,
            t.logical(),
        ),
{
    let sh = common_shape(a.inner.shape@, b.inner.shape@);
    let out = choose|out: Seq<T>|
        #[trigger] evaluated_pairs(
            gives,
            a.logical(),
            a.inner.shape@,
            b.logical(),
            b.inner.shape@,
            out,
        ) && t.is_dense_cpu(ctx.fresh, out, sh);
    t.lemma_dense();
    assert(t.logical() =~= out);
}

/// The element at a coordinate of a special function of two tensors is a value of the
/// function at the elements of the operands there: at the last of the coordinate, with
/// zero in their axes of size one.
pub proof fn lemma_binary_element<T: Float>(
    op: SpecialOp,
    lane: BinaryLane,
    kind: SpecialBinaryKind,
    a: &Tensor<T>,
    b: &Tensor<T>,
    gives: spec_fn(T, T, T) -> bool,
    ctx: Context,
    saved: TensorId,
    t: Tensor<T>,
    idx: Seq<usize>,
)
    requires
        is_host_result(op, lane, kind, a, b, gives, ctx, saved, t),
        shape::in_shape(idx, t.inner.shape@),
    ensures
        gives(
            a.logical()[shape::ravel(own_coordinate(idx, a.inner.shape@), a.inner.shape@)],
            b.logical()[shape::ravel(own_coordinate(idx, b.inner.shape@), b.inner.shape@)],
            t.logical()[shape::ravel(idx, t.inner.shape@)],
        ),
{
    let sh = common_shape(a.inner.shape@, b.inner.shape@);
    lemma_binary_values(op, lane, kind, a, b, gives, ctx, saved, t);
    lemma_common_shape(a.inner.shape@, b.inner.shape@);
    lemma_source_of_coordinate(idx, sh, a.inner.shape@);
    lemma_source_of_coordinate(idx, sh, b.inner.shape@);
    shape::lemma_ravel_bound(idx, sh);
    let k = shape::ravel(idx, sh);
    assert(gives(
        a.logical()[source_position(k, sh, a.inner.shape@)],
        b.logical()[source_position(k, sh, b.inner.shape@)],
        t.logical()[k],
    ));
}

proof fn lemma_common_of_same(sh: Seq<usize>)
    ensures
        common_shape(sh, sh) == sh,
        stretchable(sh, sh),
{
    assert(common_shape(sh, sh) =~= sh);
}

/// A special function of two tensors of the same shape goes element by element.
pub proof fn lemma_binary_same_shape<T: Float>(
    op: SpecialOp,
    lane: BinaryLane,
    kind: SpecialBinaryKind,
    a: &Tensor<T>,
    b: &Tensor<T>,
    gives: spec_fn(T, T, T) -> bool,
    ctx: Context,
    saved: TensorId,
    t: Tensor<T>,
    i: int,
)
    requires
        is_host_result(op, lane, kind, a, b, gives, ctx, saved, t),
        a.inner.shape@ == b.inner.shape@,
        0 <= i < a.logical().len(),
    ensures
        t.inner.shape@ == a.inner.shape@,
        t.logical().len() == a.logical().len(),
        gives(a.logical()[i], b.logical()[i], t.logical()[i]),
{
    let sh = a.inner.shape@;
    lemma_common_of_same(sh);
    lemma_binary_values(op, lane, kind, a, b, gives, ctx, saved, t);
    lemma_source_same_shape(i, sh);
    assert(gives(
        a.logical()[source_position(i, sh, sh)],
        b.logical()[source_position(i, sh, sh)],
        t.logical()[i],
    ));
}

/// `x log y` at a coordinate, with the elements `u` and `v` that the operands have there
/// and a logarithm `l` of `v`: `v` where that is not a number, zero where `u` is zero, and
/// else `u` times `l`.
pub proof fn lemma_xlogy_element<T: Float, F: Fn(T) -> T>(
    x: &Tensor<T>,
    y: &Tensor<T>,
    ln: F,
    ctx: Context,
    saved: TensorId,
    t: Tensor<T>,
    idx: Seq<usize>,
)
    requires
        is_host_result(
            SpecialOp::Xlogy,
            BinaryLane::Stretched,
            SpecialBinaryKind::Xlogy,
            x,
            y,
            xlogy_values(ln),
            ctx,
            saved,
            t,
        ),
        shape::in_shape(idx, t.inner.shape@),
    ensures
        ({
            let u = x.logical()[shape::ravel(
                own_coordinate(idx, x.inner.shape@),
                x.inner.shape@,
            )];
            let v = y.logical()[shape::ravel(
                own_coordinate(idx, y.inner.shape@),
                y.inner.shape@,
            )];
            let r = t.logical()[shape::ravel(idx, t.inner.shape@)];
            &&& !v.same(v) ==> r == v
            &&& v.same(v) && u.same(T::zero_spec()) ==> r == T::zero_spec()
            &&& v.same(v) && !u.same(T::zero_spec()) ==> exists|l: T|
                #[trigger] call_ensures(ln, (v,), l) && r == u.times(l)
        }),
{
    lemma_binary_element(
        SpecialOp::Xlogy,
        BinaryLane::Stretched,
        SpecialBinaryKind::Xlogy,
        x,
        y,
        xlogy_values(ln),
        ctx,
        saved,
        t,
        idx,
    );
    let u = x.logical()[shape::ravel(own_coordinate(idx, x.inner.shape@), x.inner.shape@)];
    let v = y.logical()[shape::ravel(own_coordinate(idx, y.inner.shape@), y.inner.shape@)];
    let r = t.logical()[shape::ravel(idx, t.inner.shape@)];
    let l = choose|l: T|
        #[trigger] call_ensures(ln, (v,), l) && r == crate::special::xlogy_spec(u, v, l);
    lemma_xlogy(u, v, l);
}

impl<T: Float> SpecialBinaryBackward<T> {
    /// The gradient of an operand that has the shape of the result: every element is a
    /// value of the derivative at the upstream gradient, the elements of the operands and
    /// that of the result.
    pub proof fn lemma_arg_grad_same_shape<F: Fn(T, T, T, T) -> T>(
        &self,
        f: F,
        grad_output: &Tensor<T>,
        arg: &Tensor<T>,
        id: TensorId,
        t: Tensor<T>,
        i: int,
    )
        requires
            arg.inner.requires_grad,
            arg.inner.shape@ == self.a.inner.shape@,
            self.a.inner.shape@ == self.b.inner.shape@,
            self.is_arg_grad(f, grad_output, arg, id, Some(t)),
            0 <= i < self.a.logical().len(),
        ensures
            t.inner.shape@ == arg.inner.shape@,
            call_ensures(
                f,
                (
                    grad_output.logical()[i],
                    self.a.logical()[i],
                    self.b.logical()[i],
                    self.output.logical()[i],
                ),
                t.logical()[i],
            ),
    {
        let sh = arg.inner.shape@;
        lemma_common_of_same(sh);
        lemma_source_same_shape(i, sh);
        let raw = choose|raw: Seq<T>|
            #[trigger] self.is_raw(f, grad_output, raw) && t.is_dense_cpu(
                id,
                reduced(raw, self.common(), sh),
                sh,
            );
        t.lemma_dense();
        assert(t.logical() =~= raw);
        assert(raw[i] == t.logical()[i]);
    }

    /// The gradient of an operand of another shape than the result: the values of the
    /// derivative at every coordinate of the result, brought back to that shape.
    pub proof fn lemma_arg_grad_values<F: Fn(T, T, T, T) -> T>(
        &self,
        f: F,
        grad_output: &Tensor<T>,
        arg: &Tensor<T>,
        id: TensorId,
        t: Tensor<T>,
    )
        requires
            arg.inner.requires_grad,
            stretchable(self.a.inner.shape@, self.b.inner.shape@),
            arg.inner.shape@ == self.a.inner.shape@ || arg.inner.shape@ == self.b.inner.shape@,
            self.is_arg_grad(f, grad_output, arg, id, Some(t)),
        ensures
            t.inner.shape@ == arg.inner.shape@,
            exists|raw: Seq<T>|
                {
                    &&& t.logical() == #[trigger] reduced(raw, self.common(), arg.inner.shape@)
                    &&& raw.len() == shape::prod(self.common())
                    &&& forall|idx: Seq<usize>|
                        #[trigger] shape::in_shape(idx, self.common()) ==> call_ensures(
                            f,
                            (
                                grad_output.logical()[shape::ravel(idx, self.common())],
                                self.a.logical()[shape::ravel(
                                    own_coordinate(idx, self.a.inner.shape@),
                                    self.a.inner.shape@,
                                )],
                                self.b.logical()[shape::ravel(
                                    own_coordinate(idx, self.b.inner.shape@),
                                    self.b.inner.shape@,
                                )],
                                self.output.logical()[shape::ravel(idx, self.common())],
                            ),
                            raw[shape::ravel(idx, self.common())],
                        )
                },
    {
        let sh = arg.inner.shape@;
        let out = self.common();
        lemma_common_shape(self.a.inner.shape@, self.b.inner.shape@);
        let raw = choose|raw: Seq<T>|
            #[trigger] self.is_raw(f, grad_output, raw) && t.is_dense_cpu(
                id,
                reduced(raw, out, sh),
                sh,
            );
        assert(reduced(raw, out, sh).len() == shape::prod(sh));
        t.lemma_dense();
        assert(t.logical() =~= reduced(raw, out, sh));
        assert forall|idx: Seq<usize>| #[trigger]
            shape::in_shape(idx, out) implies call_ensures(
            f,
            (
                grad_output.logical()[shape::ravel(idx, out)],
                self.a.logical()[shape::ravel(
                    own_coordinate(idx, self.a.inner.shape@),
                    self.a.inner.shape@,
                )],
                self.b.logical()[shape::ravel(
                    own_coordinate(idx, self.b.inner.shape@),
                    self.b.inner.shape@,
                )],
                self.output.logical()[shape::ravel(idx, out)],
            ),
            raw[shape::ravel(idx, out)],
        ) by {
            lemma_source_of_coordinate(idx, out, self.a.inner.shape@);
            lemma_source_of_coordinate(idx, out, self.b.inner.shape@);
            shape::lemma_ravel_bound(idx, out);
            let v = raw[shape::ravel(idx, out)];
        }
    }
}

} // verus!
