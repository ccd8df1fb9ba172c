//! Strided views by coordinates: which storage element a coordinate names, how shapes and
//! strides grow by an axis, and what writes and gradients through a view do to one element.

use crate::autograd::{Context, Plan, TensorId};
use crate::dtype::Float;
use crate::error::{FerrotorchError, Reason};
use crate::format::{format_order, is_format_strides, permuted, strides_agree};
use crate::scatter::{
    lemma_cell_last_is_last, lemma_cell_last_untouched, lemma_cell_sum_once,
    lemma_cell_sum_twice,
};
use crate::shape;
use crate::storage::TensorStorage;
use crate::stride_tricks::{offset_or, ones, AsStridedBackward, BaseFill, CudaBackward};
use crate::strided;
use crate::tensor::{MemoryFormat, Tensor};
use crate::update::{positions, read_through, written_through};
use vstd::prelude::*;

verus! {

/// One more axis multiplies the number of elements by its size; without axes there is one
/// element.
pub proof fn lemma_prod_appended(sh: Seq<usize>, n: usize)
    ensures
        shape::prod(sh.push(n)) == shape::prod(sh) * n,
        shape::prod(Seq::empty()) == 1,
{
    assert(sh.push(n).drop_last() =~= sh);
}

/// One more axis multiplies a position by its size and adds the index along it.
pub proof fn lemma_ravel_appended(idx: Seq<usize>, sh: Seq<usize>, i: usize, n: usize)
    ensures
        shape::ravel(idx.push(i), sh.push(n)) == shape::ravel(idx, sh) * n + i,
        shape::ravel(Seq::empty(), Seq::empty()) == 0,
{
    assert(sh.push(n).drop_last() =~= sh);
    assert(idx.push(i).drop_last() =~= idx);
}

/// One more axis adds the index along it times its stride.
pub proof fn lemma_dot_appended(idx: Seq<usize>, strides: Seq<isize>, i: usize, s: isize)
    ensures
        shape::dot(idx.push(i), strides.push(s)) == shape::dot(idx, strides) + i * s,
        shape::dot(Seq::empty(), Seq::empty()) == 0,
{
    assert(strides.push(s).drop_last() =~= strides);
    assert(idx.push(i).drop_last() =~= idx);
}

/// Contiguous strides: one for the last axis, and for every other the stride of the next
/// axis times its size.
pub proof fn lemma_contiguous_strides(strides: Seq<isize>, sh: Seq<usize>, d: int)
    requires
        shape::is_contiguous_strides(strides, sh),
        0 <= d < sh.len(),
    ensures
        strides.len() == sh.len(),
        d == sh.len() - 1 ==> strides[d] == 1,
        d < sh.len() - 1 ==> strides[d] == strides[d + 1] * sh[d + 1],
{
    assert(strides[d] as int == shape::suffix_prod(sh, d + 1));
    if d == sh.len() - 1 {
        assert(sh.subrange(d + 1, sh.len() as int) =~= Seq::<usize>::empty());
    } else {
        let tail = sh.subrange(d + 1, sh.len() as int);
        shape::lemma_prod_cons(tail);
        assert(tail.subrange(1, tail.len() as int) =~= sh.subrange(d + 2, sh.len() as int));
        assert(strides[d + 1] as int == shape::suffix_prod(sh, d + 2));
        assert(tail[0] == sh[d + 1]);
        assert(sh[d + 1] * shape::suffix_prod(sh, d + 2) == shape::suffix_prod(sh, d + 2) * sh[d
            + 1]) by (nonlinear_arith);
    }
}

/// The offset of a coordinate of four axes.
proof fn lemma_dot_four(idx: Seq<usize>, strides: Seq<isize>)
    requires
        idx.len() == 4,
        strides.len() == 4,
    ensures
        shape::dot(idx, strides) == idx[0] * strides[0] + idx[1] * strides[1] + idx[2] * strides[2]
            + idx[3] * strides[3],
{
    reveal_with_fuel(shape::dot, 5);
}

proof fn lemma_dot_five(idx: Seq<usize>, strides: Seq<isize>)
    requires
        idx.len() == 5,
        strides.len() == 5,
    ensures
        shape::dot(idx, strides) == idx[0] * strides[0] + idx[1] * strides[1] + idx[2] * strides[2]
            + idx[3] * strides[3] + idx[4] * strides[4],
{
    reveal_with_fuel(shape::dot, 6);
}

/// The channels-last layout keeps the channels of a pixel together and goes on along the
/// width, the height and the images: the element at image `b`, channel `c`, row `h` and
/// column `w` stands at `((b * H + h) * W + w) * C + c`.
pub proof fn lemma_channels_last_offset(sh: Seq<usize>, strides: Seq<isize>, idx: Seq<usize>)
    requires
        sh.len() == 4,
        idx.len() == 4,
        is_format_strides(MemoryFormat::ChannelsLast, sh, strides),
    ensures
        shape::dot(idx, strides) == ((idx[0] * sh[2] + idx[2]) * sh[3] + idx[3]) * sh[1] + idx[1],
{
    lemma_dot_four(idx, strides);
    let (b, c, h, w) = (idx[0] as int, idx[1] as int, idx[2] as int, idx[3] as int);
    let (cs, hs, ws) = (sh[1] as int, sh[2] as int, sh[3] as int);
    assert(strides[0] == hs * (ws * cs));
    assert(strides[1] == 1);
    assert(strides[2] == ws * cs);
    assert(strides[3] == cs);
    let u = ws * cs;
    let q = b * hs + h;
    assert((q * ws + w) * cs == q * u + w * cs) by (nonlinear_arith)
        requires
            u == ws * cs,
    ;
    assert(q * u == b * (hs * u) + h * u) by (nonlinear_arith)
        requires
            q == b * hs + h,
    ;
    assert(idx[0] * strides[0] == b * (hs * u));
    assert(idx[1] * strides[1] == c) by (nonlinear_arith)
        requires
            strides[1] == 1,
            c == idx[1],
    ;
    assert(idx[2] * strides[2] == h * u);
    assert(idx[3] * strides[3] == w * cs);
    assert(((q * ws + w) * cs + c) == shape::dot(idx, strides));
}

/// The same with a depth: the element at image `b`, channel `c`, slice `d`, row `h` and
/// column `w` stands at `(((b * D + d) * H + h) * W + w) * C + c`.
pub proof fn lemma_channels_last_3d_offset(sh: Seq<usize>, strides: Seq<isize>, idx: Seq<usize>)
    requires
        sh.len() == 5,
        idx.len() == 5,
        is_format_strides(MemoryFormat::ChannelsLast3d, sh, strides),
    ensures
        shape::dot(idx, strides) == (((idx[0] * sh[2] + idx[2]) * sh[3] + idx[3]) * sh[4] + idx[4])
            * sh[1] + idx[1],
{
    lemma_dot_five(idx, strides);
    let (b, c, d, h, w) = (
        idx[0] as int,
        idx[1] as int,
        idx[2] as int,
        idx[3] as int,
        idx[4] as int,
    );
    let (cs, ds, hs, ws) = (sh[1] as int, sh[2] as int, sh[3] as int, sh[4] as int);
    assert(strides[0] == ds * (hs * (ws * cs)));
    assert(strides[1] == 1);
    assert(strides[2] == hs * (ws * cs));
    assert(strides[3] == ws * cs);
    assert(strides[4] == cs);
    let u = ws * cs;
    let v = hs * u;
    let q = b * ds + d;
    let r = q * hs + h;
    assert((r * ws + w) * cs == r * u + w * cs) by (nonlinear_arith)
        requires
            u == ws * cs,
    ;
    assert(r * u == q * v + h * u) by (nonlinear_arith)
        requires
            r == q * hs + h,
            v == hs * u,
    ;
    assert(q * v == b * (ds * v) + d * v) by (nonlinear_arith)
        requires
            q == b * ds + d,
    ;
    assert(idx[0] * strides[0] == b * (ds * v));
    assert(idx[1] * strides[1] == c) by (nonlinear_arith)
        requires
            strides[1] == 1,
            c == idx[1],
    ;
    assert(idx[2] * strides[2] == d * v);
    assert(idx[3] * strides[3] == h * u);
    assert(idx[4] * strides[4] == w * cs);
    assert(((r * ws + w) * cs + c) == shape::dot(idx, strides));
}

/// The element of a view at a coordinate is the storage element at the offset plus every
/// index times its stride.
pub proof fn lemma_view_element<T: Float>(t: &Tensor<T>, idx: Seq<usize>)
    requires
        shape::in_shape(idx, t.inner.shape@),
    ensures
        0 <= shape::ravel(idx, t.inner.shape@) < t.logical().len(),
        t.logical()[shape::ravel(idx, t.inner.shape@)] == t.inner.storage.elements()[t.inner.offset
            + shape::dot(idx, t.inner.strides@)],
{
    shape::lemma_ravel_bound(idx, t.inner.shape@);
    shape::lemma_ravel_unravel(idx, t.inner.shape@);
}

/// A view of one axis shows every stride-th element from the offset on.
pub proof fn lemma_vector_element<T: Float>(t: &Tensor<T>, i: usize)
    requires
        t.inner.shape@.len() == 1,
        t.inner.strides@.len() == 1,
        i < t.inner.shape@[0],
    ensures
        t.logical()[i as int] == t.inner.storage.elements()[t.inner.offset + i
            * t.inner.strides@[0]],
{
    let idx = seq![i];
    let n = t.inner.shape@[0];
    assert(shape::in_shape(idx, t.inner.shape@)) by {
        assert forall|d: int| 0 <= d < t.inner.shape@.len() implies #[trigger] idx[d]
            < t.inner.shape@[d] by {}
    }
    lemma_ravel_appended(Seq::empty(), Seq::empty(), i, n);
    lemma_dot_appended(Seq::empty(), Seq::empty(), i, t.inner.strides@[0]);
    assert(0 * n == 0);
    assert(Seq::empty().push(i) =~= idx);
    assert(Seq::empty().push(n) =~= t.inner.shape@);
    assert(Seq::empty().push(t.inner.strides@[0]) =~= t.inner.strides@);
    lemma_view_element(t, idx);
}

/// A view of two axes shows in row `i` and column `j` the element at the offset plus `i`
/// times the first stride plus `j` times the second.
pub proof fn lemma_matrix_element<T: Float>(t: &Tensor<T>, i: usize, j: usize)
    requires
        t.inner.shape@.len() == 2,
        t.inner.strides@.len() == 2,
        i < t.inner.shape@[0],
        j < t.inner.shape@[1],
    ensures
        t.logical()[i * t.inner.shape@[1] + j] == t.inner.storage.elements()[t.inner.offset + i
            * t.inner.strides@[0] + j * t.inner.strides@[1]],
{
    let idx = seq![i, j];
    let (m, n) = (t.inner.shape@[0], t.inner.shape@[1]);
    let (s0, s1) = (t.inner.strides@[0], t.inner.strides@[1]);
    assert(shape::in_shape(idx, t.inner.shape@)) by {
        assert forall|d: int| 0 <= d < t.inner.shape@.len() implies #[trigger] idx[d]
            < t.inner.shape@[d] by {}
    }
    lemma_ravel_appended(Seq::empty(), Seq::empty(), i, m);
    lemma_ravel_appended(seq![i], seq![m], j, n);
    lemma_dot_appended(Seq::empty(), Seq::empty(), i, s0);
    lemma_dot_appended(seq![i], seq![s0], j, s1);
    assert(0 * m == 0);
    assert(Seq::empty().push(i) =~= seq![i]);
    assert(Seq::empty().push(m) =~= seq![m]);
    assert(Seq::empty().push(s0) =~= seq![s0]);
    assert(seq![i].push(j) =~= idx);
    assert(seq![m].push(n) =~= t.inner.shape@);
    assert(seq![s0].push(s1) =~= t.inner.strides@);
    lemma_view_element(t, idx);
}

/// A tensor that was given the channels-last layout keeps its elements, and its storage
/// holds them channel after channel: at `((b * H + h) * W + w) * C + c` the element at
/// image `b`, channel `c`, row `h` and column `w`.
pub proof fn lemma_rearranged_element<T: Float>(
    source: &Tensor<T>,
    ctx: Context,
    t: Tensor<T>,
    idx: Seq<usize>,
)
    requires
        source.inner.storage.on_host(),
        source.inner.shape@.len() == 4,
        source.materialize_outcome(MemoryFormat::ChannelsLast, ctx, Ok(Plan::Ready(t))),
        shape::in_shape(idx, source.inner.shape@),
    ensures
        t.inner.shape@ == source.inner.shape@,
        t.inner.storage.elements().len() == source.count(),
        t.inner.storage.elements()[((idx[0] * source.inner.shape@[2] + idx[2])
            * source.inner.shape@[3] + idx[3]) * source.inner.shape@[1] + idx[1]]
            == source.logical()[shape::ravel(idx, source.inner.shape@)],
{
    lemma_view_element(&t, idx);
    lemma_channels_last_offset(source.inner.shape@, t.inner.strides@, idx);
}

/// A strided copy has at every coordinate the storage element at the offset plus every
/// index times its stride.
pub proof fn lemma_copied_element<T: Float>(
    source: &Tensor<T>,
    size: Seq<usize>,
    stride: Seq<isize>,
    offset: usize,
    ctx: Context,
    t: Tensor<T>,
    idx: Seq<usize>,
)
    requires
        source.inner.storage.on_host(),
        source.copy_outcome(size, stride, offset, ctx, Ok(Plan::Ready(t))),
        shape::in_shape(idx, size),
    ensures
        t.inner.shape@ == size,
        t.logical()[shape::ravel(idx, size)] == source.inner.storage.elements()[offset + shape::dot(
            idx,
            stride,
        )],
{
    t.lemma_dense();
    shape::lemma_ravel_bound(idx, size);
    shape::lemma_ravel_unravel(idx, size);
    assert(t.logical() =~= read_through(
        source.inner.storage.elements(),
        size,
        stride,
        offset as int,
    ));
}

/// After a write through a view an element holds the last value that was written to it,
/// and what it held where none was.
pub proof fn lemma_written_element<T>(
    data: Seq<T>,
    size: Seq<usize>,
    stride: Seq<isize>,
    offset: int,
    src: Seq<T>,
    k: int,
    p: int,
)
    requires
        strided::within(size, stride, offset, data.len() as int),
        data.len() <= usize::MAX,
        src.len() == shape::prod(size),
        0 <= p < data.len(),
    ensures
        0 <= k < src.len() && strided::offset_at(size, stride, offset, k) == p && (forall|j: int|
            k < j < src.len() ==> #[trigger] strided::offset_at(size, stride, offset, j) != p)
            ==> written_through(data, size, stride, offset, src)[p] == src[k],
        (forall|j: int|
            0 <= j < src.len() ==> #[trigger] strided::offset_at(size, stride, offset, j) != p)
            ==> written_through(data, size, stride, offset, src)[p] == data[p],
{
    let at = positions(size, stride, offset);
    let n = src.len() as int;
    assert forall|j: int| 0 <= j < n implies #[trigger] at[j] == strided::offset_at(
        size,
        stride,
        offset,
        j,
    ) by {
        strided::lemma_within_offset(size, stride, offset, data.len() as int, j);
    }
    if 0 <= k < n && strided::offset_at(size, stride, offset, k) == p && (forall|j: int|
        k < j < src.len() ==> #[trigger] strided::offset_at(size, stride, offset, j) != p) {
        assert(at[k] == p);
        lemma_cell_last_is_last(data[p], at, src, n, k);
    }
    if forall|j: int|
        0 <= j < src.len() ==> #[trigger] strided::offset_at(size, stride, offset, j) != p {
        lemma_cell_last_untouched(data[p], at, src, n, p);
    }
}

/// A strided scatter gives the element that the last coordinate of the view to name it
/// has in the source, and the element of the base where none names it.
pub proof fn lemma_scattered_element<T: Float>(
    base: &Tensor<T>,
    src: &Tensor<T>,
    size: Seq<usize>,
    stride: Seq<isize>,
    offset: usize,
    ctx: Context,
    t: Tensor<T>,
    k: int,
    p: int,
)
    requires
        base.wf(),
        src.wf(),
        base.inner.storage.on_host(),
        src.inner.storage.on_host(),
        base.scatter_outcome(src, size, stride, offset, ctx, Ok(Plan::Ready(t))),
        0 <= p < base.count(),
    ensures
        t.inner.shape@ == base.inner.shape@,
        0 <= k < src.count() && strided::offset_at(size, stride, offset as int, k) == p && (
        forall|j: int|
            k < j < src.count() ==> #[trigger] strided::offset_at(size, stride, offset as int, j)
                != p) ==> t.logical()[p] == src.logical()[k],
        (forall|j: int|
            0 <= j < src.count() ==> #[trigger] strided::offset_at(size, stride, offset as int, j)
                != p) ==> t.logical()[p] == base.logical()[p],
{
    let sh = base.inner.shape@;
    assert(sh.take(sh.len() as int) =~= sh);
    assert(shape::prod(sh.take(sh.len() as int)) <= usize::MAX);
    t.lemma_dense();
    lemma_bounds_hold(size, stride, offset, base.count() as usize);
    lemma_written_element(base.logical(), size, stride, offset as int, src.logical(), k, p);
    assert(t.logical() =~= written_through(
        base.logical(),
        size,
        stride,
        offset as int,
        src.logical(),
    ));
}

/// The bounds of a view are found good exactly where its coordinate ranks agree and every
/// element that it has lies within the storage, short of sums that do not fit; a view
/// without elements may also begin at the end.
pub proof fn lemma_bounds_hold(size: Seq<usize>, stride: Seq<isize>, offset: usize, len: usize)
    ensures
        strided::bounds_error(size, stride, offset, len) is None ==> size.len() == stride.len()
            && strided::within(size, stride, offset as int, len as int) && forall|k: int|
            0 <= k < shape::prod(size) ==> 0 <= #[trigger] strided::offset_at(
                size,
                stride,
                offset as int,
                k,
            ) < len,
        size.len() == stride.len() && strided::reach_fits(size, stride, offset as int)
            && shape::prod(size) > 0 && (forall|k: int|
            0 <= k < shape::prod(size) ==> 0 <= #[trigger] strided::offset_at(
                size,
                stride,
                offset as int,
                k,
            ) < len) ==> strided::bounds_error(size, stride, offset, len) is None,
        size.len() == stride.len() && shape::prod(size) == 0 ==> (strided::bounds_error(
            size,
            stride,
            offset,
            len,
        ) is None <==> offset <= len),
{
    if size.len() == stride.len() {
        strided::lemma_within_iff_all_offsets(size, stride, offset as int, len as int);
        if strided::is_empty_shape(size) {
            let d = choose|d: int| 0 <= d < size.len() && size[d] == 0;
            shape::lemma_prod_zero(size, d);
        } else {
            assert forall|d: int| 0 <= d < size.len() implies #[trigger] size[d] > 0 by {
                assert(!(size[d] == 0));
            }
            shape::lemma_prod_positive(size);
        }
    }
}

/// A view of one axis passes the overlap test exactly where it has at most one element or
/// a positive stride.
pub proof fn lemma_vector_overlap(n: usize, s: isize)
    ensures
        strided::strides_nest(seq![n], seq![s]) <==> (n > 1 ==> s > 0),
{
    reveal_with_fuel(strided::reach_below, 2);
    let sh = seq![n];
    let strides = seq![s];
    assert(strided::reach_below(sh, strides, 0, 1) == 0);
    if strided::strides_nest(sh, strides) {
        assert(sh[0] > 1 ==> strides[0] > 0);
    }
}

/// A matrix view passes the overlap test exactly where the strides of its axes longer
/// than one are positive, and the larger stride exceeds what the other axis reaches.
pub proof fn lemma_matrix_overlap(m: usize, n: usize, s: isize, t: isize)
    ensures
        strided::strides_nest(seq![m, n], seq![s, t]) <==> {
            &&& m > 1 ==> s > 0
            &&& n > 1 ==> t > 0
            &&& m > 1 && n > 1 && t <= s ==> s > (n - 1) * t
            &&& m > 1 && n > 1 && s <= t ==> t > (m - 1) * s
        },
{
    reveal_with_fuel(strided::reach_below, 3);
    let sh = seq![m, n];
    let strides = seq![s, t];
    assert(strided::reach_below(sh, strides, 0, 2) == if n > 1 && t <= s {
        (n - 1) * t
    } else {
        0
    });
    assert(strided::reach_below(sh, strides, 1, 2) == if m > 1 && s <= t {
        (m - 1) * s
    } else {
        0
    });
    if strided::strides_nest(sh, strides) {
        assert(sh[0] > 1 ==> strides[0] > 0 && strides[0] > strided::reach_below(sh, strides, 0, 2));
        assert(sh[1] > 1 ==> strides[1] > 0 && strides[1] > strided::reach_below(sh, strides, 1, 2));
    }
}

impl<T: Float> AsStridedBackward<T> {
    proof fn lemma_places(&self, view_at: Seq<usize>, input_at: Seq<usize>)
        requires
            self.wf(),
            self.input.inner.storage.spec_len() <= usize::MAX,
            view_at == positions(self.size@, self.stride@, self.storage_offset as int),
            input_at == positions(
                self.input.inner.shape@,
                self.input.inner.strides@,
                self.input.inner.offset as int,
            ),
        ensures
            view_at.len() == shape::prod(self.size@),
            input_at.len() == self.input.count(),
            forall|j: int|
                0 <= j < view_at.len() ==> #[trigger] view_at[j] == strided::offset_at(
                    self.size@,
                    self.stride@,
                    self.storage_offset as int,
                    j,
                ),
            forall|k: int|
                0 <= k < input_at.len() ==> #[trigger] input_at[k] == self.input.position(k),
    {
        let len = self.input.inner.storage.spec_len() as int;
        assert forall|j: int| 0 <= j < view_at.len() implies #[trigger] view_at[j]
            == strided::offset_at(self.size@, self.stride@, self.storage_offset as int, j) by {
            strided::lemma_within_offset(
                self.size@,
                self.stride@,
                self.storage_offset as int,
                len,
                j,
            );
        }
        assert forall|k: int| 0 <= k < input_at.len() implies #[trigger] input_at[k]
            == self.input.position(k) by {
            strided::lemma_within_offset(
                self.input.inner.shape@,
                self.input.inner.strides@,
                self.input.inner.offset as int,
                len,
                k,
            );
        }
    }

    /// The storage position of an element of the view.
    pub open spec fn view_position(&self, j: int) -> int {
        strided::offset_at(self.size@, self.stride@, self.storage_offset as int, j)
    }

    /// An input element that two elements of an overlapping view show, in an input that
    /// does not overlap itself, receives zero plus the gradient of the first plus that of
    /// the second.
    pub proof fn lemma_grad_of_shown_twice(&self, g: Seq<T>, a: int, b: int, k: int)
        requires
            self.wf(),
            self.input.inner.storage.spec_len() <= usize::MAX,
            !self.input_overlaps(),
            0 <= a < b < shape::prod(self.size@),
            0 <= k < self.input.count(),
            self.view_position(a) == self.input.position(k),
            self.view_position(b) == self.input.position(k),
            forall|j: int|
                0 <= j < shape::prod(self.size@) && j != a && j != b
                    ==> #[trigger] self.view_position(j) != self.input.position(k),
        ensures
            self.grad_input(g)[k] == T::zero_spec().plus(g[a]).plus(g[b]),
    {
        let view_at = positions(self.size@, self.stride@, self.storage_offset as int);
        let input_at = positions(
            self.input.inner.shape@,
            self.input.inner.strides@,
            self.input.inner.offset as int,
        );
        self.lemma_places(view_at, input_at);
        assert(view_at[a] == self.view_position(a));
        assert(view_at[b] == self.view_position(b));
        assert forall|j: int| 0 <= j < view_at.len() && j != a && j != b implies #[trigger] view_at[j]
            != view_at[a] by {
            assert(self.view_position(j) != self.input.position(k));
        }
        lemma_cell_sum_twice(T::zero_spec(), view_at, g, view_at.len() as int, a, b);
        assert(input_at[k] == self.input.position(k));
    }

    /// Two input elements that stand at the same position share the gradient of the view
    /// element there: each receives it over two, where two is above one.
    pub proof fn lemma_grad_shared_by_two(&self, g: Seq<T>, j: int, a: int, b: int)
        requires
            self.wf(),
            self.input.inner.storage.spec_len() <= usize::MAX,
            self.input_overlaps(),
            0 <= j < shape::prod(self.size@),
            0 <= a < b < self.input.count(),
            self.view_position(j) == self.input.position(a),
            self.input.position(a) == self.input.position(b),
            forall|i: int|
                0 <= i < shape::prod(self.size@) && i != j ==> #[trigger] self.view_position(i)
                    != self.input.position(a),
            forall|i: int|
                0 <= i < self.input.count() && i != a && i != b
                    ==> #[trigger] self.input.position(i) != self.input.position(a),
        ensures
            ({
                let two = T::zero_spec().plus(T::one_spec()).plus(T::one_spec());
                let whole = T::zero_spec().plus(g[j]);
                &&& T::one_spec().below(two) ==> self.grad_input(g)[a] == whole.over(two)
                    && self.grad_input(g)[b] == whole.over(two)
                &&& !T::one_spec().below(two) ==> self.grad_input(g)[a] == whole
                    && self.grad_input(g)[b] == whole
            }),
    {
        let view_at = positions(self.size@, self.stride@, self.storage_offset as int);
        let input_at = positions(
            self.input.inner.shape@,
            self.input.inner.strides@,
            self.input.inner.offset as int,
        );
        self.lemma_places(view_at, input_at);
        assert(view_at[j] == self.view_position(j));
        assert(input_at[a] == self.input.position(a));
        assert(input_at[b] == self.input.position(b));
        assert forall|i: int| 0 <= i < view_at.len() && i != j implies #[trigger] view_at[i]
            != view_at[j] by {
            assert(self.view_position(i) != self.input.position(a));
        }
        assert forall|i: int| 0 <= i < input_at.len() && i != a && i != b implies #[trigger] input_at[i]
            != input_at[a] by {
            assert(self.input.position(i) != self.input.position(a));
        }
        lemma_cell_sum_once(T::zero_spec(), view_at, g, view_at.len() as int, j);
        lemma_cell_sum_twice(
            T::zero_spec(),
            input_at,
            ones::<T>(input_at.len()),
            input_at.len() as int,
            a,
            b,
        );
    }

    /// The gradient tensor of a strided view in host memory: an input element that one
    /// view element shows, where the input does not overlap itself, has zero plus the
    /// upstream gradient of that view element; one that none shows has zero.
    pub proof fn lemma_backward_element(
        &self,
        grad_output: &Tensor<T>,
        ctx: Context,
        t: Tensor<T>,
        j: int,
        k: int,
    )
        requires
            self.wf(),
            self.input.inner.storage.spec_len() <= usize::MAX,
            self.input.inner.requires_grad,
            self.reads(),
            grad_output.inner.storage.on_host(),
            self.backward_outcome(grad_output, ctx, Ok(Plan::Ready(Some(t)))),
            !self.input_overlaps(),
            0 <= k < self.input.count(),
        ensures
            t.inner.shape@ == self.input.inner.shape@,
            0 <= j < shape::prod(self.size@) && self.view_position(j) == self.input.position(k) && (
            forall|i: int|
                0 <= i < shape::prod(self.size@) && i != j ==> #[trigger] self.view_position(i)
                    != self.input.position(k)) ==> t.logical()[k] == T::zero_spec().plus(
                grad_output.logical()[j],
            ),
            (forall|i: int|
                0 <= i < shape::prod(self.size@) ==> #[trigger] self.view_position(i)
                    != self.input.position(k)) ==> t.logical()[k] == T::zero_spec(),
    {
        let g = grad_output.logical();
        t.lemma_dense();
        assert(t.logical() =~= self.grad_input(g));
        let view_at = positions(self.size@, self.stride@, self.storage_offset as int);
        let input_at = positions(
            self.input.inner.shape@,
            self.input.inner.strides@,
            self.input.inner.offset as int,
        );
        self.lemma_places(view_at, input_at);
        assert(input_at[k] == self.input.position(k));
        let p = input_at[k] as int;
        if 0 <= j < view_at.len() && self.view_position(j) == self.input.position(k) && (forall|i: int|
            0 <= i < shape::prod(self.size@) && i != j ==> #[trigger] self.view_position(i)
                != self.input.position(k)) {
            assert(view_at[j] == self.view_position(j));
            assert forall|i: int| 0 <= i < view_at.len() && i != j implies #[trigger] view_at[i]
                != view_at[j] by {
                assert(self.view_position(i) != self.input.position(k));
            }
            lemma_cell_sum_once(T::zero_spec(), view_at, g, view_at.len() as int, j);
        }
        if forall|i: int|
            0 <= i < shape::prod(self.size@) ==> #[trigger] self.view_position(i)
                != self.input.position(k) {
            assert forall|i: int| 0 <= i < view_at.len() implies #[trigger] view_at[i] != p by {
                assert(self.view_position(i) != self.input.position(k));
            }
            crate::scatter::lemma_cell_sum_untouched(
                T::zero_spec(),
                view_at,
                g,
                view_at.len() as int,
                p,
            );
        }
    }
}

/// The coordinate with one at axis `d` and zero elsewhere.
spec fn unit(n: nat, d: int) -> Seq<usize> {
    Seq::new(
        n,
        |e: int|
            if e == d {
                1usize
            } else {
                0usize
            },
    )
}

proof fn lemma_zero_ravel(idx: Seq<usize>, sh: Seq<usize>)
    requires
        idx.len() == sh.len(),
        forall|e: int| 0 <= e < idx.len() ==> #[trigger] idx[e] == 0,
    ensures
        shape::ravel(idx, sh) == 0,
    decreases sh.len(),
{
    if sh.len() > 0 {
        lemma_zero_ravel(idx.drop_last(), sh.drop_last());
        assert(idx[idx.len() - 1] == 0);
        assert(0 * sh.last() == 0);
    }
}

proof fn lemma_unit_ravel(sh: Seq<usize>, d: int)
    requires
        0 <= d < sh.len(),
    ensures
        shape::ravel(unit(sh.len(), d), sh) == shape::suffix_prod(sh, d + 1),
    decreases sh.len(),
{
    let u = unit(sh.len(), d);
    let last = sh.len() - 1;
    let tail = sh.subrange(d + 1, sh.len() as int);
    if d == last {
        lemma_zero_ravel(u.drop_last(), sh.drop_last());
        assert(0 * sh.last() == 0);
        assert(tail =~= Seq::<usize>::empty());
    } else {
        assert(u.drop_last() =~= unit(sh.drop_last().len(), d));
        lemma_unit_ravel(sh.drop_last(), d);
        assert(tail.drop_last() =~= sh.drop_last().subrange(d + 1, last));
        assert(tail.last() == sh.last());
    }
}

proof fn lemma_unit_dot(strides: Seq<isize>, d: int)
    requires
        0 <= d < strides.len(),
    ensures
        shape::dot(unit(strides.len(), d), strides) == strides[d],
    decreases strides.len(),
{
    let u = unit(strides.len(), d);
    let last = strides.len() - 1;
    if d == last {
        lemma_zero_dot(u.drop_last(), strides.drop_last());
        assert(1 * strides.last() == strides.last());
    } else {
        assert(u.drop_last() =~= unit(strides.drop_last().len(), d));
        lemma_unit_dot(strides.drop_last(), d);
        assert(0 * strides.last() == 0);
    }
}

proof fn lemma_zero_dot(idx: Seq<usize>, strides: Seq<isize>)
    requires
        idx.len() == strides.len(),
        forall|e: int| 0 <= e < idx.len() ==> #[trigger] idx[e] == 0,
    ensures
        shape::dot(idx, strides) == 0,
    decreases strides.len(),
{
    if strides.len() > 0 {
        lemma_zero_dot(idx.drop_last(), strides.drop_last());
        assert(idx[idx.len() - 1] == 0);
        assert(0 * strides.last() == 0);
    }
}

/// A view with elements is contiguous exactly where they stand one behind the other in
/// row-major order.
pub proof fn lemma_contiguous_iff_in_order(sh: Seq<usize>, strides: Seq<isize>)
    requires
        sh.len() == strides.len(),
        shape::prod(sh) > 0,
    ensures
        shape::contiguous_layout(sh, strides) <==> forall|k: int|
            0 <= k < shape::prod(sh) ==> #[trigger] strided::offset_at(sh, strides, 0, k) == k,
{
    if shape::contiguous_layout(sh, strides) {
        assert forall|k: int| 0 <= k < shape::prod(sh) implies #[trigger] strided::offset_at(
            sh,
            strides,
            0,
            k,
        ) == k by {
            shape::lemma_contiguous_offset(sh, strides, k);
        }
    }
    if forall|k: int|
        0 <= k < shape::prod(sh) ==> #[trigger] strided::offset_at(sh, strides, 0, k) == k {
        assert forall|d: int|
            #![trigger strides[d]]
            0 <= d < sh.len() && shape::suffix_prod(sh, d) > 0 && sh[d] != 1 implies strides[d] as int
            == shape::suffix_prod(sh, d + 1) by {
            let u = unit(sh.len(), d);
            assert(shape::in_shape(u, sh)) by {
                assert forall|e: int| 0 <= e < sh.len() implies #[trigger] u[e] < sh[e] by {
                    if sh[e] == 0 {
                        shape::lemma_prod_zero(sh, e);
                    }
                }
            }
            lemma_unit_ravel(sh, d);
            lemma_unit_dot(strides, d);
            shape::lemma_ravel_bound(u, sh);
            shape::lemma_ravel_unravel(u, sh);
            let k = shape::ravel(u, sh);
            assert(strided::offset_at(sh, strides, 0, k) == k);
        }
    }
}

/// A tensor has the channels-last layout exactly where it has four axes whose strides,
/// but for those of size one, are those of images of rows of columns of channels.
pub proof fn lemma_has_channels_last<T: Float>(t: &Tensor<T>)
    requires
        t.wf(),
        t.inner.shape@.len() == 4 ==> forall|d: int|
            0 <= d < 4 ==> #[trigger] shape::channels_last_spec(t.inner.shape@)[d] <= isize::MAX,
    ensures
        ({
            let sh = t.inner.shape@;
            let st = t.inner.strides@;
            t.has_format(MemoryFormat::ChannelsLast) <==> {
                &&& sh.len() == 4
                &&& sh[1] != 1 ==> st[1] == 1
                &&& sh[3] != 1 ==> st[3] == sh[1]
                &&& sh[2] != 1 ==> st[2] == sh[3] * sh[1]
                &&& sh[0] != 1 ==> st[0] == sh[2] * (sh[3] * sh[1])
            }
        }),
{
    let sh = t.inner.shape@;
    let st = t.inner.strides@;
    let spec = shape::channels_last_spec(sh);
    if sh.len() == 4 {
        let expected = Seq::new(4, |d: int| spec[d] as isize);
        let (c, h, w) = (sh[1] as int, sh[2] as int, sh[3] as int);
        assert(0 <= w * c) by (nonlinear_arith)
            requires
                0 <= w,
                0 <= c,
        ;
        assert(0 <= h * (w * c)) by (nonlinear_arith)
            requires
                0 <= h,
                0 <= w * c,
        ;
        assert forall|d: int| 0 <= d < 4 implies #[trigger] expected[d] == spec[d] by {
            assert(spec[d] <= isize::MAX);
        }
        assert(is_format_strides(MemoryFormat::ChannelsLast, sh, expected));
        assert(expected[0] == h * (w * c) && expected[1] == 1 && expected[2] == w * c
            && expected[3] == c);
        if t.has_format(MemoryFormat::ChannelsLast) {
            let given = choose|given: Seq<isize>|
                #[trigger] is_format_strides(MemoryFormat::ChannelsLast, sh, given)
                    && strides_agree(sh, st, given);
            assert(given =~= expected);
            assert(sh[0] != 1 ==> st[0] == given[0]);
            assert(sh[1] != 1 ==> st[1] == given[1]);
            assert(sh[2] != 1 ==> st[2] == given[2]);
            assert(sh[3] != 1 ==> st[3] == given[3]);
        }
        if sh[1] != 1 ==> st[1] == 1 {
            if (sh[3] != 1 ==> st[3] == sh[1]) && (sh[2] != 1 ==> st[2] == sh[3] * sh[1]) && (sh[0]
                != 1 ==> st[0] == sh[2] * (sh[3] * sh[1])) {
                assert(strides_agree(sh, st, expected));
            }
        }
    }
}

/// The device copies a tensor to the channels-last layout by the axes images, rows,
/// columns, channels, and with a depth images, slices, rows, columns, channels.
pub proof fn lemma_format_axes<A>(s: Seq<A>)
    ensures
        s.len() == 4 ==> permuted(s, format_order(MemoryFormat::ChannelsLast, 4)) == seq![
            s[0],
            s[2],
            s[3],
            s[1],
        ],
        s.len() == 5 ==> permuted(s, format_order(MemoryFormat::ChannelsLast3d, 5)) == seq![
            s[0],
            s[2],
            s[3],
            s[4],
            s[1],
        ],
        permuted(s, format_order(MemoryFormat::Contiguous, s.len())) == s,
{
    if s.len() == 4 {
        assert(permuted(s, format_order(MemoryFormat::ChannelsLast, 4)) =~= seq![
            s[0],
            s[2],
            s[3],
            s[1],
        ]);
    }
    if s.len() == 5 {
        assert(permuted(s, format_order(MemoryFormat::ChannelsLast3d, 5)) =~= seq![
            s[0],
            s[2],
            s[3],
            s[4],
            s[1],
        ]);
    }
    assert(permuted(s, format_order(MemoryFormat::Contiguous, s.len())) =~= s);
}

/// A write through a view that is not contiguous is refused where an axis longer than one
/// has the stride zero, and changes nothing; where none has and every element lies within
/// the storage of the host, it is done.
pub proof fn lemma_view_write<T: Float>(
    t: &Tensor<T>,
    before: TensorStorage<T>,
    src: Seq<T>,
    after: TensorStorage<T>,
    r: Result<(), FerrotorchError>,
)
    requires
        t.wf(),
        t.inner.strides@.len() == t.inner.shape@.len(),
        !t.contiguous_spec(),
        before.spec_len() <= usize::MAX,
        t.host_write_outcome(before, src, after, r),
    ensures
        (exists|d: int|
            0 <= d < t.inner.shape@.len() && #[trigger] t.inner.shape@[d] > 1 && t.inner.strides@[d]
                == 0) ==> r is Err && after == before,
        (forall|d: int|
            0 <= d < t.inner.shape@.len() && #[trigger] t.inner.shape@[d] > 1
                ==> t.inner.strides@[d] != 0) && t.count() > 0 && strided::reach_fits(
            t.inner.shape@,
            t.inner.strides@,
            t.inner.offset as int,
        ) && (forall|k: int|
            0 <= k < t.count() ==> 0 <= #[trigger] t.position(k) < before.spec_len())
            && before.on_host() ==> r is Ok,
{
    if (forall|k: int| 0 <= k < t.count() ==> 0 <= #[trigger] t.position(k) < before.spec_len()) {
        assert forall|k: int| 0 <= k < shape::prod(t.inner.shape@) implies 0
            <= #[trigger] strided::offset_at(
            t.inner.shape@,
            t.inner.strides@,
            t.inner.offset as int,
            k,
        ) < before.spec_len() as usize by {
            assert(0 <= t.position(k) < before.spec_len());
        }
    }
    lemma_bounds_hold(
        t.inner.shape@,
        t.inner.strides@,
        t.inner.offset,
        before.spec_len() as usize,
    );
}

/// The gradient of a strided scatter, with an upstream gradient in host memory: that of
/// the base is zero at the elements that the view writes and the upstream gradient
/// elsewhere; that of the source is the upstream gradient at the elements that it writes.
pub proof fn lemma_scatter_gradient<T: Float>(
    upstream: Seq<T>,
    size: Seq<usize>,
    stride: Seq<isize>,
    offset: int,
    zeros: Seq<T>,
    p: int,
    k: int,
)
    requires
        strided::within(size, stride, offset, upstream.len() as int),
        upstream.len() <= usize::MAX,
        zeros == Seq::new(shape::prod(size), |i: int| T::zero_spec()),
        0 <= p < upstream.len(),
        0 <= k < shape::prod(size),
    ensures
        (exists|j: int|
            0 <= j < shape::prod(size) && #[trigger] strided::offset_at(size, stride, offset, j)
                == p) ==> written_through(upstream, size, stride, offset, zeros)[p]
            == T::zero_spec(),
        (forall|j: int|
            0 <= j < shape::prod(size) ==> #[trigger] strided::offset_at(size, stride, offset, j)
                != p) ==> written_through(upstream, size, stride, offset, zeros)[p] == upstream[p],
        read_through(upstream, size, stride, offset)[k] == upstream[strided::offset_at(
            size,
            stride,
            offset,
            k,
        )],
{
    lemma_written_element(upstream, size, stride, offset, zeros, 0, p);
    if exists|j: int|
        0 <= j < shape::prod(size) && #[trigger] strided::offset_at(size, stride, offset, j) == p {
        let j = choose|j: int|
            0 <= j < shape::prod(size) && #[trigger] strided::offset_at(size, stride, offset, j)
                == p;
        lemma_last_place(size, stride, offset, p, j, shape::prod(size) as int);
        let last = choose|i: int|
            j <= i < shape::prod(size) && #[trigger] strided::offset_at(size, stride, offset, i)
                == p && forall|h: int|
                i < h < shape::prod(size) ==> #[trigger] strided::offset_at(size, stride, offset, h)
                    != p;
        lemma_written_element(upstream, size, stride, offset, zeros, last, p);
    }
}

proof fn lemma_last_place(
    size: Seq<usize>,
    stride: Seq<isize>,
    offset: int,
    p: int,
    j: int,
    n: int,
)
    requires
        0 <= j < n,
        strided::offset_at(size, stride, offset, j) == p,
    ensures
        exists|i: int|
            j <= i < n && #[trigger] strided::offset_at(size, stride, offset, i) == p && forall|
                h: int,
            |
                i < h < n ==> #[trigger] strided::offset_at(size, stride, offset, h) != p,
    decreases n,
{
    if strided::offset_at(size, stride, offset, n - 1) != p {
        lemma_last_place(size, stride, offset, p, j, n - 1);
        let i = choose|i: int|
            j <= i < n - 1 && #[trigger] strided::offset_at(size, stride, offset, i) == p && forall|
                h: int,
            |
                i < h < n - 1 ==> #[trigger] strided::offset_at(size, stride, offset, h) != p;
        assert(strided::offset_at(size, stride, offset, i) == p);
    } else {
        assert(strided::offset_at(size, stride, offset, n - 1) == p);
    }
}

impl<T: Float> AsStridedBackward<T> {
    /// The device sums the gradients in a base buffer that begins at the lowest position
    /// of the input and of the view: every listed place lies in the buffer and is the
    /// storage position less that lowest one.
    pub proof fn lemma_device_places(
        &self,
        grad_output: &Tensor<T>,
        ctx: Context,
        job: CudaBackward,
        j: int,
        k: int,
    )
        requires
            self.wf(),
            self.reads(),
            self.cuda_outcome(grad_output, ctx, Ok(job)),
            0 <= j < shape::prod(self.size@),
            0 <= k < self.input.count(),
        ensures
            0 <= self.view_position(j) - self.low() < job.base_len,
            0 <= self.input.position(k) - self.low() < job.base_len,
            job.offset + self.low() == self.input.inner.offset,
            job.shape@ == self.input.inner.shape@,
            job.strides@ == self.input.inner.strides@,
            job.fill matches BaseFill::AddAt(at) ==> at@[j] == self.view_position(j) - self.low(),
            job.fill matches BaseFill::Scatter { size, stride, offset } ==> size@ == self.size@
                && stride@ == self.stride@ && offset + self.low() == self.storage_offset,
            job.visits matches Some(at) ==> at@[k] == self.input.position(k) - self.low(),
    {
        let (ish, ist) = (self.input.inner.shape@, self.input.inner.strides@);
        let vidx = shape::unravel(j, self.size@);
        let iidx = shape::unravel(k, ish);
        shape::lemma_unravel_ravel(j, self.size@);
        shape::lemma_unravel_ravel(k, ish);
        strided::lemma_dot_extent(vidx, self.size@, self.stride@);
        strided::lemma_dot_extent(iidx, ish, ist);
    }
}

/// The offset of a strided view that names none is the tensor's own; one that is named is
/// taken.
pub proof fn lemma_offset_or(o: usize, own: usize)
    ensures
        offset_or(Some(o), own) == o,
        offset_or(None, own) == own,
{
}

/// A shape whose sizes are positive and whose number of elements is a machine integer is
/// one that a tensor can have.
pub proof fn lemma_shape_fits(sh: Seq<usize>)
    requires
        shape::prod(sh) <= isize::MAX,
        forall|d: int| 0 <= d < sh.len() ==> #[trigger] sh[d] > 0,
    ensures
        shape::shape_fits(sh),
{
    assert forall|d: int| 0 <= d <= sh.len() implies #[trigger] shape::prod(sh.take(d))
        <= isize::MAX && shape::suffix_prod(sh, d) <= isize::MAX by {
        shape::lemma_prod_split(sh, d);
        let head = sh.take(d);
        let tail = sh.subrange(d, sh.len() as int);
        assert forall|e: int| 0 <= e < head.len() implies #[trigger] head[e] > 0 by {
            assert(sh[e] > 0);
        }
        assert forall|e: int| 0 <= e < tail.len() implies #[trigger] tail[e] > 0 by {
            assert(sh[d + e] > 0);
        }
        shape::lemma_prod_positive(head);
        shape::lemma_prod_positive(tail);
        let a = shape::prod(head) as int;
        let b = shape::prod(tail) as int;
        assert(a <= a * b && b <= a * b) by (nonlinear_arith)
            requires
                a >= 1,
                b >= 1,
        ;
    }
    assert forall|d: int| 0 <= d <= sh.len() implies #[trigger] shape::suffix_prod(sh, d)
        <= isize::MAX by {
        assert(shape::prod(sh.take(d)) <= isize::MAX);
    }
}

/// A view over the storage of another tensor shows at every coordinate that storage's
/// element at the offset plus every index times its stride.
pub proof fn lemma_strided_view_element<T: Float>(
    view: &Tensor<T>,
    base: &Tensor<T>,
    id: TensorId,
    size: Seq<usize>,
    stride: Seq<isize>,
    offset: usize,
    idx: Seq<usize>,
)
    requires
        view.is_view_of(base, id, size, stride, offset),
        shape::in_shape(idx, size),
    ensures
        view.inner.shape@ == size,
        view.logical()[shape::ravel(idx, size)] == base.inner.storage.elements()[offset
            + shape::dot(idx, stride)],
{
    lemma_view_element(view, idx);
}

/// What the other axes reach below an axis grows with one more axis by its last index
/// times its stride, where it is longer than one and its stride is not larger.
pub proof fn lemma_reach_appended(sh: Seq<usize>, strides: Seq<isize>, n: usize, s: isize, d: int)
    requires
        sh.len() == strides.len(),
        0 <= d < sh.len(),
    ensures
        strided::reach_below(sh.push(n), strides.push(s), d, sh.len() as int + 1)
            == strided::reach_below(sh, strides, d, sh.len() as int) + (if n > 1 && s
            <= strides[d] {
            (n - 1) * s
        } else {
            0
        }),
        strided::reach_below(sh, strides, d, 0) == 0,
{
    lemma_reach_longer(sh, strides, n, s, d, sh.len() as int);
}

proof fn lemma_reach_longer(
    sh: Seq<usize>,
    strides: Seq<isize>,
    n: usize,
    s: isize,
    d: int,
    m: int,
)
    requires
        sh.len() == strides.len(),
        0 <= d < sh.len(),
        0 <= m <= sh.len(),
    ensures
        strided::reach_below(sh.push(n), strides.push(s), d, m) == strided::reach_below(
            sh,
            strides,
            d,
            m,
        ),
    decreases m,
{
    if m > 0 {
        lemma_reach_longer(sh, strides, n, s, d, m - 1);
    }
}

/// A view that is found to reach below its storage or behind its end: the position that is
/// named is one of its elements', and none lies further out.
pub proof fn lemma_reach_named(size: Seq<usize>, stride: Seq<isize>, offset: usize, len: usize)
    requires
        shape::prod(size) > 0,
    ensures
        strided::bounds_error(size, stride, offset, len) matches Some(Reason::NegativeReach { lo })
            ==> lo < 0 && (forall|k: int|
            0 <= k < shape::prod(size) ==> #[trigger] strided::offset_at(
                size,
                stride,
                offset as int,
                k,
            ) >= lo) && (exists|k: int|
            0 <= k < shape::prod(size) && #[trigger] strided::offset_at(
                size,
                stride,
                offset as int,
                k,
            ) == lo),
        strided::bounds_error(size, stride, offset, len) matches Some(
            Reason::ReachBeyondStorage { hi, len: l },
        ) ==> l == len && hi >= len && (forall|k: int|
            0 <= k < shape::prod(size) ==> #[trigger] strided::offset_at(
                size,
                stride,
                offset as int,
                k,
            ) <= hi) && (exists|k: int|
            0 <= k < shape::prod(size) && #[trigger] strided::offset_at(
                size,
                stride,
                offset as int,
                k,
            ) == hi),
{
    if size.len() == stride.len() {
        if strided::is_empty_shape(size) {
            let d = choose|d: int| 0 <= d < size.len() && size[d] == 0;
            shape::lemma_prod_zero(size, d);
        }
        let lo = offset + strided::low_extent(size, stride);
        let hi = offset + strided::high_extent(size, stride);
        strided::lemma_extent_signs(size, stride);
        assert forall|k: int| 0 <= k < shape::prod(size) implies lo
            <= #[trigger] strided::offset_at(size, stride, offset as int, k) <= hi by {
            shape::lemma_unravel_ravel(k, size);
            strided::lemma_dot_extent(shape::unravel(k, size), size, stride);
        }
        strided::lemma_extent_reached(size, stride, false);
        strided::lemma_extent_reached(size, stride, true);
        let a = strided::extreme(size, stride, false);
        let b = strided::extreme(size, stride, true);
        shape::lemma_ravel_bound(a, size);
        shape::lemma_ravel_unravel(a, size);
        shape::lemma_ravel_bound(b, size);
        shape::lemma_ravel_unravel(b, size);
        assert(strided::offset_at(size, stride, offset as int, shape::ravel(a, size)) == lo);
        assert(strided::offset_at(size, stride, offset as int, shape::ravel(b, size)) == hi);
    }
}

/// A view with elements, from an offset and in a storage of lengths that a machine
/// integer with a sign has, is accepted exactly where each of its elements lies within the
/// storage.
pub proof fn lemma_bounds_accepted(
    size: Seq<usize>,
    stride: Seq<isize>,
    offset: usize,
    len: usize,
)
    requires
        size.len() == stride.len(),
        shape::prod(size) > 0,
        offset <= i64::MAX,
        len <= i64::MAX,
    ensures
        strided::bounds_error(size, stride, offset, len) is None <==> forall|k: int|
            0 <= k < shape::prod(size) ==> 0 <= #[trigger] strided::offset_at(
                size,
                stride,
                offset as int,
                k,
            ) < len,
{
    lemma_bounds_hold(size, stride, offset, len);
    if forall|k: int|
        0 <= k < shape::prod(size) ==> 0 <= #[trigger] strided::offset_at(
            size,
            stride,
            offset as int,
            k,
        ) < len {
        strided::lemma_within_iff_all_offsets(size, stride, offset as int, len as int);
        if strided::is_empty_shape(size) {
            let d = choose|d: int| 0 <= d < size.len() && size[d] == 0;
            shape::lemma_prod_zero(size, d);
        }
        assert(strided::reach_fits(size, stride, offset as int));
    }
}

} // verus!
