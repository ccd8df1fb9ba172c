//! Tensors as a whole: reading, moving, reshaping and summing them, by their elements.

use crate::autograd::{Context, Plan};
use crate::device::Device;
use crate::dtype::{DType, Float};
use crate::error::FerrotorchError;
use crate::layout::{count_eq, count_lt};
use crate::shape;
use crate::sparse_tensor::{columns_of, expanded_rows, rows_of, CompressedArrays};
use crate::storage::{placement, TensorStorage, Upload};
use crate::tensor::Tensor;
use crate::transfer::{AccumulateJob, TransferJob};
use vstd::prelude::*;

verus! {

/// Adding a gradient to one that is there, both in host memory: every element is the sum
/// of the element that was there and the new one, in that order.
pub proof fn lemma_accumulated_sum<T: Float>(
    g: Tensor<T>,
    incoming: &Tensor<T>,
    ctx: Context,
    t: Tensor<T>,
    i: int,
)
    requires
        g.wf(),
        incoming.wf(),
        g.inner.storage.on_host(),
        incoming.inner.storage.on_host(),
        Tensor::accumulate_outcome(
            Some(g),
            incoming,
            ctx,
            Some(t),
            Ok(Plan::<(), AccumulateJob>::Ready(())),
        ),
        0 <= i < g.count(),
    ensures
        t.inner.shape@ == g.inner.shape@,
        t.logical()[i] == g.logical()[i].plus(incoming.logical()[i]),
        g.count() == incoming.count(),
{
    t.lemma_dense();
}

/// The first gradient in host memory is kept as it is.
pub proof fn lemma_accumulated_first<T: Float>(
    incoming: &Tensor<T>,
    ctx: Context,
    t: Tensor<T>,
)
    requires
        incoming.wf(),
        incoming.inner.storage.on_host(),
        Tensor::accumulate_outcome(
            None,
            incoming,
            ctx,
            Some(t),
            Ok(Plan::<(), AccumulateJob>::Ready(())),
        ),
    ensures
        t.inner.shape@ == incoming.inner.shape@,
        t.logical() == incoming.logical(),
{
    t.lemma_dense();
    assert(t.logical() =~= incoming.logical());
}

/// Two gradients one after the other: the first plus the second, element by element.
pub proof fn lemma_accumulated_twice<T: Float>(
    first: &Tensor<T>,
    ctx: Context,
    t: Tensor<T>,
    second: &Tensor<T>,
    ctx2: Context,
    t2: Tensor<T>,
    i: int,
)
    requires
        first.wf(),
        second.wf(),
        first.inner.storage.on_host(),
        second.inner.storage.on_host(),
        Tensor::accumulate_outcome(
            None,
            first,
            ctx,
            Some(t),
            Ok(Plan::<(), AccumulateJob>::Ready(())),
        ),
        Tensor::accumulate_outcome(
            Some(t),
            second,
            ctx2,
            Some(t2),
            Ok(Plan::<(), AccumulateJob>::Ready(())),
        ),
        0 <= i < first.count(),
    ensures
        t2.inner.shape@ == first.inner.shape@,
        t2.logical()[i] == first.logical()[i].plus(second.logical()[i]),
{
    lemma_accumulated_first(first, ctx, t);
    lemma_accumulated_sum(t, second, ctx2, t2, i);
}

/// What a tensor that is its whole buffer shows is the buffer.
pub proof fn lemma_whole_buffer<T: Float>(t: &Tensor<T>)
    requires
        t.wf(),
        t.inner.storage.on_host(),
        !t.needs_gather(),
    ensures
        t.logical() == t.inner.storage.elements(),
{
    t.lemma_contiguous_run();
    assert(t.logical() =~= t.inner.storage.elements());
}

/// The elements that a host tensor is read as, coordinate by coordinate: the storage
/// elements at the offset plus every index times its stride.
pub proof fn lemma_read_element<T: Float>(t: &Tensor<T>, ctx: Context, v: Vec<T>, idx: Seq<usize>)
    requires
        t.inner.storage.on_host(),
        t.data_vec_outcome(ctx, Ok(Plan::Ready(v))),
        shape::in_shape(idx, t.inner.shape@),
    ensures
        v@.len() == t.count(),
        v@[shape::ravel(idx, t.inner.shape@)] == t.inner.storage.elements()[t.inner.offset
            + shape::dot(idx, t.inner.strides@)],
{
    crate::view_laws::lemma_view_element(t, idx);
}

/// A move to the device that a tensor is on gives the tensor; a move from the host to a
/// CUDA device hands over its elements in row-major order.
pub proof fn lemma_moved_elements<T: Float>(
    t: &Tensor<T>,
    device: Device,
    ctx: Context,
    job: TransferJob<T>,
    idx: Seq<usize>,
)
    requires
        t.wf(),
        t.inner.storage.on_host(),
        device is Cuda,
        t.to_outcome(device, ctx, Ok(Plan::Device(job))),
        shape::in_shape(idx, t.inner.shape@),
    ensures
        job matches TransferJob::Upload { data, ordinal, dtype } && data@.len() == t.count()
            && data@[shape::ravel(idx, t.inner.shape@)] == t.inner.storage.elements()[t.inner.offset
            + shape::dot(idx, t.inner.strides@)] && device == Device::Cuda(ordinal) && dtype
            == T::dtype_spec(),
{
    crate::view_laws::lemma_view_element(t, idx);
}

/// A tensor on the device asked for is not moved.
pub proof fn lemma_moved_nowhere<T: Float>(t: &Tensor<T>, ctx: Context, r: Tensor<T>)
    requires
        t.to_outcome(t.inner.storage.device, ctx, Ok(Plan::Ready(r))),
    ensures
        r == *t,
{
}

/// A host tensor that was handed to a device and read back into host memory, element by
/// element, has its shape and its elements.
pub proof fn lemma_there_and_back<T: Float>(
    t: &Tensor<T>,
    device: Device,
    ctx: Context,
    job: TransferJob<T>,
    back: Tensor<T>,
)
    requires
        t.wf(),
        t.inner.storage.on_host(),
        device is Cuda,
        t.to_outcome(device, ctx, Ok(Plan::Device(job))),
        back.wf(),
        job matches TransferJob::Upload { data, .. } && back.is_dense(
            ctx.fresh,
            *back.inner.storage,
            t.inner.shape@,
        ) && back.inner.storage.is_cpu_of(data@),
    ensures
        back.inner.shape@ == t.inner.shape@,
        back.logical() == t.logical(),
{
    back.lemma_dense();
    assert(back.logical() =~= t.logical());
}

/// A reshaped host tensor has the new shape and the same elements in row-major order.
pub proof fn lemma_reshaped_elements<T: Float>(
    t: &Tensor<T>,
    sh: Seq<usize>,
    id: crate::autograd::TensorId,
    r: Tensor<T>,
    i: int,
)
    requires
        t.inner.storage.on_host(),
        t.in_bounds(),
        t.reshape_outcome(sh, id, Ok(Plan::Ready(r))),
        0 <= i < t.count(),
    ensures
        r.inner.shape@ == sh,
        shape::prod(sh) == t.count(),
        r.logical()[i] == t.logical()[i],
{
}

/// A copied part of a host storage has its elements from the offset on.
pub proof fn lemma_subregion_elements<T: Float>(
    s: &TensorStorage<T>,
    offset: usize,
    numel: usize,
    ctx: Context,
    r: TensorStorage<T>,
    i: int,
)
    requires
        s.on_host(),
        s.subregion_outcome(offset, numel, ctx, Ok(Plan::Ready(r))),
        0 <= i < numel,
    ensures
        r.on_host(),
        r.elements().len() == numel,
        offset + numel <= s.elements().len(),
        r.elements()[i] == s.elements()[offset + i],
{
}

/// Placing elements in host memory keeps them, and placing them on a CUDA device hands
/// them over with four bytes for each single-width element, eight for each double-width
/// one and two for each half-width one.
pub proof fn lemma_placed_elements<T: Float>(
    data: Seq<T>,
    target: Device,
    ctx: Context,
    pinned: bool,
    r: Result<Plan<TensorStorage<T>, Upload<T>>, FerrotorchError>,
)
    requires
        placement(data, target, ctx, pinned, r),
    ensures
        target is Cpu ==> (r matches Ok(Plan::Ready(s)) && s.on_host() && s.elements() == data),
        r matches Ok(Plan::Device(u)) ==> u.data@ == data && target == Device::Cuda(u.ordinal)
            && u.bytes == data.len() * (match T::dtype_spec() {
            DType::F32 => 4int,
            DType::F64 => 8int,
            _ => 2int,
        }),
{
}

/// One more number counts once below every greater bound, and once among its equals.
pub proof fn lemma_count_appended(s: Seq<usize>, x: usize, c: int)
    ensures
        count_lt(s.push(x), s.len() as int + 1, c) == count_lt(s, s.len() as int, c) + (if x < c {
            1int
        } else {
            0int
        }),
        count_eq(s.push(x), s.len() as int + 1, c) == count_eq(s, s.len() as int, c) + (if x == c {
            1int
        } else {
            0int
        }),
        count_lt(Seq::empty(), 0, c) == 0,
        count_eq(Seq::empty(), 0, c) == 0,
{
    lemma_count_longer(s, x, s.len() as int, c);
}

proof fn lemma_count_longer(s: Seq<usize>, x: usize, n: int, c: int)
    requires
        0 <= n <= s.len(),
    ensures
        count_lt(s.push(x), n, c) == count_lt(s, n, c),
        count_eq(s.push(x), n, c) == count_eq(s, n, c),
    decreases n,
{
    if n > 0 {
        lemma_count_longer(s, x, n - 1, c);
    }
}

/// Arrays compressed by rows of entries that stand in the order of their rows: entry `e`
/// lies from the pointer of its row on before the next one, and its index is its column.
pub proof fn lemma_compressed_entry<T: Float>(
    a: CompressedArrays<T>,
    ks: Seq<Seq<usize>>,
    vals: Seq<T>,
    nrows: usize,
    ncols: usize,
    ordinal: usize,
    e: int,
)
    requires
        a.holds_rows(ks, vals, nrows, ncols, ordinal),
        0 <= e < ks.len(),
        forall|i: int, j: int|
            0 <= i <= j < ks.len() ==> #[trigger] ks[i][0] <= #[trigger] ks[j][0],
        ks[e][0] < nrows,
    ensures
        a.pointers@[ks[e][0] as int] <= e < a.pointers@[ks[e][0] + 1],
        a.indices@[e] == ks[e][1],
        a.values@ == vals,
{
    let rows = rows_of(ks);
    assert forall|i: int, j: int| 0 <= i <= j < rows.len() implies #[trigger] rows[i]
        <= #[trigger] rows[j] by {
        assert(ks[i][0] <= ks[j][0]);
    }
    crate::matrix::lemma_sorted_bucket(rows, rows.len() as int, e);
    assert(rows[e] == ks[e][0]);
    assert(columns_of(ks)[e] == ks[e][1]);
    assert(a.pointers@[ks[e][0] as int] == count_lt(rows, ks.len() as int, ks[e][0] as int));
    assert(a.pointers@[ks[e][0] + 1] == count_lt(rows, ks.len() as int, ks[e][0] + 1));
}

/// The coordinates of arrays compressed by rows: one for every entry from a row's pointer
/// on before the next one, with that row and the entry's index as its column.
pub proof fn lemma_expanded_entry(
    pointers: Seq<u32>,
    indices: Seq<u32>,
    m: int,
    row: int,
    e: int,
)
    requires
        0 <= row < m < pointers.len(),
        pointers[0] == 0,
        forall|i: int, j: int|
            0 <= i <= j < pointers.len() ==> #[trigger] pointers[i] <= #[trigger] pointers[j],
        pointers[row] <= e < pointers[row + 1],
        row < usize::MAX,
    ensures
        expanded_rows(pointers, indices, m).len() == pointers[m],
        expanded_rows(pointers, indices, m)[e] == seq![row as usize, indices[e] as usize],
    decreases m,
{
    lemma_expanded_len(pointers, indices, m);
    lemma_expanded_len(pointers, indices, m - 1);
    if row < m - 1 {
        lemma_expanded_entry(pointers, indices, m - 1, row, e);
        assert(pointers[row + 1] <= pointers[m - 1]);
    }
}

proof fn lemma_expanded_len(pointers: Seq<u32>, indices: Seq<u32>, m: int)
    requires
        0 <= m < pointers.len(),
        pointers[0] == 0,
        forall|i: int, j: int|
            0 <= i <= j < pointers.len() ==> #[trigger] pointers[i] <= #[trigger] pointers[j],
    ensures
        expanded_rows(pointers, indices, m).len() == pointers[m],
    decreases m,
{
    if m > 0 {
        lemma_expanded_len(pointers, indices, m - 1);
        assert(pointers[m - 1] <= pointers[m]);
    }
}

} // verus!
