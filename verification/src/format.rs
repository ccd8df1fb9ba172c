//! Memory formats: the same elements in another physical order.

use crate::autograd::{Context, Plan};
use crate::device::GpuBufferHandle;
use crate::dtype::Float;
use crate::error::{CudaGap, FerrotorchError, FerrotorchResult, Reason};
use crate::scatter::{copied, filled, scatter};
use crate::shape;
use crate::storage::{StorageBuffer, TensorStorage};
use crate::strided;
use crate::tensor::{GradFn, MemoryFormat, MemoryFormatBackward, Tensor, TensorInner};
use crate::transfer::{copy_kernel, copy_kernel_spec, StridedCopy};
use crate::update::{lemma_write_then_read, positions, read_through, written_through};
use std::sync::Arc;
use vstd::prelude::*;

verus! {

/// The number of dimensions that a format is for, if it is for one only.
pub open spec fn format_rank(format: MemoryFormat) -> Option<nat> {
    match format {
        MemoryFormat::Contiguous => None,
        MemoryFormat::ChannelsLast => Some(4),
        MemoryFormat::ChannelsLast3d => Some(5),
    }
}

/// The format suits a tensor with this many dimensions.
pub open spec fn format_suits(format: MemoryFormat, ndim: nat) -> bool {
    format_rank(format) matches Some(n) ==> n == ndim
}

/// `strides` are those of the format for this shape.
pub open spec fn is_format_strides(
    format: MemoryFormat,
    sh: Seq<usize>,
    strides: Seq<isize>,
) -> bool {
    match format {
        MemoryFormat::Contiguous => shape::is_contiguous_strides(strides, sh),
        MemoryFormat::ChannelsLast => shape::strides_are(strides, shape::channels_last_spec(sh)),
        MemoryFormat::ChannelsLast3d => shape::strides_are(
            strides,
            shape::channels_last_3d_spec(sh),
        ),
    }
}

/// The strides of the format are machine integers.
pub open spec fn format_fits(format: MemoryFormat, sh: Seq<usize>) -> bool {
    match format {
        MemoryFormat::Contiguous => true,
        MemoryFormat::ChannelsLast => sh.len() == 4 ==> forall|d: int|
            0 <= d < 4 ==> #[trigger] shape::channels_last_spec(sh)[d] <= isize::MAX,
        MemoryFormat::ChannelsLast3d => sh.len() == 5 ==> forall|d: int|
            0 <= d < 5 ==> #[trigger] shape::channels_last_3d_spec(sh)[d] <= isize::MAX,
    }
}

/// The order in which the dimensions of a format stand in memory, outermost first.
pub open spec fn format_order(format: MemoryFormat, ndim: nat) -> Seq<int> {
    match format {
        MemoryFormat::ChannelsLast if ndim == 4 => seq![0int, 2, 3, 1],
        MemoryFormat::ChannelsLast3d if ndim == 5 => seq![0int, 2, 3, 4, 1],
        _ => Seq::new(ndim, |i: int| i),
    }
}

/// The entries of `s` in another order.
pub open spec fn permuted<A>(s: Seq<A>, order: Seq<int>) -> Seq<A> {
    Seq::new(order.len(), |i: int| s[order[i]])
}

proof fn lemma_four(idx: Seq<usize>, s: Seq<usize>, strides: Seq<isize>)
    requires
        idx.len() == 4,
        s.len() == 4,
        strides.len() == 4,
    ensures
        shape::ravel(idx, s) == ((idx[0] * s[1] + idx[1]) * s[2] + idx[2]) * s[3] + idx[3],
        shape::dot(idx, strides) == idx[0] * strides[0] + idx[1] * strides[1] + idx[2] * strides[2]
            + idx[3] * strides[3],
        shape::prod(s) == ((s[0] * s[1]) * s[2]) * s[3],
{
    reveal_with_fuel(shape::ravel, 5);
    reveal_with_fuel(shape::dot, 5);
    reveal_with_fuel(shape::prod, 5);
    assert(0 * s[0] == 0);
    assert(1 * s[0] == s[0]);
}

proof fn lemma_five(idx: Seq<usize>, s: Seq<usize>, strides: Seq<isize>)
    requires
        idx.len() == 5,
        s.len() == 5,
        strides.len() == 5,
    ensures
        shape::ravel(idx, s) == (((idx[0] * s[1] + idx[1]) * s[2] + idx[2]) * s[3] + idx[3]) * s[4]
            + idx[4],
        shape::dot(idx, strides) == idx[0] * strides[0] + idx[1] * strides[1] + idx[2] * strides[2]
            + idx[3] * strides[3] + idx[4] * strides[4],
        shape::prod(s) == (((s[0] * s[1]) * s[2]) * s[3]) * s[4],
{
    reveal_with_fuel(shape::ravel, 6);
    reveal_with_fuel(shape::dot, 6);
    reveal_with_fuel(shape::prod, 6);
    assert(0 * s[0] == 0);
    assert(1 * s[0] == s[0]);
}

proof fn lemma_fold(x: int, size: int, y: int, step: int)
    ensures
        x * (size * step) + y * step == (x * size + y) * step,
{
    assert(x * (size * step) + y * step == (x * size + y) * step) by (nonlinear_arith);
}

/// Under the strides of a format the offset of a coordinate is the row-major
/// position of the reordered coordinate in the reordered shape.
pub proof fn lemma_format_offset(
    format: MemoryFormat,
    idx: Seq<usize>,
    sh: Seq<usize>,
    strides: Seq<isize>,
)
    requires
        format_suits(format, sh.len()),
        is_format_strides(format, sh, strides),
        shape::in_shape(idx, sh),
    ensures
        ({
            let order = format_order(format, sh.len());
            &&& shape::in_shape(permuted(idx, order), permuted(sh, order))
            &&& shape::dot(idx, strides) == shape::ravel(permuted(idx, order), permuted(sh, order))
            &&& shape::prod(permuted(sh, order)) == shape::prod(sh)
        }),
{
    let order = format_order(format, sh.len());
    let pi = permuted(idx, order);
    let ps = permuted(sh, order);
    assert forall|d: int| 0 <= d < ps.len() implies #[trigger] pi[d] < ps[d] by {
        assert(idx[order[d]] < sh[order[d]]);
    }
    match format {
        MemoryFormat::Contiguous => {
            shape::lemma_row_major_contiguous(sh, strides);
            shape::lemma_ravel_bound(idx, sh);
            shape::lemma_ravel_unravel(idx, sh);
            shape::lemma_contiguous_offset(sh, strides, shape::ravel(idx, sh));
            assert(pi =~= idx);
            assert(ps =~= sh);
        },
        MemoryFormat::ChannelsLast => {
            lemma_four(idx, sh, strides);
            lemma_four(pi, ps, strides);
            let (n, c, h, w) = (idx[0] as int, idx[1] as int, idx[2] as int, idx[3] as int);
            let (sn, sc, sv, sw) = (sh[0] as int, sh[1] as int, sh[2] as int, sh[3] as int);
            assert(strides[0] == shape::channels_last_spec(sh)[0]);
            assert(strides[1] == shape::channels_last_spec(sh)[1]);
            assert(strides[2] == shape::channels_last_spec(sh)[2]);
            assert(strides[3] == shape::channels_last_spec(sh)[3]);
            lemma_fold(n, sv, h, sw * sc);
            lemma_fold(n * sv + h, sw, w, sc);
            assert(pi[0] == n && pi[1] == h && pi[2] == w && pi[3] == c);
            assert(ps[1] == sv && ps[2] == sw && ps[3] == sc);
            assert(idx[0] * strides[0] == n * (sv * (sw * sc)));
            assert(idx[1] * strides[1] == c * 1);
            assert(idx[2] * strides[2] == h * (sw * sc));
            assert(idx[3] * strides[3] == w * sc);
            assert(c * 1 == c) by (nonlinear_arith);
            assert(shape::dot(idx, strides) == shape::ravel(pi, ps));
            assert(((sn * sv) * sw) * sc == ((sn * sc) * sv) * sw) by (nonlinear_arith);
        },
        MemoryFormat::ChannelsLast3d => {
            lemma_five(idx, sh, strides);
            lemma_five(pi, ps, strides);
            let (n, c, d, h, w) = (
                idx[0] as int,
                idx[1] as int,
                idx[2] as int,
                idx[3] as int,
                idx[4] as int,
            );
            let (sn, sc, sd, sv, sw) = (
                sh[0] as int,
                sh[1] as int,
                sh[2] as int,
                sh[3] as int,
                sh[4] as int,
            );
            assert(strides[0] == shape::channels_last_3d_spec(sh)[0]);
            assert(strides[1] == shape::channels_last_3d_spec(sh)[1]);
            assert(strides[2] == shape::channels_last_3d_spec(sh)[2]);
            assert(strides[3] == shape::channels_last_3d_spec(sh)[3]);
            assert(strides[4] == shape::channels_last_3d_spec(sh)[4]);
            lemma_fold(n, sd, d, sv * (sw * sc));
            lemma_fold(n * sd + d, sv, h, sw * sc);
            lemma_fold((n * sd + d) * sv + h, sw, w, sc);
            assert(pi[0] == n && pi[1] == d && pi[2] == h && pi[3] == w && pi[4] == c);
            assert(ps[1] == sd && ps[2] == sv && ps[3] == sw && ps[4] == sc);
            assert(idx[0] * strides[0] == n * (sd * (sv * (sw * sc))));
            assert(idx[1] * strides[1] == c * 1);
            assert(idx[2] * strides[2] == d * (sv * (sw * sc)));
            assert(idx[3] * strides[3] == h * (sw * sc));
            assert(idx[4] * strides[4] == w * sc);
            assert(c * 1 == c) by (nonlinear_arith);
            assert(shape::dot(idx, strides) == shape::ravel(pi, ps));
            assert((((sn * sd) * sv) * sw) * sc == (((sn * sc) * sd) * sv) * sw)
                by (nonlinear_arith);
        },
    }
}

proof fn lemma_permuted_equal(a: Seq<usize>, b: Seq<usize>, format: MemoryFormat)
    requires
        a.len() == b.len(),
        format_suits(format, a.len()),
        permuted(a, format_order(format, a.len())) == permuted(b, format_order(format, a.len())),
    ensures
        a == b,
{
    let order = format_order(format, a.len());
    let pa = permuted(a, order);
    let pb = permuted(b, order);
    assert forall|d: int| 0 <= d < a.len() implies a[d] == b[d] by {
        let i = match format {
            MemoryFormat::Contiguous => d,
            _ => if d == 0 {
                0
            } else if d == 1 {
                a.len() - 1
            } else {
                d - 1
            },
        };
        assert(order[i] == d);
        assert(pa[i] == pb[i]);
    }
    assert(a =~= b);
}

/// The strides of a format place the elements at exactly the positions from zero
/// to below their number, each at its own.
pub proof fn lemma_format_layout(format: MemoryFormat, sh: Seq<usize>, strides: Seq<isize>)
    requires
        format_suits(format, sh.len()),
        is_format_strides(format, sh, strides),
        shape::shape_fits(sh),
    ensures
        strided::within(sh, strides, 0, shape::prod(sh) as int),
        strided::reach_fits(sh, strides, 0),
        forall|j: int, k: int|
            0 <= j < k < shape::prod(sh) ==> #[trigger] strided::offset_at(sh, strides, 0, j)
                != #[trigger] strided::offset_at(sh, strides, 0, k),
{
    let n = shape::prod(sh) as int;
    let order = format_order(format, sh.len());
    let ps = permuted(sh, order);
    assert forall|k: int| 0 <= k < n implies 0 <= #[trigger] strided::offset_at(
        sh,
        strides,
        0,
        k,
    ) < n by {
        shape::lemma_unravel_ravel(k, sh);
        let idx = shape::unravel(k, sh);
        lemma_format_offset(format, idx, sh, strides);
        shape::lemma_ravel_bound(permuted(idx, order), ps);
    }
    strided::lemma_within_iff_all_offsets(sh, strides, 0, n);
    assert(sh.subrange(0, sh.len() as int) =~= sh);
    assert(shape::suffix_prod(sh, 0) <= isize::MAX);
    strided::lemma_extent_signs(sh, strides);
    assert forall|j: int, k: int| 0 <= j < k < n implies #[trigger] strided::offset_at(
        sh,
        strides,
        0,
        j,
    ) != #[trigger] strided::offset_at(sh, strides, 0, k) by {
        shape::lemma_unravel_ravel(j, sh);
        shape::lemma_unravel_ravel(k, sh);
        let a = shape::unravel(j, sh);
        let b = shape::unravel(k, sh);
        lemma_format_offset(format, a, sh, strides);
        lemma_format_offset(format, b, sh, strides);
        if shape::dot(a, strides) == shape::dot(b, strides) {
            shape::lemma_ravel_unravel(permuted(a, order), ps);
            shape::lemma_ravel_unravel(permuted(b, order), ps);
            lemma_permuted_equal(a, b, format);
        }
    }
}

/// `indices` are these numbers.
pub open spec fn indices_are(indices: Seq<usize>, expected: Seq<int>) -> bool {
    &&& indices.len() == expected.len()
    &&& forall|i: int| 0 <= i < indices.len() ==> #[trigger] indices[i] == expected[i]
}

/// The order in which the dimensions of a format stand in memory, outermost first.
pub fn format_permutation(format: MemoryFormat, ndim: usize) -> (r: Vec<usize>)
    ensures
        indices_are(r@, format_order(format, ndim as nat)),
{
    let mut r: Vec<usize> = Vec::new();
    match format {
        MemoryFormat::ChannelsLast if ndim == 4 => {
            r.push(0);
            r.push(2);
            r.push(3);
            r.push(1);
        },
        MemoryFormat::ChannelsLast3d if ndim == 5 => {
            r.push(0);
            r.push(2);
            r.push(3);
            r.push(4);
            r.push(1);
        },
        _ => {
            let mut i: usize = 0;
            while i < ndim
                invariant
                    i <= ndim,
                    r@.len() == i,
                    forall|j: int| 0 <= j < i ==> #[trigger] r@[j] == j,
                decreases ndim - i,
            {
                r.push(i);
                i = i + 1;
            }
        },
    }
    r
}

/// Whether two lists of strides agree in every dimension of a size other than one.
pub fn strides_match_with_size1(sh: &[usize], actual: &[isize], expected: &[isize]) -> (r: bool)
    requires
        sh@.len() == actual@.len(),
    ensures
        r == strides_agree(sh@, actual@, expected@),
{
    if actual.len() != expected.len() {
        return false;
    }
    let mut i: usize = 0;
    while i < sh.len()
        invariant
            i <= sh.len(),
            sh@.len() == actual@.len(),
            actual@.len() == expected@.len(),
            forall|j: int|
                0 <= j < i && #[trigger] sh@[j] != 1 ==> actual@[j] == expected@[j],
        decreases sh.len() - i,
    {
        if sh[i] != 1 && actual[i] != expected[i] {
            return false;
        }
        i = i + 1;
    }
    true
}

/// Two lists of strides agree in every dimension of a size other than one.
pub open spec fn strides_agree(sh: Seq<usize>, actual: Seq<isize>, expected: Seq<isize>) -> bool {
    &&& actual.len() == expected.len()
    &&& forall|j: int| 0 <= j < sh.len() && #[trigger] sh[j] != 1 ==> actual[j] == expected[j]
}

/// The strides of a format for a shape that it suits.
pub fn format_strides(format: MemoryFormat, sh: &[usize]) -> (r: Vec<isize>)
    requires
        shape::shape_fits(sh@),
        format_fits(format, sh@),
        format_suits(format, sh@.len()),
    ensures
        is_format_strides(format, sh@, r@),
{
    match format {
        MemoryFormat::Contiguous => shape::c_contiguous_strides(sh),
        MemoryFormat::ChannelsLast => shape::channels_last_strides(sh),
        MemoryFormat::ChannelsLast3d => shape::channels_last_3d_strides(sh),
    }
}

impl<T: Float> Tensor<T> {
    /// The tensor already has the format.
    pub open spec fn has_format(&self, format: MemoryFormat) -> bool {
        match format {
            MemoryFormat::Contiguous => self.contiguous_spec(),
            _ => format_suits(format, self.inner.shape@.len()) && exists|expected: Seq<isize>|
                #[trigger] is_format_strides(format, self.inner.shape@, expected) && strides_agree(
                    self.inner.shape@,
                    self.inner.strides@,
                    expected,
                ),
        }
    }

    /// Whether the tensor already has the format.
    pub fn is_contiguous_for(&self, format: MemoryFormat) -> (r: bool)
        requires
            self.wf(),
            format_fits(format, self.inner.shape@),
        ensures
            r == self.has_format(format),
    {
        match format {
            MemoryFormat::Contiguous => self.is_contiguous(),
            _ => {
                let n: usize = self.ndim();
                let suits: bool = match format {
                    MemoryFormat::ChannelsLast => n == 4,
                    _ => n == 5,
                };
                if !suits {
                    return false;
                }
                let expected: Vec<isize> = format_strides(format, self.inner.shape.as_slice());
                let r: bool = strides_match_with_size1(
                    self.inner.shape.as_slice(),
                    self.inner.strides.as_slice(),
                    expected.as_slice(),
                );
                proof {
                    assert forall|other: Seq<isize>| #[trigger]
                        is_format_strides(format, self.inner.shape@, other) implies other
                        =~= expected@ by {
                        match format {
                            MemoryFormat::ChannelsLast => {
                                assert forall|d: int| 0 <= d < 4 implies other[d]
                                    == expected@[d] by {
                                    assert(other[d] == shape::channels_last_spec(
                                        self.inner.shape@,
                                    )[d]);
                                    assert(expected@[d] == shape::channels_last_spec(
                                        self.inner.shape@,
                                    )[d]);
                                }
                            },
                            _ => {
                                assert forall|d: int| 0 <= d < 5 implies other[d]
                                    == expected@[d] by {
                                    assert(other[d] == shape::channels_last_3d_spec(
                                        self.inner.shape@,
                                    )[d]);
                                    assert(expected@[d] == shape::channels_last_3d_spec(
                                        self.inner.shape@,
                                    )[d]);
                                }
                            },
                        }
                    }
                }
                r
            },
        }
    }

    /// Whether a rearrangement of the tensor is recorded for its gradient.
    pub open spec fn format_tracks(&self, ctx: Context) -> bool {
        !ctx.inference && ctx.grad_enabled && self.inner.requires_grad
    }

    /// The gradient part of a rearranged tensor.
    pub open spec fn is_rearranged(&self, source: &Tensor<T>, ctx: Context) -> bool {
        if source.format_tracks(ctx) {
            self.is_tracked(GradFn::MemoryFormat(MemoryFormatBackward { source: *source }))
        } else {
            self.is_plain(false)
        }
    }

    /// The rearranged tensor over storage that holds its elements in the new order.
    pub fn format_materialized(
        &self,
        storage: TensorStorage<T>,
        target_strides: Vec<isize>,
        ctx: Context,
    ) -> (r: Self)
        ensures
            r.inner.id == ctx.fresh,
            r.inner.object == ctx.fresh,
            *r.inner.storage == storage,
            r.inner.shape@ == self.inner.shape@,
            r.inner.strides@ == target_strides@,
            r.inner.offset == 0,
            r.is_rearranged(self, ctx),
    {
        let track: bool = !ctx.inference && ctx.grad_enabled && self.inner.requires_grad;
        let grad_fn: Option<Arc<GradFn<T>>> = if track {
            Some(Arc::new(GradFn::MemoryFormat(MemoryFormatBackward { source: self.clone() })))
        } else {
            None
        };
        Tensor {
            inner: Arc::new(
                TensorInner {
                    id: ctx.fresh,
                    object: ctx.fresh,
                    storage: Arc::new(storage),
                    shape: copied(self.inner.shape.as_slice()),
                    strides: target_strides,
                    offset: 0,
                    grad_fn,
                    requires_grad: track,
                    is_leaf: !track,
                },
            ),
        }
    }

    /// The outcome of a rearrangement.
    pub open spec fn materialize_outcome(
        &self,
        format: MemoryFormat,
        ctx: Context,
        r: FerrotorchResult<Plan<Tensor<T>, StridedCopy>>,
    ) -> bool {
        if !format_suits(format, self.inner.shape@.len()) {
            r matches Err(e) && e == (FerrotorchError::InvalidArgument {
                reason: Reason::FormatRank {
                    expected: format_rank(format)->0 as usize,
                    got: self.inner.shape@.len() as usize,
                },
            })
        } else {
            match self.inner.storage.data {
                StorageBuffer::Gpu(h) => if self.inner.shape@.len() <= 8 && ctx.backend {
                    let order = format_order(format, self.inner.shape@.len());
                    r matches Ok(Plan::Device(c)) && c.is(
                        h,
                        permuted(self.inner.shape@, order),
                        permuted(self.inner.strides@, order),
                        self.inner.offset,
                        copy_kernel_spec(T::dtype_spec()),
                    )
                } else {
                    r matches Err(e) && e == (FerrotorchError::NotImplementedOnCuda {
                        op: CudaGap::FormatRank,
                    })
                },
                StorageBuffer::Cpu(_) => {
                    &&& r matches Ok(Plan::Ready(t)) && t.inner.id == ctx.fresh
                        && t.inner.object == ctx.fresh && t.inner.shape@ == self.inner.shape@ && is_format_strides(
                        format,
                        self.inner.shape@,
                        t.inner.strides@,
                    ) && t.inner.offset == 0 && t.is_rearranged(self, ctx)
                        && t.inner.storage.on_host() && t.inner.storage.spec_len() == self.count()
                        && t.logical() == self.logical() && t.has_format(format) && t.wf()
                        && t.in_bounds()
                },
                _ => r matches Err(e) && e == FerrotorchError::GpuTensorNotAccessible,
            }
        }
    }

    /// The same elements, rearranged in memory.
    fn materialize_format(&self, format: MemoryFormat, ctx: Context) -> (r: FerrotorchResult<
        Plan<Tensor<T>, StridedCopy>,
    >)
        requires
            self.wf(),
            format_fits(format, self.inner.shape@),
            self.inner.storage.on_host() ==> self.in_bounds(),
        ensures
            self.materialize_outcome(format, ctx, r),
    {
        let n: usize = self.inner.shape.len();
        match format {
            MemoryFormat::ChannelsLast if n != 4 => {
                return Err(
                    FerrotorchError::InvalidArgument {
                        reason: Reason::FormatRank { expected: 4, got: n },
                    },
                );
            },
            MemoryFormat::ChannelsLast3d if n != 5 => {
                return Err(
                    FerrotorchError::InvalidArgument {
                        reason: Reason::FormatRank { expected: 5, got: n },
                    },
                );
            },
            _ => {},
        }
        if self.is_cuda() && n <= 8 && ctx.backend {
            let order: Vec<usize> = format_permutation(format, n);
            let source: GpuBufferHandle = *self.gpu_handle()?;
            proof {
                assert forall|i: int| 0 <= i < order@.len() implies #[trigger] order@[i] < n by {}
            }
            return Ok(
                Plan::Device(
                    StridedCopy {
                        source,
                        shape: permute(self.inner.shape.as_slice(), order.as_slice()),
                        strides: permute(self.inner.strides.as_slice(), order.as_slice()),
                        offset: self.inner.offset,
                        kernel: copy_kernel(T::dtype()),
                    },
                ),
            );
        }
        if self.is_cuda() {
            return Err(FerrotorchError::NotImplementedOnCuda { op: CudaGap::FormatRank });
        }
        let target: Vec<isize> = format_strides(format, self.inner.shape.as_slice());
        let t: Tensor<T> = self.materialize_format_cpu(format, target, ctx)?;
        proof {
            match format {
                MemoryFormat::Contiguous => {
                    shape::lemma_row_major_contiguous(t.inner.shape@, t.inner.strides@);
                },
                _ => {
                    assert(is_format_strides(format, t.inner.shape@, t.inner.strides@));
                    assert(strides_agree(t.inner.shape@, t.inner.strides@, t.inner.strides@));
                },
            }
        }
        Ok(Plan::Ready(t))
    }

    fn materialize_format_cpu(&self, format: MemoryFormat, target: Vec<isize>, ctx: Context) -> (r:
        FerrotorchResult<Tensor<T>>)
        requires
            self.wf(),
            format_suits(format, self.inner.shape@.len()),
            is_format_strides(format, self.inner.shape@, target@),
            self.inner.storage.on_host() ==> self.in_bounds(),
        ensures
            match r {
                Ok(t) => {
                    &&& self.inner.storage.on_host()
                    &&& t.inner.id == ctx.fresh
                    &&& t.inner.object == ctx.fresh
                    &&& t.inner.shape@ == self.inner.shape@
                    &&& t.inner.strides@ == target@
                    &&& t.inner.offset == 0
                    &&& t.is_rearranged(self, ctx)
                    &&& t.inner.storage.on_host()
                    &&& t.inner.storage.spec_len() == self.count()
                    &&& t.logical() == self.logical()
                    &&& t.wf()
                    &&& t.in_bounds()
                },
                Err(e) => !self.inner.storage.on_host() && e
                    == FerrotorchError::GpuTensorNotAccessible,
            },
    {
        if !self.inner.storage.is_cpu() {
            return Err(FerrotorchError::GpuTensorNotAccessible);
        }
        let n: usize = self.numel();
        let ghost sh = self.inner.shape@;
        let ghost st = self.inner.strides@;
        proof {
            lemma_format_layout(format, sh, target@);
            if self.contiguous_spec() && self.count() > 0 {
                crate::tensor::lemma_contiguous_end(
                    sh,
                    st,
                    self.inner.offset as int,
                    self.inner.storage.spec_len() as int,
                );
            }
        }
        let src: Vec<T> = self.host_vec()?;
        let mut dst: Vec<T> = filled(T::zero(), n);
        let ghost blank = dst@;
        let at: Vec<usize> = strided::strided_offsets(
            self.inner.shape.as_slice(),
            target.as_slice(),
            0,
            n,
        );
        scatter(&mut dst, at.as_slice(), src.as_slice());
        proof {
            assert(at@ =~= positions(sh, target@, 0));
            assert(dst@ =~= written_through(blank, sh, target@, 0, src@));
            lemma_write_then_read(blank, sh, target@, 0, src@);
        }
        let t: Tensor<T> = self.format_materialized(TensorStorage::cpu(dst), target, ctx);
        proof {
            assert(t.logical() =~= read_through(dst@, sh, t.inner.strides@, 0));
            lemma_format_rank_len(format, sh, t.inner.strides@);
        }
        Ok(t)
    }

    /// The tensor in the given format: as it is, if it already has the format.
    pub fn to_memory_format(&self, format: MemoryFormat, ctx: Context) -> (r: FerrotorchResult<
        Plan<Tensor<T>, StridedCopy>,
    >)
        requires
            self.wf(),
            format_fits(format, self.inner.shape@),
            self.inner.storage.on_host() ==> self.in_bounds(),
        ensures
            if self.has_format(format) {
                r matches Ok(Plan::Ready(t)) && t == *self
            } else {
                self.materialize_outcome(format, ctx, r)
            },
    {
        if self.is_contiguous_for(format) {
            return Ok(Plan::Ready(self.clone()));
        }
        self.materialize_format(format, ctx)
    }

    /// The tensor in the given format.
    pub fn contiguous_in(&self, format: MemoryFormat, ctx: Context) -> (r: FerrotorchResult<
        Plan<Tensor<T>, StridedCopy>,
    >)
        requires
            self.wf(),
            format_fits(format, self.inner.shape@),
            self.inner.storage.on_host() ==> self.in_bounds(),
        ensures
            if self.has_format(format) {
                r matches Ok(Plan::Ready(t)) && t == *self
            } else {
                self.materialize_outcome(format, ctx, r)
            },
    {
        self.to_memory_format(format, ctx)
    }
}

proof fn lemma_format_rank_len(format: MemoryFormat, sh: Seq<usize>, strides: Seq<isize>)
    requires
        format_suits(format, sh.len()),
        is_format_strides(format, sh, strides),
    ensures
        strides.len() == sh.len(),
{
}

/// The entries of `s` in another order.
fn permute<A: Copy>(s: &[A], order: &[usize]) -> (r: Vec<A>)
    requires
        forall|i: int| 0 <= i < order@.len() ==> #[trigger] order@[i] < s@.len(),
    ensures
        forall|o: Seq<int>| #[trigger] indices_are(order@, o) ==> r@ == permuted(s@, o),
{
    let r: Vec<A> = crate::scatter::gather(s, order);
    proof {
        assert forall|o: Seq<int>| #[trigger] indices_are(order@, o) implies r@ == permuted(
            s@,
            o,
        ) by {
            assert(r@ =~= permuted(s@, o));
        }
    }
    r
}

} // verus!
