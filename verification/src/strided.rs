//! Strided geometry: which storage positions a view reaches, and in which order.
//!
//! A view is a shape, a stride per dimension and a base offset. The element
//! with coordinate `idx` stands at `base + dot(idx, strides)`; the elements are
//! visited in row-major order of their coordinates.

use crate::error::{FerrotorchError, FerrotorchResult, Reason};
use crate::limits::fits_reach;
use crate::shape;
use vstd::prelude::*;

verus! {

/// The storage position of the `k`-th element of a view.
pub open spec fn offset_at(sh: Seq<usize>, strides: Seq<isize>, base: int, k: int) -> int {
    base + shape::dot(shape::unravel(k, sh), strides)
}

/// How far the last coordinate of a dimension lies from the first.
pub open spec fn span(size: usize, stride: isize) -> int {
    (size - 1) * stride
}

/// The lowest offset, relative to the base, that a view with no empty dimension
/// reaches.
pub open spec fn low_extent(sh: Seq<usize>, strides: Seq<isize>) -> int
    decreases sh.len(),
{
    if sh.len() == 0 {
        0
    } else {
        let s = span(sh.last(), strides.last());
        low_extent(sh.drop_last(), strides.drop_last()) + if s < 0 {
            s
        } else {
            0
        }
    }
}

/// The highest offset, relative to the base, that a view with no empty dimension
/// reaches.
pub open spec fn high_extent(sh: Seq<usize>, strides: Seq<isize>) -> int
    decreases sh.len(),
{
    if sh.len() == 0 {
        0
    } else {
        let s = span(sh.last(), strides.last());
        high_extent(sh.drop_last(), strides.drop_last()) + if s < 0 {
            0
        } else {
            s
        }
    }
}

/// Some dimension has size zero.
pub open spec fn is_empty_shape(sh: Seq<usize>) -> bool {
    exists|d: int| 0 <= d < sh.len() && sh[d] == 0
}

/// The view has one stride per dimension, and every element of it stands at a
/// position from zero to below `len`.
pub open spec fn within(sh: Seq<usize>, strides: Seq<isize>, base: int, len: int) -> bool {
    &&& sh.len() == strides.len()
    &&& is_empty_shape(sh) || (0 <= base + low_extent(sh, strides) && base + high_extent(
        sh,
        strides,
    ) < len)
}

/// Every position on the way through the view is an `i64`.
pub open spec fn reach_fits(sh: Seq<usize>, strides: Seq<isize>, base: int) -> bool {
    is_empty_shape(sh) || (i64::MIN <= low_extent(sh, strides) && base + high_extent(sh, strides)
        <= i64::MAX)
}

pub proof fn lemma_extent_signs(sh: Seq<usize>, strides: Seq<isize>)
    ensures
        low_extent(sh, strides) <= 0 <= high_extent(sh, strides),
    decreases sh.len(),
{
    if sh.len() > 0 {
        lemma_extent_signs(sh.drop_last(), strides.drop_last());
    }
}

/// Leading dimensions reach no further than all dimensions.
pub proof fn lemma_extent_prefix(sh: Seq<usize>, strides: Seq<isize>, d: int)
    requires
        sh.len() == strides.len(),
        0 <= d <= sh.len(),
    ensures
        low_extent(sh, strides) <= low_extent(sh.take(d), strides.take(d)),
        high_extent(sh.take(d), strides.take(d)) <= high_extent(sh, strides),
    decreases sh.len(),
{
    if d < sh.len() {
        lemma_extent_prefix(sh.drop_last(), strides.drop_last(), d);
        assert(sh.drop_last().take(d) =~= sh.take(d));
        assert(strides.drop_last().take(d) =~= strides.take(d));
    } else {
        assert(sh.take(d) =~= sh);
        assert(strides.take(d) =~= strides);
    }
}

/// The product of an element of `[0, size)` and a stride lies between zero and the span.
proof fn lemma_span_bound(i: usize, size: usize, stride: isize)
    requires
        i < size,
    ensures
        span(size, stride) < 0 ==> span(size, stride) <= i * stride <= 0,
        span(size, stride) >= 0 ==> 0 <= i * stride <= span(size, stride),
{
    let n = size - 1;
    let s = stride as int;
    assert(n * s < 0 ==> n * s <= i * s <= 0) by (nonlinear_arith)
        requires
            0 <= i <= n,
    ;
    assert(n * s >= 0 ==> 0 <= i * s <= n * s) by (nonlinear_arith)
        requires
            0 <= i <= n,
    ;
}

/// Every coordinate stays within the extents.
pub proof fn lemma_dot_extent(idx: Seq<usize>, sh: Seq<usize>, strides: Seq<isize>)
    requires
        shape::in_shape(idx, sh),
        sh.len() == strides.len(),
    ensures
        low_extent(sh, strides) <= shape::dot(idx, strides) <= high_extent(sh, strides),
    decreases sh.len(),
{
    if sh.len() > 0 {
        let i = idx.drop_last();
        let s = sh.drop_last();
        assert forall|d: int| 0 <= d < s.len() implies #[trigger] i[d] < s[d] by {
            assert(idx[d] < sh[d]);
        }
        lemma_dot_extent(i, s, strides.drop_last());
        assert(idx[sh.len() - 1] < sh[sh.len() - 1]);
        lemma_span_bound(idx.last(), sh.last(), strides.last());
    }
}

/// The coordinate at which the lowest (or, with `high`, the highest) offset is reached.
pub open spec fn extreme(sh: Seq<usize>, strides: Seq<isize>, high: bool) -> Seq<usize> {
    Seq::new(
        sh.len(),
        |d: int|
            if (span(sh[d], strides[d]) >= 0) == high {
                (sh[d] - 1) as usize
            } else {
                0usize
            },
    )
}

/// The extents are reached.
pub proof fn lemma_extent_reached(sh: Seq<usize>, strides: Seq<isize>, high: bool)
    requires
        sh.len() == strides.len(),
        !is_empty_shape(sh),
    ensures
        shape::in_shape(extreme(sh, strides, high), sh),
        shape::dot(extreme(sh, strides, high), strides) == if high {
            high_extent(sh, strides)
        } else {
            low_extent(sh, strides)
        },
    decreases sh.len(),
{
    let e = extreme(sh, strides, high);
    assert forall|d: int| 0 <= d < sh.len() implies #[trigger] e[d] < sh[d] by {
        assert(sh[d] != 0);
    }
    if sh.len() > 0 {
        let s = sh.drop_last();
        let t = strides.drop_last();
        assert(!is_empty_shape(s)) by {
            if is_empty_shape(s) {
                let d = choose|d: int| 0 <= d < s.len() && s[d] == 0;
                assert(sh[d] == 0);
            }
        }
        lemma_extent_reached(s, t, high);
        assert(extreme(s, t, high) =~= e.drop_last());
        assert(sh[sh.len() - 1] != 0);
        assert(0 * strides.last() == 0);
    }
}

/// A view whose extents lie within `[0, len)` reaches only such positions.
pub proof fn lemma_within_offset(sh: Seq<usize>, strides: Seq<isize>, base: int, len: int, k: int)
    requires
        within(sh, strides, base, len),
        0 <= k < shape::prod(sh),
    ensures
        0 <= offset_at(sh, strides, base, k) < len,
        !is_empty_shape(sh),
{
    shape::lemma_unravel_ravel(k, sh);
    lemma_dot_extent(shape::unravel(k, sh), sh, strides);
    if is_empty_shape(sh) {
        let d = choose|d: int| 0 <= d < sh.len() && sh[d] == 0;
        shape::lemma_prod_zero(sh, d);
    }
}

/// A view without an empty dimension lies within `[0, len)` exactly if each of its
/// elements does.
pub proof fn lemma_within_iff_all_offsets(
    sh: Seq<usize>,
    strides: Seq<isize>,
    base: int,
    len: int,
)
    requires
        sh.len() == strides.len(),
    ensures
        within(sh, strides, base, len) <==> (forall|k: int|
            0 <= k < shape::prod(sh) ==> 0 <= #[trigger] offset_at(sh, strides, base, k) < len),
{
    if within(sh, strides, base, len) {
        assert forall|k: int| 0 <= k < shape::prod(sh) implies 0 <= #[trigger] offset_at(
            sh,
            strides,
            base,
            k,
        ) < len by {
            lemma_within_offset(sh, strides, base, len, k);
        }
    } else if forall|k: int|
        0 <= k < shape::prod(sh) ==> 0 <= #[trigger] offset_at(sh, strides, base, k) < len {
        assert forall|high: bool| #![trigger extreme(sh, strides, high)] 0 <= base + shape::dot(
            extreme(sh, strides, high),
            strides,
        ) < len by {
            let e = extreme(sh, strides, high);
            lemma_extent_reached(sh, strides, high);
            shape::lemma_ravel_bound(e, sh);
            shape::lemma_ravel_unravel(e, sh);
            assert(0 <= offset_at(sh, strides, base, shape::ravel(e, sh)) < len);
        }
        lemma_extent_reached(sh, strides, true);
        lemma_extent_reached(sh, strides, false);
        assert(0 <= base + shape::dot(extreme(sh, strides, true), strides) < len);
        assert(0 <= base + shape::dot(extreme(sh, strides, false), strides) < len);
        assert(false);
    }
}

/// Changing one entry of a coordinate moves its offset by the difference times the stride.
pub proof fn lemma_dot_update(idx: Seq<usize>, strides: Seq<isize>, d: int, x: usize)
    requires
        0 <= d < strides.len(),
        idx.len() == strides.len(),
    ensures
        shape::dot(idx.update(d, x), strides) == shape::dot(idx, strides) + (x - idx[d])
            * strides[d],
    decreases strides.len(),
{
    let u = idx.update(d, x);
    if d == strides.len() - 1 {
        assert(u.drop_last() =~= idx.drop_last());
        assert((x - idx[d]) * strides[d] == x * strides[d] - idx[d] * strides[d])
            by (nonlinear_arith);
    } else {
        lemma_dot_update(idx.drop_last(), strides.drop_last(), d, x);
        assert(u.drop_last() =~= idx.drop_last().update(d, x));
        assert(u.last() == idx.last());
    }
}

/// The coordinate behind `idx` in row-major order.
pub open spec fn succ(idx: Seq<usize>, sh: Seq<usize>) -> Seq<usize>
    decreases sh.len(),
{
    if sh.len() == 0 {
        idx
    } else if idx.last() + 1 < sh.last() {
        idx.drop_last().push((idx.last() + 1) as usize)
    } else {
        succ(idx.drop_last(), sh.drop_last()).push(0)
    }
}

/// The successor of a coordinate has the next position.
pub proof fn lemma_succ(idx: Seq<usize>, sh: Seq<usize>)
    requires
        shape::in_shape(idx, sh),
        shape::ravel(idx, sh) + 1 < shape::prod(sh),
    ensures
        shape::in_shape(succ(idx, sh), sh),
        shape::ravel(succ(idx, sh), sh) == shape::ravel(idx, sh) + 1,
    decreases sh.len(),
{
    if sh.len() > 0 {
        let i = idx.drop_last();
        let s = sh.drop_last();
        let n = sh.last() as int;
        assert forall|d: int| 0 <= d < s.len() implies #[trigger] i[d] < s[d] by {
            assert(idx[d] < sh[d]);
        }
        assert(idx[sh.len() - 1] < sh[sh.len() - 1]);
        shape::lemma_ravel_bound(i, s);
        let r = shape::ravel(i, s);
        let p = shape::prod(s) as int;
        let u = succ(idx, sh);
        if idx.last() + 1 < n {
            assert(u.drop_last() =~= i);
        } else {
            assert(r * n + (n - 1) + 1 < p * n);
            assert(r + 1 < p) by (nonlinear_arith)
                requires
                    r * n + (n - 1) + 1 < p * n,
                    n > 0,
            ;
            lemma_succ(i, s);
            assert(u.drop_last() =~= succ(i, s));
            assert((r + 1) * n + 0 == r * n + (n - 1) + 1) by (nonlinear_arith);
        }
        assert forall|d: int| 0 <= d < sh.len() implies #[trigger] u[d] < sh[d] by {
            if d < s.len() {
                assert(u[d] == u.drop_last()[d]);
                assert(s[d] == sh[d]);
            }
        }
    }
}

/// The coordinate whose entries from `d` on are zero and whose others are those of `idx`.
spec fn zero_from(idx: Seq<usize>, d: int) -> Seq<usize> {
    Seq::new(
        idx.len(),
        |e: int|
            if e < d {
                idx[e]
            } else {
                0usize
            },
    )
}

proof fn lemma_succ_wrap(idx: Seq<usize>, sh: Seq<usize>, d: int)
    requires
        idx.len() == sh.len(),
        0 <= d <= sh.len(),
        forall|e: int| d <= e < sh.len() ==> #[trigger] idx[e] + 1 >= sh[e],
    ensures
        succ(idx, sh) =~= succ(idx.take(d), sh.take(d)) + Seq::new(
            (sh.len() - d) as nat,
            |e: int| 0usize,
        ),
    decreases sh.len() - d,
{
    if d == sh.len() {
        assert(idx.take(d) =~= idx);
        assert(sh.take(d) =~= sh);
    } else {
        lemma_succ_wrap(idx, sh, d + 1);
        let i = idx.take(d + 1);
        let s = sh.take(d + 1);
        assert(i.drop_last() =~= idx.take(d));
        assert(s.drop_last() =~= sh.take(d));
        assert(idx[d] + 1 >= sh[d]);
        assert(i.last() == idx[d]);
        assert(s.last() == sh[d]);
    }
}

/// Moves a coordinate and its storage position to the next element.
fn advance(idx: &mut Vec<usize>, sh: &[usize], strides: &[isize], flat: i64, Ghost(base): Ghost<
    int,
>, Ghost(len): Ghost<int>) -> (r: i64)
    requires
        shape::in_shape(old(idx)@, sh@),
        shape::ravel(old(idx)@, sh@) + 1 < shape::prod(sh@),
        within(sh@, strides@, base, len),
        !is_empty_shape(sh@),
        reach_fits(sh@, strides@, base),
        flat == base + shape::dot(old(idx)@, strides@),
    ensures
        final(idx)@ == succ(old(idx)@, sh@),
        r == base + shape::dot(final(idx)@, strides@),
{
    let n: usize = sh.len();
    let ghost start = idx@;
    let mut pos: i64 = flat;
    let mut d: usize = n;
    proof {
        assert(zero_from(start, n as int) =~= start);
    }
    while d > 0
        invariant
            d <= n,
            n == sh.len(),
            start == old(idx)@,
            shape::in_shape(start, sh@),
            shape::ravel(start, sh@) + 1 < shape::prod(sh@),
            within(sh@, strides@, base, len),
            !is_empty_shape(sh@),
            reach_fits(sh@, strides@, base),
            idx@ == zero_from(start, d as int),
            pos == base + shape::dot(idx@, strides@),
            forall|e: int| d <= e < n ==> #[trigger] start[e] + 1 >= sh@[e],
        decreases d,
    {
        d = d - 1;
        let ghost before = idx@;
        let i: usize = idx[d];
        proof {
            assert(start[d as int] < sh@[d as int]);
        }
        if i + 1 < sh[d] {
            proof {
                lemma_dot_update(before, strides@, d as int, (i + 1) as usize);
                let after = before.update(d as int, (i + 1) as usize);
                assert forall|e: int| 0 <= e < sh@.len() implies #[trigger] after[e] < sh@[e] by {
                    assert(start[e] < sh@[e]);
                }
                lemma_dot_extent(after, sh@, strides@);
                assert((i + 1 - i) * strides@[d as int] == strides@[d as int]) by (nonlinear_arith);
                lemma_succ_wrap(start, sh@, d + 1);
                assert(start.take(d + 1).drop_last() =~= start.take(d as int));
                assert(after =~= succ(start, sh@));
            }
            idx.set(d, i + 1);
            return pos + strides[d] as i64;
        }
        proof {
            lemma_dot_update(before, strides@, d as int, 0);
            let after = before.update(d as int, 0);
            assert forall|e: int| 0 <= e < sh@.len() implies #[trigger] after[e] < sh@[e] by {
                assert(start[e] < sh@[e]);
            }
            lemma_dot_extent(after, sh@, strides@);
            assert forall|e: int| 0 <= e < sh@.len() implies #[trigger] before[e] < sh@[e] by {
                assert(start[e] < sh@[e]);
            }
            lemma_dot_extent(before, sh@, strides@);
            assert((0 - i) * strides@[d as int] == -(i * strides@[d as int])) by (nonlinear_arith);
            assert(after =~= zero_from(start, d as int));
        }
        let back: i64 = step_back(i, strides[d], pos, Ghost(base + shape::dot(
            before.update(d as int, 0),
            strides@,
        )));
        idx.set(d, 0);
        pos = back;
    }
    proof {
        lemma_succ(start, sh@);
        lemma_succ_wrap(start, sh@, 0);
        assert(start.take(0) =~= Seq::<usize>::empty());
        assert(sh@.take(0) =~= Seq::<usize>::empty());
        assert(idx@ =~= succ(start, sh@));
    }
    pos
}

/// `pos - i * stride`.
fn step_back(i: usize, stride: isize, pos: i64, Ghost(target): Ghost<int>) -> (r: i64)
    requires
        target == pos - i * stride,
        0 <= target <= i64::MAX,
        0 <= pos,
    ensures
        r == target,
{
    if stride == 0 || i == 0 {
        proof {
            assert(i * stride == 0) by (nonlinear_arith)
                requires
                    stride == 0 || i == 0,
            ;
        }
        return pos;
    }
    proof {
        assert(i <= i * stride || i <= -(i * stride)) by (nonlinear_arith)
            requires
                stride != 0,
        ;
    }
    pos - (i as i64) * (stride as i64)
}

/// The storage positions of a view, in row-major order of its coordinates.
///
/// The strides may be zero or negative.
pub fn strided_offsets(sh: &[usize], strides: &[isize], base: i64, len: usize) -> (r: Vec<usize>)
    requires
        shape::prods_fit(sh@),
        within(sh@, strides@, base as int, len as int),
        reach_fits(sh@, strides@, base as int),
    ensures
        r@.len() == shape::prod(sh@),
        forall|k: int|
            0 <= k < r@.len() ==> #[trigger] r@[k] as int == offset_at(
                sh@,
                strides@,
                base as int,
                k,
            ),
        forall|k: int| 0 <= k < r@.len() ==> #[trigger] r@[k] < len,
{
    let n: usize = shape::numel(sh);
    let mut out: Vec<usize> = Vec::new();
    if n == 0 {
        return out;
    }
    let ndim: usize = sh.len();
    let mut idx: Vec<usize> = vec![0usize; ndim];
    let mut flat: i64 = base;
    let mut k: usize = 0;
    proof {
        lemma_within_offset(sh@, strides@, base as int, len as int, 0);
        lemma_zero_coordinate(idx@, sh@, strides@);
    }
    while k < n
        invariant
            k <= n,
            n == shape::prod(sh@),
            within(sh@, strides@, base as int, len as int),
            !is_empty_shape(sh@),
            reach_fits(sh@, strides@, base as int),
            out@.len() == k,
            k < n ==> idx@ == shape::unravel(k as int, sh@),
            k < n ==> flat == base + shape::dot(idx@, strides@),
            forall|j: int|
                0 <= j < k ==> #[trigger] out@[j] as int == offset_at(
                    sh@,
                    strides@,
                    base as int,
                    j,
                ),
            forall|j: int| 0 <= j < k ==> #[trigger] out@[j] < len,
        decreases n - k,
    {
        proof {
            lemma_within_offset(sh@, strides@, base as int, len as int, k as int);
            shape::lemma_unravel_ravel(k as int, sh@);
        }
        out.push(flat as usize);
        if k + 1 < n {
            flat = advance(&mut idx, sh, strides, flat, Ghost(base as int), Ghost(len as int));
            proof {
                lemma_succ(shape::unravel(k as int, sh@), sh@);
                shape::lemma_ravel_unravel(idx@, sh@);
            }
        }
        k = k + 1;
    }
    out
}

/// The first coordinate is zero throughout.
proof fn lemma_zero_coordinate(zeros: Seq<usize>, sh: Seq<usize>, strides: Seq<isize>)
    requires
        zeros.len() == sh.len(),
        sh.len() == strides.len(),
        forall|d: int| 0 <= d < zeros.len() ==> #[trigger] zeros[d] == 0,
        !is_empty_shape(sh),
    ensures
        zeros == shape::unravel(0, sh),
        shape::dot(zeros, strides) == 0,
    decreases sh.len(),
{
    if sh.len() > 0 {
        assert(sh[sh.len() - 1] != 0);
        let n = sh.last() as int;
        assert(0int / n == 0 && 0int % n == 0) by (nonlinear_arith)
            requires
                n > 0,
        ;
        assert(!is_empty_shape(sh.drop_last())) by {
            if is_empty_shape(sh.drop_last()) {
                let d = choose|d: int|
                    0 <= d < sh.drop_last().len() && sh.drop_last()[d] == 0;
                assert(sh[d] == 0);
            }
        }
        assert forall|d: int|
            0 <= d < zeros.drop_last().len() implies #[trigger] zeros.drop_last()[d] == 0 by {
            assert(zeros[d] == 0);
        }
        lemma_zero_coordinate(zeros.drop_last(), sh.drop_last(), strides.drop_last());
        assert(zeros[sh.len() - 1] == 0);
        assert(zeros =~= zeros.drop_last().push(0));
        assert(0 * strides.last() == 0);
    } else {
        assert(zeros =~= Seq::<usize>::empty());
    }
}

/// Whether some dimension has size zero.
pub fn has_empty_dim(sh: &[usize]) -> (r: bool)
    ensures
        r == is_empty_shape(sh@),
{
    let mut d: usize = 0;
    while d < sh.len()
        invariant
            d <= sh.len(),
            forall|e: int| 0 <= e < d ==> #[trigger] sh@[e] != 0,
        decreases sh.len() - d,
    {
        if sh[d] == 0 {
            return true;
        }
        d = d + 1;
    }
    false
}

/// `(size - 1) * stride`.
fn span_of(size: usize, stride: isize) -> (r: i64)
    requires
        size > 0,
        i64::MIN <= span(size, stride) <= i64::MAX,
    ensures
        r == span(size, stride),
{
    if stride == 0 || size == 1 {
        proof {
            assert((size - 1) * stride == 0) by (nonlinear_arith)
                requires
                    stride == 0 || size == 1,
            ;
        }
        return 0;
    }
    if stride == -1 && (size - 1) as u64 == 9223372036854775808u64 {
        proof {
            let n = size - 1;
            let s = stride as int;
            assert(n * s == -n) by (nonlinear_arith)
                requires
                    s == -1,
            ;
        }
        return i64::MIN;
    }
    proof {
        let n = size - 1;
        let s = stride as int;
        assert(n <= 0x7FFF_FFFF_FFFF_FFFF) by (nonlinear_arith)
            requires
                s != 0,
                n >= 0,
                -0x8000_0000_0000_0000 <= n * s <= 0x7FFF_FFFF_FFFF_FFFF,
                !(s == -1 && n == 0x8000_0000_0000_0000),
        ;
    }
    ((size - 1) as i64) * (stride as i64)
}

/// The lowest and the highest offset, relative to its base, that a view reaches;
/// both zero for a view with an empty dimension.
pub fn stride_extent(sh: &[usize], strides: &[isize]) -> (r: (i64, i64))
    requires
        sh@.len() == strides@.len(),
        is_empty_shape(sh@) || (i64::MIN <= low_extent(sh@, strides@) && high_extent(sh@, strides@)
            <= i64::MAX),
    ensures
        r == (if is_empty_shape(sh@) {
            (0i64, 0i64)
        } else {
            (low_extent(sh@, strides@) as i64, high_extent(sh@, strides@) as i64)
        }),
{
    if has_empty_dim(sh) {
        return (0, 0);
    }
    let mut lo: i64 = 0;
    let mut hi: i64 = 0;
    let mut d: usize = 0;
    while d < sh.len()
        invariant
            d <= sh.len(),
            sh@.len() == strides@.len(),
            !is_empty_shape(sh@),
            i64::MIN <= low_extent(sh@, strides@),
            high_extent(sh@, strides@) <= i64::MAX,
            lo == low_extent(sh@.take(d as int), strides@.take(d as int)),
            hi == high_extent(sh@.take(d as int), strides@.take(d as int)),
        decreases sh.len() - d,
    {
        proof {
            let s = sh@.take(d + 1);
            let t = strides@.take(d + 1);
            assert(s.drop_last() =~= sh@.take(d as int));
            assert(t.drop_last() =~= strides@.take(d as int));
            lemma_extent_prefix(sh@, strides@, d + 1);
            lemma_extent_signs(sh@.take(d as int), strides@.take(d as int));
            assert(sh@[d as int] != 0);
        }
        let last: i64 = span_of(sh[d], strides[d]);
        if last >= 0 {
            hi = hi + last;
        } else {
            lo = lo + last;
        }
        d = d + 1;
    }
    proof {
        assert(sh@.take(d as int) =~= sh@);
        assert(strides@.take(d as int) =~= strides@);
    }
    (lo, hi)
}

/// The lowest and the highest storage position that a view without an empty
/// dimension reaches.
pub fn reachable_span(sh: &[usize], strides: &[isize], offset: usize) -> (r: (i64, i64))
    requires
        sh@.len() == strides@.len(),
        !is_empty_shape(sh@),
        reach_fits(sh@, strides@, offset as int),
    ensures
        r.0 == offset + low_extent(sh@, strides@),
        r.1 == offset + high_extent(sh@, strides@),
{
    proof {
        lemma_extent_signs(sh@, strides@);
    }
    let (lo, hi): (i64, i64) = stride_extent(sh, strides);
    (offset as i64 + lo, offset as i64 + hi)
}

/// Why a view does not fit storage of `len` elements, if it does not.
pub open spec fn bounds_error(
    sh: Seq<usize>,
    strides: Seq<isize>,
    offset: usize,
    len: usize,
) -> Option<Reason> {
    if sh.len() != strides.len() {
        Some(Reason::StrideRank { shape: sh.len() as usize, stride: strides.len() as usize })
    } else if is_empty_shape(sh) {
        if offset > len {
            Some(Reason::OffsetBeyondStorage { offset, len })
        } else {
            None
        }
    } else if !reach_fits(sh, strides, offset as int) {
        Some(Reason::ReachOverflow { offset })
    } else {
        let lo = offset + low_extent(sh, strides);
        let hi = offset + high_extent(sh, strides);
        if lo < 0 {
            Some(Reason::NegativeReach { lo: lo as i64 })
        } else if hi >= len {
            Some(Reason::ReachBeyondStorage { hi: hi as i64, len })
        } else {
            None
        }
    }
}

/// The outcome of a check that found `error`.
pub open spec fn bounds_outcome(error: Option<Reason>) -> FerrotorchResult<()> {
    match error {
        None => Ok(()),
        Some(reason) => Err(FerrotorchError::InvalidArgument { reason }),
    }
}

/// Checks that every element of a view stands within storage of `storage_len`
/// elements. An empty view fits at any offset up to that length; a view whose
/// positions are not machine integers fits nowhere.
pub fn validate_bounds(
    sh: &[usize],
    strides: &[isize],
    storage_offset: usize,
    storage_len: usize,
) -> (r: FerrotorchResult<()>)
    ensures
        r == bounds_outcome(bounds_error(sh@, strides@, storage_offset, storage_len)),
        r is Ok ==> within(sh@, strides@, storage_offset as int, storage_len as int),
        r is Ok ==> reach_fits(sh@, strides@, storage_offset as int),
{
    if sh.len() != strides.len() {
        return Err(
            FerrotorchError::InvalidArgument {
                reason: Reason::StrideRank { shape: sh.len(), stride: strides.len() },
            },
        );
    }
    if has_empty_dim(sh) {
        if storage_offset > storage_len {
            return Err(
                FerrotorchError::InvalidArgument {
                    reason: Reason::OffsetBeyondStorage {
                        offset: storage_offset,
                        len: storage_len,
                    },
                },
            );
        }
        return Ok(());
    }
    if !fits_reach(sh, strides, storage_offset) {
        return Err(
            FerrotorchError::InvalidArgument {
                reason: Reason::ReachOverflow { offset: storage_offset },
            },
        );
    }
    let (lo, hi): (i64, i64) = reachable_span(sh, strides, storage_offset);
    proof {
        lemma_extent_signs(sh@, strides@);
    }
    if lo < 0 {
        return Err(FerrotorchError::InvalidArgument { reason: Reason::NegativeReach { lo } });
    }
    if hi as u64 >= storage_len as u64 {
        return Err(
            FerrotorchError::InvalidArgument {
                reason: Reason::ReachBeyondStorage { hi, len: storage_len },
            },
        );
    }
    Ok(())
}

/// How far the dimensions below `n` other than `d` reach together, those with a
/// larger stride than that of `d` left out.
pub open spec fn reach_below(sh: Seq<usize>, strides: Seq<isize>, d: int, n: int) -> int
    decreases n,
{
    if n <= 0 {
        0
    } else {
        reach_below(sh, strides, d, n - 1) + if n - 1 != d && sh[n - 1] > 1 && strides[n - 1]
            <= strides[d] {
            (sh[n - 1] - 1) * strides[n - 1]
        } else {
            0
        }
    }
}

/// Every dimension with more than one element has a positive stride that exceeds
/// what the dimensions of no larger stride reach together.
pub open spec fn strides_nest(sh: Seq<usize>, strides: Seq<isize>) -> bool {
    forall|d: int|
        #![trigger sh[d]]
        0 <= d < sh.len() && sh[d] > 1 ==> strides[d] > 0 && strides[d] > reach_below(
            sh,
            strides,
            d,
            sh.len() as int,
        )
}

/// Whether two elements of a view may stand at the same position. The answer
/// `false` is certain; a negative stride is always answered with `true`.
pub fn maybe_overlapping_memory(sh: &[usize], strides: &[isize]) -> (r: bool)
    requires
        sh@.len() == strides@.len(),
    ensures
        r == !strides_nest(sh@, strides@),
{
    let n: usize = sh.len();
    let mut d: usize = 0;
    while d < n
        invariant
            d <= n,
            n == sh@.len(),
            sh@.len() == strides@.len(),
            forall|e: int|
                #![trigger sh@[e]]
                0 <= e < d && sh@[e] > 1 ==> strides@[e] > 0,
        decreases n - d,
    {
        if sh[d] > 1 && strides[d] <= 0 {
            return true;
        }
        d = d + 1;
    }
    d = 0;
    while d < n
        invariant
            d <= n,
            n == sh@.len(),
            sh@.len() == strides@.len(),
            forall|e: int|
                #![trigger sh@[e]]
                0 <= e < n && sh@[e] > 1 ==> strides@[e] > 0,
            forall|e: int|
                #![trigger sh@[e]]
                0 <= e < d && sh@[e] > 1 ==> strides@[e] > reach_below(
                    sh@,
                    strides@,
                    e,
                    n as int,
                ),
        decreases n - d,
    {
        if sh[d] > 1 && reach_exceeds(sh, strides, d) {
            return true;
        }
        d = d + 1;
    }
    false
}

proof fn lemma_reach_below_monotone(sh: Seq<usize>, strides: Seq<isize>, d: int, m: int, n: int)
    requires
        0 <= m <= n <= sh.len(),
        sh.len() == strides.len(),
        forall|e: int| #![trigger sh[e]] 0 <= e < sh.len() && sh[e] > 1 ==> strides[e] > 0,
    ensures
        0 <= reach_below(sh, strides, d, m) <= reach_below(sh, strides, d, n),
    decreases n,
{
    if n > 0 {
        if sh[n - 1] > 1 {
            let a = sh[n - 1] - 1;
            let b = strides[n - 1] as int;
            assert(a * b >= 0) by (nonlinear_arith)
                requires
                    a >= 0,
                    b > 0,
            ;
        }
        if m < n {
            lemma_reach_below_monotone(sh, strides, d, m, n - 1);
        } else {
            lemma_reach_below_monotone(sh, strides, d, m - 1, n - 1);
        }
    }
}

/// Whether the stride of `d` does not exceed what the dimensions of no larger
/// stride reach together.
fn reach_exceeds(sh: &[usize], strides: &[isize], d: usize) -> (r: bool)
    requires
        sh@.len() == strides@.len(),
        d < sh@.len(),
        sh@[d as int] > 1,
        forall|e: int| #![trigger sh@[e]] 0 <= e < sh@.len() && sh@[e] > 1 ==> strides@[e] > 0,
    ensures
        r == (strides@[d as int] <= reach_below(sh@, strides@, d as int, sh@.len() as int)),
{
    let n: usize = sh.len();
    let limit: i128 = strides[d] as i128;
    let mut reach: i128 = 0;
    let mut e: usize = 0;
    while e < n
        invariant
            e <= n,
            n == sh@.len(),
            d < n,
            sh@.len() == strides@.len(),
            limit == strides@[d as int],
            reach == reach_below(sh@, strides@, d as int, e as int),
            0 <= reach < limit,
            forall|k: int| #![trigger sh@[k]] 0 <= k < n && sh@[k] > 1 ==> strides@[k] > 0,
        decreases n - e,
    {
        if e != d && sh[e] > 1 && strides[e] <= strides[d] {
            proof {
                let a = sh@[e as int] - 1;
                let b = strides@[e as int] as int;
                assert(0 <= a * b <= 0xFFFF_FFFF_FFFF_FFFE * 0x7FFF_FFFF_FFFF_FFFF)
                    by (nonlinear_arith)
                    requires
                        0 <= a <= 0xFFFF_FFFF_FFFF_FFFE,
                        0 < b <= 0x7FFF_FFFF_FFFF_FFFF,
                ;
            }
            reach = reach + (sh[e] - 1) as i128 * strides[e] as i128;
            if reach >= limit {
                proof {
                    lemma_reach_below_monotone(sh@, strides@, d as int, e + 1, n as int);
                }
                return true;
            }
        }
        e = e + 1;
    }
    false
}

/// A dimension in which two coordinates differ and whose stride no other such
/// dimension below `n` exceeds.
proof fn lemma_widest_difference(a: Seq<usize>, b: Seq<usize>, strides: Seq<isize>, n: int) -> (d:
    int)
    requires
        0 <= n <= a.len(),
        exists|e: int| 0 <= e < n && a[e] != b[e],
    ensures
        0 <= d < n,
        a[d] != b[d],
        forall|e: int| #![trigger a[e]] 0 <= e < n && a[e] != b[e] ==> strides[e] <= strides[d],
    decreases n,
{
    if exists|e: int| 0 <= e < n - 1 && a[e] != b[e] {
        let d = lemma_widest_difference(a, b, strides, n - 1);
        if a[n - 1] != b[n - 1] && strides[n - 1] > strides[d] {
            n - 1
        } else {
            d
        }
    } else {
        n - 1
    }
}

/// The difference of two offsets, without what dimension `d` adds, stays within
/// the reach of the other dimensions.
proof fn lemma_rest_bounded(
    a: Seq<usize>,
    b: Seq<usize>,
    sh: Seq<usize>,
    strides: Seq<isize>,
    d: int,
    n: int,
)
    requires
        shape::in_shape(a, sh),
        shape::in_shape(b, sh),
        sh.len() == strides.len(),
        0 <= d < sh.len(),
        0 <= n <= sh.len(),
        forall|e: int| #![trigger sh[e]] 0 <= e < sh.len() && sh[e] > 1 ==> strides[e] > 0,
        forall|e: int|
            #![trigger a[e]]
            0 <= e < sh.len() && a[e] != b[e] ==> strides[e] <= strides[d],
    ensures
        ({
            let diff = shape::dot(a.take(n), strides.take(n)) - shape::dot(
                b.take(n),
                strides.take(n),
            ) - if d < n {
                (a[d] - b[d]) * strides[d]
            } else {
                0
            };
            -reach_below(sh, strides, d, n) <= diff <= reach_below(sh, strides, d, n)
        }),
    decreases n,
{
    if n > 0 {
        lemma_rest_bounded(a, b, sh, strides, d, n - 1);
        let e = n - 1;
        assert(a.take(n).drop_last() =~= a.take(e));
        assert(b.take(n).drop_last() =~= b.take(e));
        assert(strides.take(n).drop_last() =~= strides.take(e));
        let s = strides[e] as int;
        let x = a[e] as int;
        let y = b[e] as int;
        assert(x * s - y * s == (x - y) * s) by (nonlinear_arith);
        assert(a[e] < sh[e] && b[e] < sh[e]);
        if e != d {
            if x == y {
                assert((x - y) * s == 0) by (nonlinear_arith)
                    requires
                        x == y,
                ;
                lemma_reach_below_monotone(sh, strides, d, e, n);
            } else {
                assert(sh[e] > 1);
                let m = sh[e] - 1;
                assert(-(m * s) <= (x - y) * s <= m * s) by (nonlinear_arith)
                    requires
                        -m <= x - y <= m,
                        s > 0,
                ;
            }
        }
    }
}

/// Where the overlap test answers `false`, different elements of the view stand
/// at different positions.
pub proof fn lemma_nested_strides_injective(
    a: Seq<usize>,
    b: Seq<usize>,
    sh: Seq<usize>,
    strides: Seq<isize>,
)
    requires
        shape::in_shape(a, sh),
        shape::in_shape(b, sh),
        sh.len() == strides.len(),
        strides_nest(sh, strides),
        shape::dot(a, strides) == shape::dot(b, strides),
    ensures
        a == b,
{
    if a != b {
        assert(exists|e: int| 0 <= e < sh.len() && a[e] != b[e]) by {
            if forall|e: int| 0 <= e < sh.len() ==> a[e] == b[e] {
                assert(a =~= b);
            }
        }
        let n = sh.len() as int;
        let d = lemma_widest_difference(a, b, strides, n);
        assert(a[d] < sh[d] && b[d] < sh[d]);
        assert(sh[d] > 1);
        lemma_rest_bounded(a, b, sh, strides, d, n);
        assert(a.take(n) =~= a);
        assert(b.take(n) =~= b);
        assert(strides.take(n) =~= strides);
        let x = a[d] - b[d];
        let s = strides[d] as int;
        assert(x * s >= s || x * s <= -s) by (nonlinear_arith)
            requires
                x != 0,
                s > 0,
        ;
    }
}

/// Where the overlap test answers `false`, the positions of a view are distinct.
pub proof fn lemma_nested_offsets_distinct(
    sh: Seq<usize>,
    strides: Seq<isize>,
    base: int,
    j: int,
    k: int,
)
    requires
        sh.len() == strides.len(),
        strides_nest(sh, strides),
        0 <= j < shape::prod(sh),
        0 <= k < shape::prod(sh),
        offset_at(sh, strides, base, j) == offset_at(sh, strides, base, k),
    ensures
        j == k,
{
    shape::lemma_unravel_ravel(j, sh);
    shape::lemma_unravel_ravel(k, sh);
    lemma_nested_strides_injective(shape::unravel(j, sh), shape::unravel(k, sh), sh, strides);
}

} // verus!
