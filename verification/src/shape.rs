//! Shapes, row-major positions and strides.
//!
//! A shape is a sequence of dimension sizes. The elements of a dense tensor
//! stand in row-major order: [`ravel`] takes a coordinate to its position and
//! [`unravel`] a position to its coordinate.

use vstd::arithmetic::div_mod::*;
use vstd::arithmetic::mul::*;
use vstd::prelude::*;

verus! {

/// The product of the sizes: the number of elements of a dense tensor of this shape.
pub open spec fn prod(shape: Seq<usize>) -> nat
    decreases shape.len(),
{
    if shape.len() == 0 {
        1
    } else {
        prod(shape.drop_last()) * shape.last() as nat
    }
}

/// The product of the sizes from dimension `d` on.
pub open spec fn suffix_prod(shape: Seq<usize>, d: int) -> nat {
    prod(shape.subrange(d, shape.len() as int))
}

/// `idx` is a coordinate of a tensor of this shape.
pub open spec fn in_shape(idx: Seq<usize>, shape: Seq<usize>) -> bool {
    &&& idx.len() == shape.len()
    &&& forall|d: int| 0 <= d < shape.len() ==> #[trigger] idx[d] < shape[d]
}

/// The row-major position of a coordinate.
pub open spec fn ravel(idx: Seq<usize>, shape: Seq<usize>) -> int
    decreases shape.len(),
{
    if shape.len() == 0 {
        0
    } else {
        ravel(idx.drop_last(), shape.drop_last()) * shape.last() + idx.last()
    }
}

/// The coordinate at a row-major position.
pub open spec fn unravel(k: int, shape: Seq<usize>) -> Seq<usize>
    decreases shape.len(),
{
    if shape.len() == 0 {
        Seq::empty()
    } else {
        unravel(k / shape.last() as int, shape.drop_last()).push(
            (k % shape.last() as int) as usize,
        )
    }
}

/// The offset that a coordinate has under given strides.
pub open spec fn dot(idx: Seq<usize>, strides: Seq<isize>) -> int
    decreases strides.len(),
{
    if strides.len() == 0 {
        0
    } else {
        dot(idx.drop_last(), strides.drop_last()) + idx.last() * strides.last()
    }
}

/// No product of leading sizes exceeds `usize`.
pub open spec fn prods_fit(shape: Seq<usize>) -> bool {
    forall|d: int| 0 <= d <= shape.len() ==> #[trigger] prod(shape.take(d)) <= usize::MAX
}

/// The element count and every stride of a dense tensor of this shape are
/// machine integers.
pub open spec fn shape_fits(shape: Seq<usize>) -> bool {
    &&& prods_fit(shape)
    &&& forall|d: int|
        0 <= d <= shape.len() ==> #[trigger] suffix_prod(shape, d) <= isize::MAX
}

/// The strides place the elements one behind the other in row-major order. The
/// stride of a dimension of size one does not matter, nor do the strides in front
/// of an empty dimension.
pub open spec fn contiguous_layout(shape: Seq<usize>, strides: Seq<isize>) -> bool {
    forall|d: int|
        #![trigger strides[d]]
        0 <= d < shape.len() && suffix_prod(shape, d) > 0 && shape[d] != 1 ==> strides[d] as int
            == suffix_prod(shape, d + 1)
}

/// The row-major strides of a shape.
pub open spec fn is_contiguous_strides(strides: Seq<isize>, shape: Seq<usize>) -> bool {
    &&& strides.len() == shape.len()
    &&& forall|d: int|
        0 <= d < shape.len() ==> #[trigger] strides[d] as int == suffix_prod(shape, d + 1)
}

pub proof fn lemma_prod_cons(s: Seq<usize>)
    requires
        s.len() > 0,
    ensures
        prod(s) == s[0] as nat * prod(s.subrange(1, s.len() as int)),
    decreases s.len(),
{
    let rest = s.subrange(1, s.len() as int);
    if s.len() == 1 {
        assert(s.drop_last() =~= Seq::<usize>::empty());
        assert(prod(s.drop_last()) == 1);
        assert(rest =~= Seq::<usize>::empty());
        assert(prod(rest) == 1);
        assert(prod(s) == 1 * s.last() as nat);
    } else {
        lemma_prod_cons(s.drop_last());
        assert(s.drop_last().subrange(1, s.len() - 1) =~= rest.drop_last());
        assert(rest.last() == s.last());
        lemma_mul_is_associative(
            s[0] as int,
            prod(rest.drop_last()) as int,
            s.last() as int,
        );
    }
}

pub proof fn lemma_prod_split(s: Seq<usize>, k: int)
    requires
        0 <= k <= s.len(),
    ensures
        prod(s) == prod(s.take(k)) * suffix_prod(s, k),
    decreases s.len() - k,
{
    if k == s.len() {
        assert(s.take(k) =~= s);
        assert(s.subrange(k, k) =~= Seq::<usize>::empty());
        assert(suffix_prod(s, k) == 1);
        assert(prod(s) * 1 == prod(s));
    } else {
        lemma_prod_split(s, k + 1);
        assert(s.take(k + 1).drop_last() =~= s.take(k));
        let suffix = s.subrange(k, s.len() as int);
        lemma_prod_cons(suffix);
        assert(suffix.subrange(1, suffix.len() as int) =~= s.subrange(k + 1, s.len() as int));
        lemma_mul_is_associative(
            prod(s.take(k)) as int,
            s[k] as int,
            suffix_prod(s, k + 1) as int,
        );
    }
}

/// One step of a product that runs from the last dimension to the first.
pub proof fn lemma_suffix_prod_step(s: Seq<usize>, d: int)
    requires
        0 <= d < s.len(),
    ensures
        suffix_prod(s, d) == s[d] as nat * suffix_prod(s, d + 1),
        suffix_prod(s, s.len() as int) == 1,
{
    let suffix = s.subrange(d, s.len() as int);
    lemma_prod_cons(suffix);
    assert(suffix.subrange(1, suffix.len() as int) =~= s.subrange(d + 1, s.len() as int));
    assert(s.subrange(s.len() as int, s.len() as int) =~= Seq::<usize>::empty());
}

pub proof fn lemma_prod_zero(s: Seq<usize>, d: int)
    requires
        0 <= d < s.len(),
        s[d] == 0,
    ensures
        prod(s) == 0,
    decreases s.len(),
{
    if d < s.len() - 1 {
        assert(s.drop_last()[d] == 0);
        lemma_prod_zero(s.drop_last(), d);
        assert(0 * s.last() == 0);
    } else {
        assert(prod(s.drop_last()) * 0 == 0);
    }
}

pub proof fn lemma_prod_positive(s: Seq<usize>)
    requires
        forall|d: int| 0 <= d < s.len() ==> #[trigger] s[d] > 0,
    ensures
        prod(s) > 0,
    decreases s.len(),
{
    if s.len() > 0 {
        let front = s.drop_last();
        assert forall|d: int| 0 <= d < front.len() implies #[trigger] front[d] > 0 by {
            assert(front[d] == s[d]);
        }
        lemma_prod_positive(front);
        assert(prod(front) * s.last() as nat > 0) by (nonlinear_arith)
            requires
                prod(front) > 0,
                s.last() > 0,
        ;
    }
}

/// Where the sizes are positive, no part of a product exceeds the whole.
pub proof fn lemma_suffix_prod_bound(s: Seq<usize>, d: int)
    requires
        0 <= d <= s.len(),
        forall|e: int| 0 <= e < s.len() ==> #[trigger] s[e] > 0,
    ensures
        0 < suffix_prod(s, d) <= prod(s),
        0 < prod(s.take(d)) <= prod(s),
{
    lemma_prod_split(s, d);
    lemma_prod_positive(s.take(d));
    lemma_prod_positive(s.subrange(d, s.len() as int));
    let a = prod(s.take(d));
    let b = suffix_prod(s, d);
    assert(b <= a * b && a <= a * b) by (nonlinear_arith)
        requires
            a > 0,
            b > 0,
    ;
}

/// A coordinate of the shape exists only where every size is positive.
pub proof fn lemma_in_shape_positive(idx: Seq<usize>, shape: Seq<usize>)
    requires
        in_shape(idx, shape),
    ensures
        forall|d: int| 0 <= d < shape.len() ==> #[trigger] shape[d] > 0,
{
    assert forall|d: int| 0 <= d < shape.len() implies #[trigger] shape[d] > 0 by {
        assert(idx[d] < shape[d]);
    }
}

/// The position of a coordinate lies within the tensor.
pub proof fn lemma_ravel_bound(idx: Seq<usize>, shape: Seq<usize>)
    requires
        in_shape(idx, shape),
    ensures
        0 <= ravel(idx, shape) < prod(shape),
    decreases shape.len(),
{
    if shape.len() > 0 {
        let i = idx.drop_last();
        let s = shape.drop_last();
        assert forall|d: int| 0 <= d < s.len() implies #[trigger] i[d] < s[d] by {
            assert(idx[d] < shape[d]);
        }
        lemma_ravel_bound(i, s);
        let r = ravel(i, s);
        let p = prod(s) as int;
        let n = shape.last() as int;
        let x = idx.last() as int;
        assert(x < n) by {
            assert(idx[shape.len() - 1] < shape[shape.len() - 1]);
        }
        assert(0 <= r * n + x < p * n) by (nonlinear_arith)
            requires
                0 <= r < p,
                0 <= x < n,
        ;
    }
}

/// A position within the tensor has a coordinate, and it is the only one with
/// that position.
pub proof fn lemma_unravel_ravel(k: int, shape: Seq<usize>)
    requires
        0 <= k < prod(shape),
    ensures
        in_shape(unravel(k, shape), shape),
        ravel(unravel(k, shape), shape) == k,
    decreases shape.len(),
{
    if shape.len() > 0 {
        let s = shape.drop_last();
        let n = shape.last() as int;
        let p = prod(s) as int;
        assert(n > 0) by {
            if n == 0 {
                assert(prod(s) * 0 == 0);
            }
        }
        lemma_fundamental_div_mod(k, n);
        assert(0 <= k / n < p) by (nonlinear_arith)
            requires
                0 <= k < p * n,
                n > 0,
        ;
        assert(0 <= k % n < n) by (nonlinear_arith)
            requires
                n > 0,
        ;
        lemma_unravel_ravel(k / n, s);
        let u = unravel(k, shape);
        let v = unravel(k / n, s);
        assert(u.drop_last() =~= v);
        assert forall|d: int| 0 <= d < shape.len() implies #[trigger] u[d] < shape[d] by {
            if d < s.len() {
                assert(u[d] == v[d]);
                assert(s[d] == shape[d]);
            }
        }
        lemma_mul_is_commutative(k / n, n);
    }
}

/// Distinct coordinates have distinct positions.
pub proof fn lemma_ravel_unravel(idx: Seq<usize>, shape: Seq<usize>)
    requires
        in_shape(idx, shape),
    ensures
        unravel(ravel(idx, shape), shape) == idx,
    decreases shape.len(),
{
    if shape.len() > 0 {
        let i = idx.drop_last();
        let s = shape.drop_last();
        assert forall|d: int| 0 <= d < s.len() implies #[trigger] i[d] < s[d] by {
            assert(idx[d] < shape[d]);
        }
        lemma_ravel_unravel(i, s);
        let n = shape.last() as int;
        let x = idx.last() as int;
        assert(x < n) by {
            assert(idx[shape.len() - 1] < shape[shape.len() - 1]);
        }
        lemma_fundamental_div_mod_converse(ravel(idx, shape), n, ravel(i, s), x);
        assert(i.push(idx.last()) =~= idx);
    } else {
        assert(idx =~= Seq::<usize>::empty());
    }
}

/// Under row-major strides the offset of a coordinate is its position. The stride
/// of a dimension of size one does not matter.
pub proof fn lemma_dot_contiguous(idx: Seq<usize>, shape: Seq<usize>, strides: Seq<isize>)
    requires
        in_shape(idx, shape),
        strides.len() == shape.len(),
        forall|d: int|
            0 <= d < shape.len() ==> #[trigger] strides[d] as int == suffix_prod(shape, d + 1)
                || shape[d] == 1,
    ensures
        dot(idx, strides) == ravel(idx, shape),
{
    assert forall|d: int| 0 <= d < shape.len() implies #[trigger] strides[d] as int == suffix_prod(
        shape,
        d + 1,
    ) * 1 || shape[d] == 1 by {
        assert(suffix_prod(shape, d + 1) * 1 == suffix_prod(shape, d + 1));
    }
    lemma_dot_scaled(idx, shape, strides, 1);
    assert(ravel(idx, shape) * 1 == ravel(idx, shape));
}

/// Strides that are a multiple of the row-major ones scale the position.
proof fn lemma_dot_scaled(idx: Seq<usize>, shape: Seq<usize>, strides: Seq<isize>, m: int)
    requires
        in_shape(idx, shape),
        strides.len() == shape.len(),
        forall|d: int|
            0 <= d < shape.len() ==> #[trigger] strides[d] as int == suffix_prod(shape, d + 1) * m
                || shape[d] == 1,
    ensures
        dot(idx, strides) == ravel(idx, shape) * m,
    decreases shape.len(),
{
    if shape.len() > 0 {
        let n = shape.last() as int;
        let i = idx.drop_last();
        let s = shape.drop_last();
        let t = strides.drop_last();
        assert forall|d: int| 0 <= d < s.len() implies #[trigger] t[d] as int == suffix_prod(
            s,
            d + 1,
        ) * (n * m) || s[d] == 1 by {
            assert(t[d] == strides[d]);
            let whole = shape.subrange(d + 1, shape.len() as int);
            assert(whole.drop_last() =~= s.subrange(d + 1, s.len() as int));
            assert(whole.last() == shape.last());
            lemma_mul_is_associative(suffix_prod(s, d + 1) as int, n, m);
        }
        assert forall|d: int| 0 <= d < s.len() implies #[trigger] i[d] < s[d] by {
            assert(idx[d] < shape[d]);
        }
        lemma_dot_scaled(i, s, t, n * m);
        let r = ravel(i, s);
        let x = idx.last() as int;
        assert(x * strides.last() == x * m) by {
            assert(idx[shape.len() - 1] < shape[shape.len() - 1]);
            if n == 1 {
                assert(0 * strides.last() == 0 && 0 * m == 0);
            } else {
                assert(strides[shape.len() - 1] as int == suffix_prod(shape, shape.len() as int)
                    * m);
                assert(shape.subrange(shape.len() as int, shape.len() as int) =~= Seq::<
                    usize,
                >::empty());
                assert(1 * m == m);
            }
        }
        assert(r * (n * m) + x * m == (r * n + x) * m) by (nonlinear_arith);
    }
}

/// A product in which a size is zero is zero.
pub proof fn lemma_suffix_prod_zero(s: Seq<usize>, d: int, e: int)
    requires
        0 <= d <= e < s.len(),
        s[e] == 0,
    ensures
        suffix_prod(s, d) == 0,
{
    assert(s.subrange(d, s.len() as int)[e - d] == 0);
    lemma_prod_zero(s.subrange(d, s.len() as int), e - d);
}

/// Contiguous strides place the element at position `k` at offset `k`.
pub proof fn lemma_contiguous_offset(shape: Seq<usize>, strides: Seq<isize>, k: int)
    requires
        strides.len() == shape.len(),
        contiguous_layout(shape, strides),
        0 <= k < prod(shape),
    ensures
        dot(unravel(k, shape), strides) == k,
{
    let idx = unravel(k, shape);
    lemma_unravel_ravel(k, shape);
    lemma_in_shape_positive(idx, shape);
    assert forall|d: int| 0 <= d < shape.len() implies #[trigger] strides[d] as int == suffix_prod(
        shape,
        d + 1,
    ) || shape[d] == 1 by {
        lemma_suffix_prod_bound(shape, d);
    }
    lemma_dot_contiguous(idx, shape, strides);
}

/// The row-major strides are contiguous.
pub proof fn lemma_row_major_contiguous(shape: Seq<usize>, strides: Seq<isize>)
    requires
        is_contiguous_strides(strides, shape),
    ensures
        contiguous_layout(shape, strides),
{
    assert forall|d: int|
        #![trigger strides[d]]
        0 <= d < shape.len() && suffix_prod(shape, d) > 0 && shape[d] != 1 implies strides[d] as int
        == suffix_prod(shape, d + 1) by {}
}

/// Whether the strides place the elements one behind the other in row-major order.
pub fn is_contiguous_layout(shape: &[usize], strides: &[isize]) -> (r: bool)
    requires
        shape@.len() == strides@.len(),
        shape_fits(shape@),
    ensures
        r == contiguous_layout(shape@, strides@),
{
    let n: usize = shape.len();
    let mut expected: isize = 1;
    let mut d: usize = n;
    proof {
        assert(shape@.subrange(n as int, n as int) =~= Seq::<usize>::empty());
    }
    while d > 0
        invariant
            d <= n,
            n == shape@.len(),
            shape@.len() == strides@.len(),
            shape_fits(shape@),
            expected == suffix_prod(shape@, d as int),
            expected > 0,
            forall|e: int|
                #![trigger strides@[e]]
                d <= e < n && shape@[e] != 1 ==> strides@[e] as int == suffix_prod(shape@, e + 1),
        decreases d,
    {
        d = d - 1;
        if shape[d] == 0 {
            proof {
                assert forall|e: int|
                    #![trigger strides@[e]]
                    0 <= e < n && suffix_prod(shape@, e) > 0 && shape@[e] != 1 implies strides@[e]
                    as int == suffix_prod(shape@, e + 1) by {
                    if e <= d {
                        lemma_suffix_prod_zero(shape@, e, d as int);
                    }
                }
            }
            return true;
        }
        proof {
            lemma_suffix_prod_step(shape@, d as int);
            let a = shape@[d as int] as int;
            let b = expected as int;
            assert(a * b > 0) by (nonlinear_arith)
                requires
                    a > 0,
                    b > 0,
            ;
            assert(suffix_prod(shape@, d as int) <= isize::MAX);
        }
        if shape[d] != 1 {
            if strides[d] != expected {
                return false;
            }
            expected = stride_step(shape[d], expected);
        } else {
            proof {
                assert(1 * expected == expected);
            }
        }
    }
    true
}

/// The strides of a four-dimensional tensor whose channels stand next to each
/// other: batch, rows and columns in front of the channels.
pub open spec fn channels_last_spec(s: Seq<usize>) -> Seq<int> {
    seq![s[2] * (s[3] * s[1]), 1, s[3] * s[1], s[1] as int]
}

/// The strides of a five-dimensional tensor whose channels stand next to each
/// other: batch, planes, rows and columns in front of the channels.
pub open spec fn channels_last_3d_spec(s: Seq<usize>) -> Seq<int> {
    seq![s[2] * (s[3] * (s[4] * s[1])), 1, s[3] * (s[4] * s[1]), s[4] * s[1], s[1] as int]
}

/// `strides` are these numbers.
pub open spec fn strides_are(strides: Seq<isize>, expected: Seq<int>) -> bool {
    &&& strides.len() == expected.len()
    &&& forall|d: int| 0 <= d < strides.len() ==> #[trigger] strides[d] == expected[d]
}

/// The strides of [`channels_last_spec`].
pub fn channels_last_strides(shape: &[usize]) -> (r: Vec<isize>)
    requires
        shape@.len() == 4,
        forall|d: int|
            0 <= d < 4 ==> #[trigger] channels_last_spec(shape@)[d] <= isize::MAX,
    ensures
        strides_are(r@, channels_last_spec(shape@)),
{
    proof {
        assert(channels_last_spec(shape@)[0] <= isize::MAX);
        assert(channels_last_spec(shape@)[2] <= isize::MAX);
        assert(channels_last_spec(shape@)[3] <= isize::MAX);
        lemma_mul_nonnegative(shape@[3] as int, shape@[1] as int);
    }
    let c: isize = shape[1] as isize;
    let wc: isize = stride_step(shape[3], c);
    let hwc: isize = stride_step(shape[2], wc);
    let mut r: Vec<isize> = Vec::new();
    r.push(hwc);
    r.push(1);
    r.push(wc);
    r.push(c);
    r
}

/// The strides of [`channels_last_3d_spec`].
pub fn channels_last_3d_strides(shape: &[usize]) -> (r: Vec<isize>)
    requires
        shape@.len() == 5,
        forall|d: int|
            0 <= d < 5 ==> #[trigger] channels_last_3d_spec(shape@)[d] <= isize::MAX,
    ensures
        strides_are(r@, channels_last_3d_spec(shape@)),
{
    proof {
        assert(channels_last_3d_spec(shape@)[0] <= isize::MAX);
        assert(channels_last_3d_spec(shape@)[2] <= isize::MAX);
        assert(channels_last_3d_spec(shape@)[3] <= isize::MAX);
        assert(channels_last_3d_spec(shape@)[4] <= isize::MAX);
        lemma_mul_nonnegative(shape@[4] as int, shape@[1] as int);
        lemma_mul_nonnegative(shape@[3] as int, shape@[4] * shape@[1]);
    }
    let c: isize = shape[1] as isize;
    let wc: isize = stride_step(shape[4], c);
    let hwc: isize = stride_step(shape[3], wc);
    let dhwc: isize = stride_step(shape[2], hwc);
    let mut r: Vec<isize> = Vec::new();
    r.push(dhwc);
    r.push(1);
    r.push(hwc);
    r.push(wc);
    r.push(c);
    r
}

proof fn lemma_mul_nonnegative(a: int, b: int)
    requires
        a >= 0,
        b >= 0,
    ensures
        a * b >= 0,
{
    assert(a * b >= 0) by (nonlinear_arith)
        requires
            a >= 0,
            b >= 0,
    ;
}

/// The number of elements of a tensor of this shape.
pub fn numel(shape: &[usize]) -> (r: usize)
    requires
        prods_fit(shape@),
    ensures
        r == prod(shape@),
{
    let mut n: usize = 1;
    let mut d: usize = 0;
    while d < shape.len()
        invariant
            d <= shape.len(),
            prods_fit(shape@),
            n == prod(shape@.take(d as int)),
        decreases shape.len() - d,
    {
        proof {
            assert(shape@.take(d + 1).drop_last() =~= shape@.take(d as int));
            assert(prod(shape@.take(d + 1)) <= usize::MAX);
        }
        n = n * shape[d];
        d = d + 1;
    }
    proof {
        assert(shape@.take(d as int) =~= shape@);
    }
    n
}

/// The row-major strides of a shape: each stride is the product of the sizes
/// behind it.
pub fn c_contiguous_strides(shape: &[usize]) -> (r: Vec<isize>)
    requires
        forall|d: int|
            1 <= d <= shape@.len() ==> #[trigger] suffix_prod(shape@, d) <= isize::MAX,
    ensures
        is_contiguous_strides(r@, shape@),
{
    let n: usize = shape.len();
    let mut strides: Vec<isize> = vec![1isize; n];
    let mut d: usize = n;
    let mut acc: isize = 1;
    proof {
        assert(shape@.subrange(n as int, n as int) =~= Seq::<usize>::empty());
        assert(suffix_prod(shape@, n as int) == 1);
    }
    while d > 0
        invariant
            n == shape.len(),
            strides.len() == n,
            d <= n,
            acc as int == suffix_prod(shape@, d as int) || d == 0,
            forall|e: int|
                1 <= e <= shape@.len() ==> #[trigger] suffix_prod(shape@, e) <= isize::MAX,
            forall|e: int|
                d <= e < n ==> #[trigger] strides@[e] as int == suffix_prod(shape@, e + 1),
        decreases d,
    {
        d = d - 1;
        strides.set(d, acc);
        if d > 0 {
            proof {
                lemma_suffix_prod_step(shape@, d as int);
                lemma_mul_is_commutative(shape@[d as int] as int, acc as int);
                let s = shape@[d as int] as int;
                if acc > 0 {
                    assert(s <= s * acc) by (nonlinear_arith)
                        requires
                            s >= 0,
                            acc > 0,
                    ;
                }
            }
            acc = stride_step(shape[d], acc);
        }
    }
    strides
}

/// `size * stride`, where a zero stride stays zero whatever the size.
fn stride_step(size: usize, stride: isize) -> (r: isize)
    requires
        0 <= stride,
        size * stride <= isize::MAX,
    ensures
        r == size * stride,
{
    if stride == 0 {
        proof {
            assert(size * stride == 0) by (nonlinear_arith)
                requires
                    stride == 0,
            ;
        }
        return 0;
    }
    proof {
        assert(size <= size * stride) by (nonlinear_arith)
            requires
                stride > 0,
        ;
        assert(0 <= size * stride) by (nonlinear_arith)
            requires
                stride >= 0,
        ;
    }
    (size as isize) * stride
}

} // verus!
