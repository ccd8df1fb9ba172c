//! Elementwise application, with operands stretched to a common shape.

use crate::dtype::Float;
use crate::error::{FerrotorchError, FerrotorchResult, Reason};
use crate::scatter::{cell_sum, copied, filled, scatter_add};
use crate::shape;
use crate::stride_tricks::same_shape;
use vstd::prelude::*;

verus! {

/// The larger of two ranks.
pub open spec fn common_rank(a: Seq<usize>, b: Seq<usize>) -> nat {
    if a.len() >= b.len() {
        a.len()
    } else {
        b.len()
    }
}

/// The size of dimension `d` of a shape that is aligned at its last dimension with one
/// of rank `rank`: one where it has no such dimension.
pub open spec fn aligned_size(sh: Seq<usize>, rank: int, d: int) -> usize {
    if d < rank - sh.len() {
        1
    } else {
        sh[d - (rank - sh.len())]
    }
}

/// The shapes can be stretched to a common one: aligned sizes are equal, or one of
/// them is one.
pub open spec fn stretchable(a: Seq<usize>, b: Seq<usize>) -> bool {
    let rank = common_rank(a, b) as int;
    forall|d: int|
        #![trigger aligned_size(a, rank, d)]
        0 <= d < rank ==> {
            ||| aligned_size(a, rank, d) == aligned_size(b, rank, d)
            ||| aligned_size(a, rank, d) == 1
            ||| aligned_size(b, rank, d) == 1
        }
}

/// The common shape: of two aligned sizes the one that is not one.
pub open spec fn common_shape(a: Seq<usize>, b: Seq<usize>) -> Seq<usize> {
    let rank = common_rank(a, b) as int;
    Seq::new(
        rank as nat,
        |d: int|
            if aligned_size(a, rank, d) == 1 {
                aligned_size(b, rank, d)
            } else {
                aligned_size(a, rank, d)
            },
    )
}

/// `sh` can be stretched to `out`.
pub open spec fn stretches_to(sh: Seq<usize>, out: Seq<usize>) -> bool {
    &&& sh.len() <= out.len()
    &&& forall|d: int|
        #![trigger out[d]]
        0 <= d < out.len() ==> aligned_size(sh, out.len() as int, d) == 1 || aligned_size(
            sh,
            out.len() as int,
            d,
        ) == out[d]
}

/// The row-major position in an operand of shape `sh` of the element that stands at
/// position `k` of the common shape `out`: a dimension of size one has the same element
/// everywhere.
pub open spec fn source_position(k: int, out: Seq<usize>, sh: Seq<usize>) -> int
    decreases sh.len(),
{
    if sh.len() == 0 {
        0
    } else {
        let head = source_position(k / out.last() as int, out.drop_last(), sh.drop_last());
        if sh.last() == 1 {
            head
        } else {
            head * sh.last() + k % out.last() as int
        }
    }
}

/// Both shapes stretch to their common shape.
pub proof fn lemma_common_shape(a: Seq<usize>, b: Seq<usize>)
    requires
        stretchable(a, b),
    ensures
        stretches_to(a, common_shape(a, b)),
        stretches_to(b, common_shape(a, b)),
{
    let rank = common_rank(a, b) as int;
    let out = common_shape(a, b);
    assert forall|d: int|
        #![trigger out[d]]
        0 <= d < out.len() implies aligned_size(b, rank, d) == 1 || aligned_size(b, rank, d)
        == out[d] by {
        assert(aligned_size(a, rank, d) == aligned_size(a, rank, d));
    }
}

/// The common shape does not depend on the order of the operands.
pub proof fn lemma_common_shape_symmetric(a: Seq<usize>, b: Seq<usize>)
    ensures
        stretchable(a, b) <==> stretchable(b, a),
        stretchable(a, b) ==> common_shape(a, b) == common_shape(b, a),
{
    let rank = common_rank(a, b) as int;
    assert(common_rank(b, a) == rank);
    if stretchable(a, b) {
        assert forall|d: int| #![trigger aligned_size(b, rank, d)] 0 <= d < rank implies {
            ||| aligned_size(b, rank, d) == aligned_size(a, rank, d)
            ||| aligned_size(b, rank, d) == 1
            ||| aligned_size(a, rank, d) == 1
        } by {
            assert(aligned_size(a, rank, d) == aligned_size(a, rank, d));
        }
        assert forall|d: int| 0 <= d < rank implies common_shape(a, b)[d] == common_shape(
            b,
            a,
        )[d] by {
            assert(aligned_size(a, rank, d) == aligned_size(a, rank, d));
        }
        assert(common_shape(a, b) =~= common_shape(b, a));
    }
    if stretchable(b, a) {
        assert forall|d: int| #![trigger aligned_size(a, rank, d)] 0 <= d < rank implies {
            ||| aligned_size(a, rank, d) == aligned_size(b, rank, d)
            ||| aligned_size(a, rank, d) == 1
            ||| aligned_size(b, rank, d) == 1
        } by {
            assert(aligned_size(b, rank, d) == aligned_size(b, rank, d));
        }
    }
}

/// A position of the common shape has its element within the operand.
pub proof fn lemma_source_position(k: int, out: Seq<usize>, sh: Seq<usize>)
    requires
        stretches_to(sh, out),
        0 <= k < shape::prod(out),
    ensures
        0 <= source_position(k, out, sh) < shape::prod(sh),
    decreases sh.len(),
{
    if sh.len() > 0 {
        let n = out.last() as int;
        let rank = out.len() as int;
        let rest = shape::prod(out.drop_last()) as int;
        assert(shape::prod(out) == rest * n);
        assert(n > 0) by (nonlinear_arith)
            requires
                0 <= k < rest * n,
                0 <= n,
        ;
        assert(0 <= k / n < rest && 0 <= k % n < n) by (nonlinear_arith)
            requires
                0 <= k < rest * n,
                n > 0,
        ;
        lemma_stretches_front(sh, out);
        lemma_source_position(k / n, out.drop_last(), sh.drop_last());
        let head = source_position(k / n, out.drop_last(), sh.drop_last());
        let front = shape::prod(sh.drop_last()) as int;
        let last = sh.last() as int;
        assert(out[rank - 1] == out.last());
        assert(aligned_size(sh, rank, rank - 1) == sh.last());
        if last == 1 {
            assert(front * 1 == front);
        } else {
            let c = k % n;
            assert(0 <= head * last + c < front * last) by (nonlinear_arith)
                requires
                    0 <= head < front,
                    0 <= c < last,
            ;
        }
    }
}

proof fn lemma_stretches_front(sh: Seq<usize>, out: Seq<usize>)
    requires
        stretches_to(sh, out),
        sh.len() > 0,
    ensures
        stretches_to(sh.drop_last(), out.drop_last()),
{
    let s = sh.drop_last();
    let o = out.drop_last();
    assert forall|d: int| #![trigger o[d]] 0 <= d < o.len() implies aligned_size(
        s,
        o.len() as int,
        d,
    ) == 1 || aligned_size(s, o.len() as int, d) == o[d] by {
        assert(out[d] == o[d]);
    }
}

/// An operand of the common shape is taken element by element.
pub proof fn lemma_source_same_shape(k: int, sh: Seq<usize>)
    requires
        0 <= k < shape::prod(sh),
    ensures
        source_position(k, sh, sh) == k,
    decreases sh.len(),
{
    if sh.len() > 0 {
        let n = sh.last() as int;
        let rest = shape::prod(sh.drop_last()) as int;
        assert(shape::prod(sh) == rest * n);
        assert(n > 0) by (nonlinear_arith)
            requires
                0 <= k < rest * n,
                0 <= n,
        ;
        assert(0 <= k / n < rest && k == (k / n) * n + k % n) by (nonlinear_arith)
            requires
                0 <= k < rest * n,
                n > 0,
        ;
        lemma_source_same_shape(k / n, sh.drop_last());
        if n == 1 {
            assert(k / 1 == k);
        }
    } else {
        assert(shape::prod(sh) == 1);
    }
}

/// An operand with one element is taken everywhere.
pub proof fn lemma_source_scalar(k: int, out: Seq<usize>)
    ensures
        source_position(k, out, Seq::empty()) == 0,
{
}

fn aligned(sh: &[usize], rank: usize, d: usize) -> (r: usize)
    requires
        sh@.len() <= rank,
        d < rank,
    ensures
        r == aligned_size(sh@, rank as int, d as int),
{
    let missing: usize = rank - sh.len();
    if d < missing {
        1
    } else {
        sh[d - missing]
    }
}

/// The common shape of two shapes.
pub fn broadcast_shapes(a: &[usize], b: &[usize]) -> (r: FerrotorchResult<Vec<usize>>)
    ensures
        match r {
            Ok(sh) => stretchable(a@, b@) && sh@ == common_shape(a@, b@),
            Err(e) => !stretchable(a@, b@) && e == (FerrotorchError::ShapeMismatch {
                reason: Reason::ShapesDiffer,
            }),
        },
{
    let rank: usize = if a.len() >= b.len() {
        a.len()
    } else {
        b.len()
    };
    let mut out: Vec<usize> = Vec::new();
    let mut d: usize = 0;
    while d < rank
        invariant
            d <= rank,
            rank == common_rank(a@, b@),
            out@.len() == d,
            forall|i: int|
                0 <= i < d ==> #[trigger] out@[i] == (if aligned_size(a@, rank as int, i) == 1 {
                    aligned_size(b@, rank as int, i)
                } else {
                    aligned_size(a@, rank as int, i)
                }),
            forall|i: int|
                #![trigger aligned_size(a@, rank as int, i)]
                0 <= i < d ==> {
                    ||| aligned_size(a@, rank as int, i) == aligned_size(b@, rank as int, i)
                    ||| aligned_size(a@, rank as int, i) == 1
                    ||| aligned_size(b@, rank as int, i) == 1
                },
        decreases rank - d,
    {
        let x: usize = aligned(a, rank, d);
        let y: usize = aligned(b, rank, d);
        if x == 1 {
            out.push(y);
        } else if y == 1 || x == y {
            out.push(x);
        } else {
            return Err(FerrotorchError::ShapeMismatch { reason: Reason::ShapesDiffer });
        }
        d = d + 1;
    }
    proof {
        assert(out@ =~= common_shape(a@, b@));
    }
    Ok(out)
}

/// The position in an operand, by the last `s` of its dimensions that are left and the
/// `r` dimensions of the common shape that are left.
fn source_at(k: usize, out: &[usize], r: usize, sh: &[usize], s: usize) -> (p: usize)
    requires
        r <= out@.len(),
        s <= sh@.len(),
        stretches_to(sh@.take(s as int), out@.take(r as int)),
        k < shape::prod(out@.take(r as int)),
        shape::prods_fit(sh@),
    ensures
        p == source_position(k as int, out@.take(r as int), sh@.take(s as int)),
    decreases s,
{
    if s == 0 {
        return 0;
    }
    let ghost o = out@.take(r as int);
    let ghost t = sh@.take(s as int);
    proof {
        assert(o.last() == out@[r - 1] && t.last() == sh@[s - 1]);
        assert(o.drop_last() =~= out@.take(r - 1));
        assert(t.drop_last() =~= sh@.take(s - 1));
        lemma_stretches_front(t, o);
        lemma_source_position(k as int, o, t);
        let n = o.last() as int;
        let rest = shape::prod(o.drop_last()) as int;
        assert(shape::prod(o) == rest * n);
        assert(n > 0) by (nonlinear_arith)
            requires
                0 <= k < rest * n,
                0 <= n,
        ;
        assert(k as int / n < rest) by (nonlinear_arith)
            requires
                0 <= k < rest * n,
                n > 0,
        ;
        assert(shape::prod(sh@.take(s as int)) <= usize::MAX);
    }
    let n: usize = out[r - 1];
    let head: usize = source_at(k / n, out, r - 1, sh, s - 1);
    if sh[s - 1] == 1 {
        head
    } else {
        proof {
            assert(0 <= head * sh@[s - 1]) by (nonlinear_arith);
        }
        head * sh[s - 1] + k % n
    }
}

/// Applies a function of two arguments to every pair of elements of the common shape.
pub fn binary_map<T: Float, F: Fn(T, T) -> T>(
    a: &[T],
    a_shape: &[usize],
    b: &[T],
    b_shape: &[usize],
    f: F,
) -> (r: FerrotorchResult<(Vec<T>, Vec<usize>)>)
    requires
        shape::prods_fit(a_shape@),
        shape::prods_fit(b_shape@),
        a@.len() == shape::prod(a_shape@),
        b@.len() == shape::prod(b_shape@),
        stretchable(a_shape@, b_shape@) ==> shape::prods_fit(common_shape(a_shape@, b_shape@)),
        forall|x: T, y: T| call_requires(f, (x, y)),
    ensures
        match r {
            Ok((v, sh)) => {
                &&& stretchable(a_shape@, b_shape@)
                &&& sh@ == common_shape(a_shape@, b_shape@)
                &&& v@.len() == shape::prod(sh@)
                &&& forall|k: int|
                    0 <= k < v@.len() ==> call_ensures(
                        f,
                        (
                            a@[source_position(k, sh@, a_shape@)],
                            b@[source_position(k, sh@, b_shape@)],
                        ),
                        #[trigger] v@[k],
                    )
            },
            Err(e) => !stretchable(a_shape@, b_shape@) && e == (FerrotorchError::ShapeMismatch {
                reason: Reason::ShapesDiffer,
            }),
        },
{
    let sh: Vec<usize> = broadcast_shapes(a_shape, b_shape)?;
    proof {
        lemma_common_shape(a_shape@, b_shape@);
        assert(sh@.take(sh@.len() as int) =~= sh@);
        assert(a_shape@.take(a_shape@.len() as int) =~= a_shape@);
        assert(b_shape@.take(b_shape@.len() as int) =~= b_shape@);
    }
    let n: usize = shape::numel(sh.as_slice());
    let mut out: Vec<T> = Vec::new();
    let mut k: usize = 0;
    while k < n
        invariant
            k <= n,
            n == shape::prod(sh@),
            shape::prods_fit(a_shape@),
            shape::prods_fit(b_shape@),
            a@.len() == shape::prod(a_shape@),
            b@.len() == shape::prod(b_shape@),
            stretches_to(a_shape@, sh@),
            stretches_to(b_shape@, sh@),
            sh@.take(sh@.len() as int) == sh@,
            a_shape@.take(a_shape@.len() as int) == a_shape@,
            b_shape@.take(b_shape@.len() as int) == b_shape@,
            forall|x: T, y: T| call_requires(f, (x, y)),
            out@.len() == k,
            forall|i: int|
                0 <= i < k ==> call_ensures(
                    f,
                    (
                        a@[source_position(i, sh@, a_shape@)],
                        b@[source_position(i, sh@, b_shape@)],
                    ),
                    #[trigger] out@[i],
                ),
        decreases n - k,
    {
        let p: usize = source_at(k, sh.as_slice(), sh.len(), a_shape, a_shape.len());
        let q: usize = source_at(k, sh.as_slice(), sh.len(), b_shape, b_shape.len());
        proof {
            lemma_source_position(k as int, sh@, a_shape@);
            lemma_source_position(k as int, sh@, b_shape@);
        }
        out.push(f(a[p], b[q]));
        k = k + 1;
    }
    Ok((out, sh))
}

/// For every position of the common shape `out`, the position in an operand of shape
/// `sh` that it is taken from.
pub open spec fn sources(out: Seq<usize>, sh: Seq<usize>) -> Seq<usize> {
    Seq::new(shape::prod(out), |k: int| source_position(k, out, sh) as usize)
}

/// A gradient of the common shape brought back to the shape of an operand: every
/// element of the operand gets the sum over the positions that are taken from it.
pub open spec fn reduced<T: Float>(grad: Seq<T>, out: Seq<usize>, sh: Seq<usize>) -> Seq<T> {
    if out == sh {
        grad
    } else {
        Seq::new(
            shape::prod(sh),
            |p: int| cell_sum(T::zero_spec(), sources(out, sh), grad, grad.len() as int, p),
        )
    }
}

/// Every element of the common shape is counted at the element that it is taken from,
/// and there alone: the sums bring back one gradient per element of the operand, and
/// of an operand with one element the sum of all of them.
pub proof fn lemma_reduced<T: Float>(grad: Seq<T>, out: Seq<usize>, sh: Seq<usize>)
    requires
        stretches_to(sh, out),
        shape::prod(sh) <= usize::MAX,
        grad.len() == shape::prod(out),
    ensures
        reduced(grad, out, sh).len() == shape::prod(sh),
        forall|k: int| 0 <= k < grad.len() ==> #[trigger] sources(out, sh)[k] < shape::prod(sh),
        sh.len() == 0 && out.len() > 0 ==> reduced(grad, out, sh) == seq![
            total(grad, grad.len() as int),
        ],
{
    assert forall|k: int| 0 <= k < grad.len() implies #[trigger] sources(out, sh)[k]
        < shape::prod(sh) by {
        lemma_source_position(k, out, sh);
    }
    if sh.len() == 0 && out.len() > 0 {
        assert(shape::prod(sh) == 1);
        lemma_total(grad, sources(out, sh), grad.len() as int);
        assert(reduced(grad, out, sh) =~= seq![total(grad, grad.len() as int)]);
    }
}

/// Zero plus the first `n` elements, in order.
pub open spec fn total<T: Float>(grad: Seq<T>, n: int) -> T
    decreases n,
{
    if n <= 0 {
        T::zero_spec()
    } else {
        total(grad, n - 1).plus(grad[n - 1])
    }
}

proof fn lemma_total<T: Float>(grad: Seq<T>, at: Seq<usize>, n: int)
    requires
        n <= at.len(),
        forall|k: int| 0 <= k < n ==> #[trigger] at[k] == 0,
    ensures
        cell_sum(T::zero_spec(), at, grad, n, 0) == total(grad, n),
    decreases n,
{
    if n > 0 {
        assert(at[n - 1] == 0);
        lemma_total(grad, at, n - 1);
    }
}

/// The position in an operand for every position of the common shape.
pub fn source_positions(out: &[usize], sh: &[usize]) -> (r: Vec<usize>)
    requires
        stretches_to(sh@, out@),
        shape::prods_fit(out@),
        shape::prods_fit(sh@),
    ensures
        r@ == sources(out@, sh@),
        forall|k: int| 0 <= k < r@.len() ==> #[trigger] r@[k] < shape::prod(sh@),
        forall|k: int|
            0 <= k < r@.len() ==> #[trigger] r@[k] == source_position(k, out@, sh@),
{
    let n: usize = shape::numel(out);
    let mut at: Vec<usize> = Vec::new();
    let mut k: usize = 0;
    proof {
        assert(out@.take(out@.len() as int) =~= out@);
        assert(sh@.take(sh@.len() as int) =~= sh@);
    }
    while k < n
        invariant
            k <= n,
            n == shape::prod(out@),
            stretches_to(sh@, out@),
            shape::prods_fit(sh@),
            out@.take(out@.len() as int) == out@,
            sh@.take(sh@.len() as int) == sh@,
            at@.len() == k,
            forall|i: int| 0 <= i < k ==> #[trigger] at@[i] < shape::prod(sh@),
            forall|i: int| 0 <= i < k ==> #[trigger] at@[i] == source_position(i, out@, sh@),
        decreases n - k,
    {
        proof {
            lemma_source_position(k as int, out@, sh@);
        }
        at.push(source_at(k, out, out.len(), sh, sh.len()));
        k = k + 1;
    }
    proof {
        assert(at@ =~= sources(out@, sh@));
    }
    at
}

/// Brings a gradient of the common shape back to the shape of an operand.
pub fn reduce_grad_to_shape<T: Float>(grad: &[T], out: &[usize], sh: &[usize]) -> (r: Vec<T>)
    requires
        stretches_to(sh@, out@),
        shape::prods_fit(out@),
        shape::prods_fit(sh@),
        grad@.len() == shape::prod(out@),
    ensures
        r@ == reduced(grad@, out@, sh@),
        r@.len() == shape::prod(sh@),
{
    if same_shape(out, sh) {
        return copied(grad);
    }
    let at: Vec<usize> = source_positions(out, sh);
    let n: usize = shape::numel(sh);
    let mut sums: Vec<T> = filled(T::zero(), n);
    scatter_add(&mut sums, at.as_slice(), grad);
    proof {
        assert(sums@ =~= reduced(grad@, out@, sh@));
    }
    sums
}

/// Applies a function to every element.
pub fn elementwise_native<T: Float, F: Fn(T) -> T>(data: &[T], f: F) -> (r: Vec<T>)
    requires
        forall|x: T| call_requires(f, (x,)),
    ensures
        r@.len() == data@.len(),
        forall|i: int| 0 <= i < data@.len() ==> call_ensures(f, (data@[i],), #[trigger] r@[i]),
{
    let mut out: Vec<T> = Vec::new();
    let mut i: usize = 0;
    while i < data.len()
        invariant
            i <= data@.len(),
            forall|x: T| call_requires(f, (x,)),
            out@.len() == i,
            forall|j: int| 0 <= j < i ==> call_ensures(f, (data@[j],), #[trigger] out@[j]),
        decreases data.len() - i,
    {
        out.push(f(data[i]));
        i = i + 1;
    }
    out
}

} // verus!
