//! Stretching to a common shape, stated by coordinates counted from the right: which
//! element is taken where, and which sums bring a gradient back.

use crate::broadcast::{
    aligned_size, common_rank, common_shape, lemma_source_position, reduced, source_position,
    sources, stretchable, stretches_to, total,
};
use crate::dtype::Float;
use crate::scatter::{
    cell_sum, lemma_cell_sum_once, lemma_cell_sum_twice, lemma_cell_sum_untouched,
};
use crate::shape;
use vstd::prelude::*;

verus! {

/// The size of the `j`-th axis from the right, one where there are not so many.
pub open spec fn size_from_right(sh: Seq<usize>, j: int) -> usize {
    if j < sh.len() {
        sh[sh.len() - 1 - j]
    } else {
        1
    }
}

/// Two shapes stretch to a common one exactly where, counted from the right, every two
/// sizes are equal or one of them is one.
pub proof fn lemma_stretchable_sizes(a: Seq<usize>, b: Seq<usize>)
    ensures
        stretchable(a, b) <==> forall|j: int|
            0 <= j ==> {
                ||| #[trigger] size_from_right(a, j) == size_from_right(b, j)
                ||| size_from_right(a, j) == 1
                ||| size_from_right(b, j) == 1
            },
{
    let rank = common_rank(a, b) as int;
    if stretchable(a, b) {
        assert forall|j: int| 0 <= j implies {
            ||| #[trigger] size_from_right(a, j) == size_from_right(b, j)
            ||| size_from_right(a, j) == 1
            ||| size_from_right(b, j) == 1
        } by {
            if j < rank {
                let d = rank - 1 - j;
                assert(aligned_size(a, rank, d) == size_from_right(a, j));
                assert(aligned_size(b, rank, d) == size_from_right(b, j));
            }
        }
    }
    if forall|j: int|
        0 <= j ==> {
            ||| #[trigger] size_from_right(a, j) == size_from_right(b, j)
            ||| size_from_right(a, j) == 1
            ||| size_from_right(b, j) == 1
        } {
        assert forall|d: int| #![trigger aligned_size(a, rank, d)] 0 <= d < rank implies {
            ||| aligned_size(a, rank, d) == aligned_size(b, rank, d)
            ||| aligned_size(a, rank, d) == 1
            ||| aligned_size(b, rank, d) == 1
        } by {
            let j = rank - 1 - d;
            assert(aligned_size(a, rank, d) == size_from_right(a, j));
            assert(aligned_size(b, rank, d) == size_from_right(b, j));
        }
    }
}

/// The common shape has the larger rank, and counted from the right the size of the one
/// shape where that of the other is one.
pub proof fn lemma_common_sizes(a: Seq<usize>, b: Seq<usize>, j: int)
    requires
        0 <= j < common_shape(a, b).len(),
    ensures
        common_shape(a, b).len() >= a.len(),
        common_shape(a, b).len() >= b.len(),
        common_shape(a, b).len() == a.len() || common_shape(a, b).len() == b.len(),
        size_from_right(a, j) == 1 ==> size_from_right(common_shape(a, b), j) == size_from_right(
            b,
            j,
        ),
        size_from_right(a, j) != 1 ==> size_from_right(common_shape(a, b), j) == size_from_right(
            a,
            j,
        ),
{
    let rank = common_rank(a, b) as int;
    let d = rank - 1 - j;
    assert(aligned_size(a, rank, d) == size_from_right(a, j));
    assert(aligned_size(b, rank, d) == size_from_right(b, j));
}

/// The coordinate in an operand of shape `sh` of a coordinate of the common shape: the
/// last of it, with zero in the axes of size one.
pub open spec fn own_coordinate(idx: Seq<usize>, sh: Seq<usize>) -> Seq<usize> {
    Seq::new(
        sh.len(),
        |d: int|
            if sh[d] == 1 {
                0usize
            } else {
                idx[idx.len() - sh.len() + d]
            },
    )
}

/// The element of an operand that is taken at a coordinate of the common shape is the one
/// at the last of that coordinate, with zero in the axes of size one.
pub proof fn lemma_source_of_coordinate(idx: Seq<usize>, out: Seq<usize>, sh: Seq<usize>)
    requires
        stretches_to(sh, out),
        shape::in_shape(idx, out),
    ensures
        source_position(shape::ravel(idx, out), out, sh) == shape::ravel(
            own_coordinate(idx, sh),
            sh,
        ),
        shape::in_shape(own_coordinate(idx, sh), sh),
    decreases sh.len(),
{
    let own = own_coordinate(idx, sh);
    if sh.len() > 0 {
        let n = out.last() as int;
        let front = out.drop_last();
        let head = shape::ravel(idx.drop_last(), front);
        assert(idx[out.len() - 1] < out[out.len() - 1]);
        vstd::arithmetic::div_mod::lemma_fundamental_div_mod_converse(
            shape::ravel(idx, out),
            n,
            head,
            idx.last() as int,
        );
        assert(shape::in_shape(idx.drop_last(), front)) by {
            assert forall|d: int| 0 <= d < front.len() implies #[trigger] idx.drop_last()[d]
                < front[d] by {
                assert(idx[d] < out[d]);
            }
        }
        assert(stretches_to(sh.drop_last(), front)) by {
            assert forall|d: int|
                #![trigger front[d]]
                0 <= d < front.len() implies aligned_size(sh.drop_last(), front.len() as int, d)
                == 1 || aligned_size(sh.drop_last(), front.len() as int, d) == front[d] by {
                assert(out[d] == front[d]);
                assert(aligned_size(sh.drop_last(), front.len() as int, d) == aligned_size(
                    sh,
                    out.len() as int,
                    d,
                ));
            }
        }
        lemma_source_of_coordinate(idx.drop_last(), front, sh.drop_last());
        assert(own.drop_last() =~= own_coordinate(idx.drop_last(), sh.drop_last()));
        let last = sh.len() - 1;
        assert(out[out.len() - 1] == out.last());
        assert(aligned_size(sh, out.len() as int, out.len() - 1) == sh.last());
        if sh.last() == 1 {
            assert(own.last() == 0);
            let h = shape::ravel(own.drop_last(), sh.drop_last());
            assert(h * 1 + 0 == h);
        } else {
            assert(own.last() == idx.last());
        }
        assert forall|d: int| 0 <= d < sh.len() implies #[trigger] own[d] < sh[d] by {
            if d < last {
                assert(own.drop_last()[d] < sh.drop_last()[d]);
            }
        }
    }
}

/// Where one position of the common shape is taken from an element, the gradient of the
/// element is zero plus the gradient there; where two are, zero plus the first plus the
/// second; where none is, zero.
pub proof fn lemma_reduced_element<T: Float>(
    grad: Seq<T>,
    out: Seq<usize>,
    sh: Seq<usize>,
    p: int,
)
    requires
        stretches_to(sh, out),
        out != sh,
        shape::prod(sh) <= usize::MAX,
        grad.len() == shape::prod(out),
        0 <= p < shape::prod(sh),
    ensures
        (forall|k: int|
            0 <= k < grad.len() ==> #[trigger] source_position(k, out, sh) != p) ==> reduced(
            grad,
            out,
            sh,
        )[p] == T::zero_spec(),
        forall|a: int|
            #![trigger grad[a]]
            0 <= a < grad.len() && source_position(a, out, sh) == p && (forall|k: int|
                0 <= k < grad.len() && k != a ==> #[trigger] source_position(k, out, sh) != p)
                ==> reduced(grad, out, sh)[p] == T::zero_spec().plus(grad[a]),
        forall|a: int, b: int|
            #![trigger grad[a], grad[b]]
            0 <= a < b < grad.len() && source_position(a, out, sh) == p && source_position(
                b,
                out,
                sh,
            ) == p && (forall|k: int|
                0 <= k < grad.len() && k != a && k != b ==> #[trigger] source_position(k, out, sh)
                    != p) ==> reduced(grad, out, sh)[p] == T::zero_spec().plus(grad[a]).plus(
                grad[b],
            ),
{
    let at = sources(out, sh);
    let n = grad.len() as int;
    assert forall|k: int| 0 <= k < n implies #[trigger] at[k] == source_position(k, out, sh) by {
        lemma_source_position(k, out, sh);
    }
    if forall|k: int| 0 <= k < grad.len() ==> #[trigger] source_position(k, out, sh) != p {
        lemma_cell_sum_untouched(T::zero_spec(), at, grad, n, p);
    }
    assert forall|a: int|
        #![trigger grad[a]]
        0 <= a < grad.len() && source_position(a, out, sh) == p && (forall|k: int|
            0 <= k < grad.len() && k != a ==> #[trigger] source_position(k, out, sh) != p)
            implies reduced(grad, out, sh)[p] == T::zero_spec().plus(grad[a]) by {
        assert(at[a] == p);
        lemma_cell_sum_once(T::zero_spec(), at, grad, n, a);
    }
    assert forall|a: int, b: int|
        #![trigger grad[a], grad[b]]
        0 <= a < b < grad.len() && source_position(a, out, sh) == p && source_position(b, out, sh)
            == p && (forall|k: int|
            0 <= k < grad.len() && k != a && k != b ==> #[trigger] source_position(k, out, sh)
                != p) implies reduced(grad, out, sh)[p] == T::zero_spec().plus(grad[a]).plus(
        grad[b],
    ) by {
        assert(at[a] == p && at[b] == p);
        lemma_cell_sum_twice(T::zero_spec(), at, grad, n, a, b);
    }
}

/// A gradient of the operand's own shape is the gradient of the operand.
pub proof fn lemma_reduced_same_shape<T: Float>(grad: Seq<T>, sh: Seq<usize>)
    ensures
        reduced(grad, sh, sh) == grad,
{
}

/// An operand that is repeated along a new first axis is taken modulo its size.
pub proof fn lemma_source_repeated(k: int, m: usize, sh: Seq<usize>)
    requires
        0 <= k < m * shape::prod(sh),
    ensures
        source_position(k, seq![m] + sh, sh) == k % (shape::prod(sh) as int),
    decreases sh.len(),
{
    let out = seq![m] + sh;
    let whole = shape::prod(sh) as int;
    if sh.len() == 0 {
        assert(whole == 1);
    } else {
        let n = sh.last() as int;
        let rest = shape::prod(sh.drop_last()) as int;
        assert(out.last() == n);
        assert(out.drop_last() =~= seq![m] + sh.drop_last());
        assert(whole == rest * n);
        assert(n > 0 && rest > 0) by (nonlinear_arith)
            requires
                0 <= k < m * whole,
                whole == rest * n,
                0 <= n,
                0 <= rest,
        ;
        assert(0 <= k / n < m * rest) by (nonlinear_arith)
            requires
                0 <= k < m * (rest * n),
                n > 0,
        ;
        lemma_source_repeated(k / n, m, sh.drop_last());
        vstd::arithmetic::div_mod::lemma_mod_breakdown(k, n, rest);
        assert(n * rest == rest * n) by (nonlinear_arith);
        assert(n * ((k / n) % rest) == ((k / n) % rest) * n) by (nonlinear_arith);
        if n == 1 {
            assert(k / 1 == k);
            assert(((k / n) % rest) * 1 == (k / n) % rest);
            assert(k % 1 == 0);
        }
    }
}

proof fn lemma_repeated_sum<T: Float>(
    init: T,
    at: Seq<usize>,
    grad: Seq<T>,
    n: int,
    whole: int,
    m: int,
    p: int,
)
    requires
        0 <= p < whole,
        0 <= m,
        0 <= n <= whole,
        m * whole + n <= at.len(),
        forall|k: int| 0 <= k < at.len() ==> #[trigger] at[k] == k % whole,
    ensures
        cell_sum(init, at, grad, m * whole + n, p) == if n > p {
            cell_sum(init, at, grad, m * whole, p).plus(grad[m * whole + p])
        } else {
            cell_sum(init, at, grad, m * whole, p)
        },
    decreases n,
{
    if n > 0 {
        lemma_repeated_sum(init, at, grad, n - 1, whole, m, p);
        let k = m * whole + (n - 1);
        assert(0 <= m * whole) by (nonlinear_arith)
            requires
                0 <= m,
                0 < whole,
        ;
        vstd::arithmetic::div_mod::lemma_fundamental_div_mod_converse(k, whole, m, n - 1);
        assert(at[k] == n - 1);
    }
}

proof fn lemma_sum_agrees<T: Float>(
    init: T,
    at: Seq<usize>,
    grad: Seq<T>,
    at2: Seq<usize>,
    grad2: Seq<T>,
    n: int,
    p: int,
)
    requires
        forall|k: int| 0 <= k < n ==> #[trigger] at[k] == at2[k],
        forall|k: int| 0 <= k < n ==> #[trigger] grad[k] == grad2[k],
    ensures
        cell_sum(init, at, grad, n, p) == cell_sum(init, at2, grad2, n, p),
    decreases n,
{
    if n > 0 {
        lemma_sum_agrees(init, at, grad, at2, grad2, n - 1, p);
        assert(at[n - 1] == at2[n - 1]);
        assert(grad[n - 1] == grad2[n - 1]);
    }
}

/// The gradient of an operand that is repeated along a new first axis: one repetition
/// more adds the gradient there to every element; with no repetition it is zero.
pub proof fn lemma_reduced_repeated<T: Float>(
    grad: Seq<T>,
    more: Seq<T>,
    m: usize,
    sh: Seq<usize>,
    p: int,
)
    requires
        m < usize::MAX,
        shape::prod(sh) <= usize::MAX,
        grad.len() == m * shape::prod(sh),
        more.len() == shape::prod(sh),
        0 <= p < shape::prod(sh),
    ensures
        reduced(grad + more, seq![(m + 1) as usize] + sh, sh)[p] == reduced(
            grad,
            seq![m] + sh,
            sh,
        )[p].plus(more[p]),
        m == 0 ==> reduced(grad, seq![m] + sh, sh)[p] == T::zero_spec(),
{
    let whole = shape::prod(sh) as int;
    let out = seq![m] + sh;
    let m2 = (m + 1) as usize;
    let out2 = seq![m2] + sh;
    let at = sources(out, sh);
    let at2 = sources(out2, sh);
    let grad2 = grad + more;
    lemma_prod_repeated(m, sh);
    lemma_prod_repeated(m2, sh);
    assert(m2 * whole == m * whole + whole) by (nonlinear_arith)
        requires
            m2 == m + 1,
    ;
    assert(out.len() != sh.len() && out2.len() != sh.len());
    assert forall|k: int| 0 <= k < at.len() implies #[trigger] at[k] == k % whole by {
        lemma_source_repeated(k, m, sh);
        assert(0 <= k % whole < whole);
    }
    assert forall|k: int| 0 <= k < at2.len() implies #[trigger] at2[k] == k % whole by {
        lemma_source_repeated(k, m2, sh);
        assert(0 <= k % whole < whole);
    }
    lemma_repeated_sum(T::zero_spec(), at2, grad2, whole, whole, m as int, p);
    lemma_sum_agrees(T::zero_spec(), at, grad, at2, grad2, m * whole, p);
    if m == 0 {
        assert(0 * whole == 0);
    }
}

proof fn lemma_prod_repeated(m: usize, sh: Seq<usize>)
    ensures
        shape::prod(seq![m] + sh) == m * shape::prod(sh),
{
    let out = seq![m] + sh;
    shape::lemma_prod_cons(out);
    assert(out.subrange(1, out.len() as int) =~= sh);
}

/// The gradient of an operand with one element goes on, gradient by gradient, from zero.
pub proof fn lemma_total_appended<T: Float>(grad: Seq<T>, g: T)
    ensures
        total(grad.push(g), grad.len() as int + 1) == total(grad, grad.len() as int).plus(g),
        total(Seq::<T>::empty(), 0) == T::zero_spec(),
{
    lemma_total_longer(grad, g, grad.len() as int);
}

proof fn lemma_total_longer<T: Float>(grad: Seq<T>, g: T, n: int)
    requires
        0 <= n <= grad.len(),
    ensures
        total(grad.push(g), n) == total(grad, n),
    decreases n,
{
    if n > 0 {
        lemma_total_longer(grad, g, n - 1);
    }
}

/// The gradient of a column that is repeated in every column of a matrix: in every row
/// the sum of the gradients of the row, in order, from zero.
pub proof fn lemma_reduced_column<T: Float>(grad: Seq<T>, m: usize, n: usize, i: int)
    requires
        n != 1,
        m * n <= usize::MAX,
        grad.len() == m * n,
        0 <= i < m,
    ensures
        reduced(grad, seq![m, n], seq![m, 1usize])[i] == total(
            grad.subrange(i * n, i * n + n),
            n as int,
        ),
{
    let out = seq![m, n];
    let sh = seq![m, 1usize];
    let at = sources(out, sh);
    crate::sparse_tensor::lemma_matrix_prod(m, n);
    crate::sparse_tensor::lemma_matrix_prod(m, 1);
    assert(m * 1 == m);
    assert(out[1] != sh[1]);
    assert forall|k: int| 0 <= k < m * n implies #[trigger] at[k] == k / (n as int) by {
        reveal_with_fuel(source_position, 3);
        assert(n > 0) by (nonlinear_arith)
            requires
                0 <= k < m * n,
                0 <= m,
                0 <= n,
        ;
        let q = k / (n as int);
        assert(0 <= q < m) by (nonlinear_arith)
            requires
                0 <= k < m * n,
                q == k / (n as int),
                n > 0,
        ;
        assert(out.drop_last() =~= seq![m]);
        assert(sh.drop_last() =~= seq![m]);
        assert(seq![m].drop_last() =~= Seq::<usize>::empty());
        vstd::arithmetic::div_mod::lemma_fundamental_div_mod_converse(q, m as int, 0, q);
        assert(0 * m == 0);
        if m == 1 {
            assert(q == 0);
        }
    }
    assert(0 <= i * n && i * n + n <= m * n) by (nonlinear_arith)
        requires
            0 <= i < m,
            0 <= n,
    ;
    lemma_row_before(grad, at, m as int, n as int, i, i * n);
    lemma_row_total(grad, at, m as int, n as int, i, n as int);
    lemma_row_behind(grad, at, m as int, n as int, i, m * n);
}

proof fn lemma_row_before<T: Float>(
    grad: Seq<T>,
    at: Seq<usize>,
    m: int,
    n: int,
    i: int,
    k: int,
)
    requires
        0 <= i < m,
        0 <= k <= i * n <= m * n,
        forall|q: int| 0 <= q < m * n ==> #[trigger] at[q] == q / n,
        0 <= n,
    ensures
        cell_sum(T::zero_spec(), at, grad, k, i) == T::zero_spec(),
    decreases k,
{
    if k > 0 {
        lemma_row_before(grad, at, m, n, i, k - 1);
        let q = k - 1;
        assert(q / n < i) by (nonlinear_arith)
            requires
                0 <= q < i * n,
                0 <= n,
                0 <= i,
        ;
        assert(at[q] == q / n);
    }
}

proof fn lemma_row_total<T: Float>(
    grad: Seq<T>,
    at: Seq<usize>,
    m: int,
    n: int,
    i: int,
    j: int,
)
    requires
        0 <= i < m,
        0 <= j <= n,
        grad.len() == m * n,
        0 <= i * n,
        i * n + n <= m * n,
        forall|q: int| 0 <= q < m * n ==> #[trigger] at[q] == q / n,
        cell_sum(T::zero_spec(), at, grad, i * n, i) == T::zero_spec(),
    ensures
        cell_sum(T::zero_spec(), at, grad, i * n + j, i) == total(
            grad.subrange(i * n, i * n + n),
            j,
        ),
    decreases j,
{
    if j > 0 {
        lemma_row_total(grad, at, m, n, i, j - 1);
        let q = i * n + (j - 1);
        vstd::arithmetic::div_mod::lemma_fundamental_div_mod_converse(q, n, i, j - 1);
        assert(at[q] == q / n);
    }
}

proof fn lemma_row_behind<T: Float>(
    grad: Seq<T>,
    at: Seq<usize>,
    m: int,
    n: int,
    i: int,
    k: int,
)
    requires
        0 <= i < m,
        0 <= n,
        i * n + n <= k <= m * n,
        forall|q: int| 0 <= q < m * n ==> #[trigger] at[q] == q / n,
    ensures
        cell_sum(T::zero_spec(), at, grad, k, i) == cell_sum(
            T::zero_spec(),
            at,
            grad,
            i * n + n,
            i,
        ),
    decreases k - i * n,
{
    if k > i * n + n {
        lemma_row_behind(grad, at, m, n, i, k - 1);
        let q = k - 1;
        assert(q / n > i && 0 <= q < m * n) by (nonlinear_arith)
            requires
                i * n + n <= q < m * n,
                0 <= n,
                0 <= i,
        ;
        assert(at[q] == q / n);
    }
}

} // verus!
