//! Lists of entries, each a key and a value, and how they are merged.
//!
//! A key is a coordinate. Keys are ordered lexicographically. Merging a list sums
//! the values of equal keys in the order in which they stand, from zero on.

use crate::dtype::{is_zero, is_zero_spec, Float};
use crate::scatter::copied;
use vstd::prelude::*;

verus! {

/// How two keys compare.
#[derive(Clone, Copy, Debug, PartialEq, Eq, Structural)]
pub enum KeyOrder {
    Before,
    Same,
    Behind,
}

/// The comparison of two keys from entry `d` on.
pub open spec fn key_order_from(a: Seq<usize>, b: Seq<usize>, d: int) -> KeyOrder
    decreases a.len() - d,
{
    if d >= a.len() {
        if a.len() < b.len() {
            KeyOrder::Before
        } else {
            KeyOrder::Same
        }
    } else if d >= b.len() {
        KeyOrder::Behind
    } else if a[d] < b[d] {
        KeyOrder::Before
    } else if b[d] < a[d] {
        KeyOrder::Behind
    } else {
        key_order_from(a, b, d + 1)
    }
}

/// The lexicographic comparison of two keys.
pub open spec fn key_order(a: Seq<usize>, b: Seq<usize>) -> KeyOrder {
    key_order_from(a, b, 0)
}

/// Key `a` comes before key `b`.
pub open spec fn key_before(a: Seq<usize>, b: Seq<usize>) -> bool {
    key_order(a, b) == KeyOrder::Before
}

proof fn lemma_order_flip_from(a: Seq<usize>, b: Seq<usize>, d: int)
    requires
        0 <= d,
        d <= a.len(),
        d <= b.len(),
        forall|i: int| 0 <= i < d ==> a[i] == b[i],
    ensures
        key_order_from(a, b, d) == KeyOrder::Same <==> a == b,
        key_order_from(a, b, d) == KeyOrder::Before <==> key_order_from(b, a, d)
            == KeyOrder::Behind,
        key_order_from(a, b, d) == KeyOrder::Behind <==> key_order_from(b, a, d)
            == KeyOrder::Before,
    decreases a.len() - d,
{
    if d < a.len() && d < b.len() && a[d] == b[d] {
        lemma_order_flip_from(a, b, d + 1);
    } else if d >= a.len() && d >= b.len() {
        assert(a =~= b);
    }
}

/// The comparison is total and answers `Same` for equal keys only.
pub proof fn lemma_order_total(a: Seq<usize>, b: Seq<usize>)
    ensures
        key_order(a, b) == KeyOrder::Same <==> a == b,
        key_order(a, b) == KeyOrder::Behind <==> key_before(b, a),
{
    lemma_order_flip_from(a, b, 0);
}

proof fn lemma_order_transitive_from(a: Seq<usize>, b: Seq<usize>, c: Seq<usize>, d: int)
    requires
        0 <= d,
        key_order_from(a, b, d) == KeyOrder::Before,
        key_order_from(b, c, d) == KeyOrder::Before,
    ensures
        key_order_from(a, c, d) == KeyOrder::Before,
    decreases a.len() - d,
{
    if d < a.len() && d < b.len() && d < c.len() && a[d] == b[d] && b[d] == c[d] {
        lemma_order_transitive_from(a, b, c, d + 1);
    }
}

/// The order of keys is transitive.
pub proof fn lemma_order_transitive(a: Seq<usize>, b: Seq<usize>, c: Seq<usize>)
    requires
        key_before(a, b),
        key_before(b, c),
    ensures
        key_before(a, c),
{
    lemma_order_transitive_from(a, b, c, 0);
}

/// Compares two keys.
pub fn compare_keys(a: &[usize], b: &[usize]) -> (r: KeyOrder)
    ensures
        r == key_order(a@, b@),
{
    let mut d: usize = 0;
    while d < a.len()
        invariant
            d <= a.len(),
            key_order(a@, b@) == key_order_from(a@, b@, d as int),
        decreases a.len() - d,
    {
        if d >= b.len() {
            return KeyOrder::Behind;
        }
        if a[d] < b[d] {
            return KeyOrder::Before;
        }
        if b[d] < a[d] {
            return KeyOrder::Behind;
        }
        d = d + 1;
    }
    if a.len() < b.len() {
        KeyOrder::Before
    } else {
        KeyOrder::Same
    }
}

/// The keys of a list.
pub open spec fn keys(indices: Seq<Vec<usize>>) -> Seq<Seq<usize>> {
    Seq::new(indices.len(), |i: int| indices[i]@)
}

/// The keys strictly increase.
pub open spec fn sorted_keys(ks: Seq<Seq<usize>>) -> bool {
    forall|i: int, j: int| 0 <= i < j < ks.len() ==> key_before(#[trigger] ks[i], #[trigger] ks[j])
}

/// The sum, from zero on, of those of the first `n` values whose key is `key`.
pub open spec fn key_sum<T: Float>(
    ks: Seq<Seq<usize>>,
    vals: Seq<T>,
    n: int,
    key: Seq<usize>,
) -> T
    decreases n,
{
    if n <= 0 {
        T::zero_spec()
    } else if ks[n - 1] == key {
        key_sum(ks, vals, n - 1, key).plus(vals[n - 1])
    } else {
        key_sum(ks, vals, n - 1, key)
    }
}

/// One of the first `n` keys is `key`.
pub open spec fn has_key(ks: Seq<Seq<usize>>, n: int, key: Seq<usize>) -> bool {
    exists|i: int| 0 <= i < n && #[trigger] ks[i] == key
}

/// `out` is the merged form of a list: its keys strictly increase, each has the sum
/// of its values, and they are the keys of the list, without those of a zero sum if
/// `drop_zeros`.
pub open spec fn merged<T: Float>(
    ks: Seq<Seq<usize>>,
    vals: Seq<T>,
    drop_zeros: bool,
    out: Seq<Seq<usize>>,
    sums: Seq<T>,
) -> bool {
    let n = ks.len() as int;
    &&& out.len() == sums.len()
    &&& sorted_keys(out)
    &&& forall|i: int|
        0 <= i < out.len() ==> {
            &&& has_key(ks, n, #[trigger] out[i])
            &&& sums[i] == key_sum(ks, vals, n, out[i])
            &&& drop_zeros ==> !is_zero_spec(sums[i])
        }
    &&& forall|key: Seq<usize>|
        #[trigger] has_key(ks, n, key) ==> has_key(out, out.len() as int, key) || (drop_zeros
            && is_zero_spec(key_sum(ks, vals, n, key)))
}

/// Merging makes no list longer.
pub proof fn lemma_merged_len<T: Float>(
    ks: Seq<Seq<usize>>,
    vals: Seq<T>,
    drop_zeros: bool,
    out: Seq<Seq<usize>>,
    sums: Seq<T>,
)
    requires
        merged(ks, vals, drop_zeros, out, sums),
    ensures
        out.len() <= ks.len(),
{
    let n = ks.len() as int;
    let at = Seq::new(out.len(), |i: int| choose|j: int| 0 <= j < n && #[trigger] ks[j] == out[i]);
    assert forall|i: int| 0 <= i < out.len() implies 0 <= #[trigger] at[i] < n && ks[at[i]]
        == out[i] by {
        assert(has_key(ks, n, out[i]));
    }
    assert(at.no_duplicates()) by {
        assert forall|i: int, j: int| 0 <= i < out.len() && 0 <= j < out.len() && i != j implies at[i]
            != at[j] by {
            if i < j {
                assert(key_before(out[i], out[j]));
            } else {
                assert(key_before(out[j], out[i]));
            }
            lemma_order_total(out[i], out[i]);
            assert(ks[at[i]] == out[i] && ks[at[j]] == out[j]);
        }
    }
    at.unique_seq_to_set();
    vstd::set_lib::lemma_int_range(0, n);
    assert(at.to_set().subset_of(vstd::set_lib::set_int_range(0, n)));
    vstd::set_lib::lemma_len_subset(at.to_set(), vstd::set_lib::set_int_range(0, n));
}

/// Two strictly increasing lists of the same keys are the same list.
pub proof fn lemma_sorted_unique(a: Seq<Seq<usize>>, b: Seq<Seq<usize>>)
    requires
        sorted_keys(a),
        sorted_keys(b),
        forall|key: Seq<usize>|
            #[trigger] has_key(a, a.len() as int, key) <==> has_key(b, b.len() as int, key),
    ensures
        a == b,
    decreases a.len(),
{
    if a.len() == 0 {
        if b.len() > 0 {
            assert(has_key(b, b.len() as int, b[0]));
            assert(has_key(a, a.len() as int, b[0]));
        }
        assert(a =~= b);
    } else {
        let x = a.last();
        assert(a[a.len() - 1] == x);
        assert(has_key(a, a.len() as int, x));
        assert(has_key(b, b.len() as int, x));
        let y = b.last();
        assert(b[b.len() - 1] == y);
        assert(has_key(b, b.len() as int, y));
        assert(has_key(a, a.len() as int, y));
        if x != y {
            let i = choose|i: int| 0 <= i < b.len() && #[trigger] b[i] == x;
            let j = choose|j: int| 0 <= j < a.len() && #[trigger] a[j] == y;
            assert(key_before(b[i], b[b.len() - 1]));
            assert(key_before(a[j], a[a.len() - 1]));
            lemma_order_total(x, y);
            lemma_order_total(y, x);
            assert(false);
        }
        let fa = a.drop_last();
        let fb = b.drop_last();
        assert(sorted_keys(fa)) by {
            assert forall|i: int, j: int| 0 <= i < j < fa.len() implies key_before(
                #[trigger] fa[i],
                #[trigger] fa[j],
            ) by {
                assert(key_before(a[i], a[j]));
            }
        }
        assert(sorted_keys(fb)) by {
            assert forall|i: int, j: int| 0 <= i < j < fb.len() implies key_before(
                #[trigger] fb[i],
                #[trigger] fb[j],
            ) by {
                assert(key_before(b[i], b[j]));
            }
        }
        assert forall|key: Seq<usize>| #[trigger]
            has_key(fa, fa.len() as int, key) <==> has_key(fb, fb.len() as int, key) by {
            lemma_drop_last_key(a, key);
            lemma_drop_last_key(b, key);
        }
        lemma_sorted_unique(fa, fb);
        assert(a =~= fa.push(x));
        assert(b =~= fb.push(y));
    }
}

proof fn lemma_drop_last_key(a: Seq<Seq<usize>>, key: Seq<usize>)
    requires
        a.len() > 0,
        sorted_keys(a),
    ensures
        has_key(a.drop_last(), a.len() - 1, key) <==> has_key(a, a.len() as int, key) && key
            != a.last(),
{
    let f = a.drop_last();
    if has_key(f, a.len() - 1, key) {
        let i = choose|i: int| 0 <= i < a.len() - 1 && #[trigger] f[i] == key;
        assert(a[i] == key);
        assert(key_before(a[i], a[a.len() - 1]));
        lemma_order_total(key, a.last());
    }
    if has_key(a, a.len() as int, key) && key != a.last() {
        let i = choose|i: int| 0 <= i < a.len() && #[trigger] a[i] == key;
        assert(f[i] == key);
    }
}

/// A list has one merged form only.
pub proof fn lemma_merged_unique<T: Float>(
    ks: Seq<Seq<usize>>,
    vals: Seq<T>,
    drop_zeros: bool,
    a: Seq<Seq<usize>>,
    sa: Seq<T>,
    b: Seq<Seq<usize>>,
    sb: Seq<T>,
)
    requires
        merged(ks, vals, drop_zeros, a, sa),
        merged(ks, vals, drop_zeros, b, sb),
    ensures
        a == b,
        sa == sb,
{
    let n = ks.len() as int;
    assert forall|key: Seq<usize>| #[trigger]
        has_key(a, a.len() as int, key) <==> has_key(b, b.len() as int, key) by {
        if has_key(a, a.len() as int, key) {
            let i = choose|i: int| 0 <= i < a.len() && #[trigger] a[i] == key;
            assert(has_key(ks, n, a[i]));
        }
        if has_key(b, b.len() as int, key) {
            let i = choose|i: int| 0 <= i < b.len() && #[trigger] b[i] == key;
            assert(has_key(ks, n, b[i]));
        }
    }
    lemma_sorted_unique(a, b);
    assert forall|i: int| 0 <= i < sa.len() implies sa[i] == sb[i] by {
        assert(has_key(ks, n, a[i]));
        assert(has_key(ks, n, b[i]));
    }
    assert(sa =~= sb);
}

/// In strictly increasing keys the sum of a key is its value, added to zero.
proof fn lemma_single_sum<T: Float>(ks: Seq<Seq<usize>>, vals: Seq<T>, n: int, i: int)
    requires
        sorted_keys(ks),
        0 <= i < n <= ks.len(),
    ensures
        key_sum(ks, vals, n, ks[i]) == T::zero_spec().plus(vals[i]),
    decreases n,
{
    if i == n - 1 {
        assert(!has_key(ks, n - 1, ks[i])) by {
            if has_key(ks, n - 1, ks[i]) {
                let j = choose|j: int| 0 <= j < n - 1 && #[trigger] ks[j] == ks[i];
                assert(key_before(ks[j], ks[i]));
                lemma_order_total(ks[j], ks[i]);
            }
        }
        lemma_no_key_no_sum(ks, vals, n - 1, ks[i]);
    } else {
        assert(key_before(ks[i], ks[n - 1]));
        lemma_order_total(ks[i], ks[n - 1]);
        lemma_single_sum(ks, vals, n - 1, i);
    }
}

/// A list with strictly increasing keys is its own merged form, wherever adding to
/// zero changes none of its values and none that would be dropped is zero.
pub proof fn lemma_merge_sorted<T: Float>(
    ks: Seq<Seq<usize>>,
    vals: Seq<T>,
    drop_zeros: bool,
    out: Seq<Seq<usize>>,
    sums: Seq<T>,
)
    requires
        ks.len() == vals.len(),
        sorted_keys(ks),
        forall|i: int| 0 <= i < vals.len() ==> T::zero_spec().plus(#[trigger] vals[i]) == vals[i],
        forall|i: int|
            0 <= i < vals.len() && drop_zeros ==> !is_zero_spec(#[trigger] vals[i]),
        merged(ks, vals, drop_zeros, out, sums),
    ensures
        out == ks,
        sums == vals,
{
    let n = ks.len() as int;
    assert forall|i: int| 0 <= i < ks.len() implies has_key(ks, n, #[trigger] ks[i]) && vals[i]
        == key_sum(ks, vals, n, ks[i]) by {
        lemma_single_sum(ks, vals, n, i);
    }
    lemma_merged_unique(ks, vals, drop_zeros, out, sums, ks, vals);
}

/// Merging a merged list changes nothing, wherever adding to zero changes none of its
/// sums.
pub proof fn lemma_merge_twice<T: Float>(
    ks: Seq<Seq<usize>>,
    vals: Seq<T>,
    drop_zeros: bool,
    once: Seq<Seq<usize>>,
    sums: Seq<T>,
    twice: Seq<Seq<usize>>,
    again: Seq<T>,
)
    requires
        merged(ks, vals, drop_zeros, once, sums),
        merged(once, sums, drop_zeros, twice, again),
        forall|i: int|
            0 <= i < sums.len() ==> T::zero_spec().plus(#[trigger] sums[i]) == sums[i],
    ensures
        twice == once,
        again == sums,
{
    assert forall|i: int| 0 <= i < sums.len() && drop_zeros implies !is_zero_spec(
        #[trigger] sums[i],
    ) by {
        assert(has_key(ks, ks.len() as int, once[i]));
    }
    lemma_merge_sorted(once, sums, drop_zeros, twice, again);
}

/// Where `key` stands, or would stand, in strictly increasing keys: the number of
/// keys before it.
fn find_key(ks: &Vec<Vec<usize>>, key: &[usize]) -> (r: (usize, bool))
    requires
        sorted_keys(keys(ks@)),
    ensures
        r.0 <= ks@.len(),
        r.1 ==> r.0 < ks@.len() && ks@[r.0 as int]@ == key@,
        forall|i: int| 0 <= i < r.0 ==> key_before(#[trigger] ks@[i]@, key@),
        forall|i: int| r.0 <= i < ks@.len() && !r.1 ==> key_before(key@, #[trigger] ks@[i]@),
{
    let mut lo: usize = 0;
    let mut hi: usize = ks.len();
    while lo < hi
        invariant
            lo <= hi <= ks@.len(),
            sorted_keys(keys(ks@)),
            forall|i: int| 0 <= i < lo ==> key_before(#[trigger] ks@[i]@, key@),
            forall|i: int| hi <= i < ks@.len() ==> key_before(key@, #[trigger] ks@[i]@),
        decreases hi - lo,
    {
        let mid: usize = lo + (hi - lo) / 2;
        let ghost sk = keys(ks@);
        match compare_keys(ks[mid].as_slice(), key) {
            KeyOrder::Before => {
                proof {
                    assert forall|i: int| 0 <= i < mid + 1 implies key_before(
                        #[trigger] ks@[i]@,
                        key@,
                    ) by {
                        if i < mid {
                            assert(key_before(sk[i], sk[mid as int]));
                            lemma_order_transitive(sk[i], sk[mid as int], key@);
                        }
                    }
                }
                lo = mid + 1;
            },
            KeyOrder::Same => {
                proof {
                    lemma_order_total(sk[mid as int], key@);
                    assert forall|i: int| 0 <= i < mid implies key_before(
                        #[trigger] ks@[i]@,
                        key@,
                    ) by {
                        assert(key_before(sk[i], sk[mid as int]));
                    }
                }
                return (mid, true);
            },
            KeyOrder::Behind => {
                proof {
                    lemma_order_total(sk[mid as int], key@);
                    assert forall|i: int| mid <= i < ks@.len() implies key_before(
                        key@,
                        #[trigger] ks@[i]@,
                    ) by {
                        if i > mid {
                            assert(key_before(sk[mid as int], sk[i]));
                            lemma_order_transitive(key@, sk[mid as int], sk[i]);
                        }
                    }
                }
                hi = mid;
            },
        }
    }
    (lo, false)
}

proof fn lemma_key_sum_longer<T: Float>(
    ks: Seq<Seq<usize>>,
    vals: Seq<T>,
    k: Seq<usize>,
    v: T,
    n: int,
    key: Seq<usize>,
)
    requires
        ks.len() == vals.len(),
        0 <= n <= ks.len(),
    ensures
        key_sum(ks.push(k), vals.push(v), n, key) == key_sum(ks, vals, n, key),
    decreases n,
{
    if n > 0 {
        lemma_key_sum_longer(ks, vals, k, v, n - 1, key);
    }
}

/// One more entry adds its value to the sum at its coordinate, and to no other; the sum
/// over no entries is zero.
pub proof fn lemma_key_sum_appended<T: Float>(
    ks: Seq<Seq<usize>>,
    vals: Seq<T>,
    k: Seq<usize>,
    v: T,
    key: Seq<usize>,
)
    requires
        ks.len() == vals.len(),
    ensures
        k == key ==> key_sum(ks.push(k), vals.push(v), ks.len() as int + 1, key) == key_sum(
            ks,
            vals,
            ks.len() as int,
            key,
        ).plus(v),
        k != key ==> key_sum(ks.push(k), vals.push(v), ks.len() as int + 1, key) == key_sum(
            ks,
            vals,
            ks.len() as int,
            key,
        ),
        key_sum(Seq::empty(), Seq::<T>::empty(), 0, key) == T::zero_spec(),
{
    lemma_key_sum_longer(ks, vals, k, v, ks.len() as int, key);
}

/// The sum at a coordinate that one entry has is zero plus its value.
pub proof fn lemma_key_sum_once<T: Float>(
    ks: Seq<Seq<usize>>,
    vals: Seq<T>,
    n: int,
    i: int,
)
    requires
        0 <= i < n <= ks.len(),
        forall|j: int| 0 <= j < n && j != i ==> #[trigger] ks[j] != ks[i],
    ensures
        key_sum(ks, vals, n, ks[i]) == T::zero_spec().plus(vals[i]),
    decreases n,
{
    if i < n - 1 {
        assert(ks[n - 1] != ks[i]);
        lemma_key_sum_once(ks, vals, n - 1, i);
    } else {
        lemma_key_sum_absent(ks, vals, n - 1, ks[i]);
    }
}

/// The sum at a coordinate that no entry has is zero.
pub proof fn lemma_key_sum_absent<T: Float>(
    ks: Seq<Seq<usize>>,
    vals: Seq<T>,
    n: int,
    key: Seq<usize>,
)
    requires
        0 <= n <= ks.len(),
        forall|j: int| 0 <= j < n ==> #[trigger] ks[j] != key,
    ensures
        key_sum(ks, vals, n, key) == T::zero_spec(),
    decreases n,
{
    if n > 0 {
        assert(ks[n - 1] != key);
        lemma_key_sum_absent(ks, vals, n - 1, key);
    }
}

/// The sum at a coordinate that two entries have is zero plus the first value plus the
/// second.
pub proof fn lemma_key_sum_twice<T: Float>(
    ks: Seq<Seq<usize>>,
    vals: Seq<T>,
    n: int,
    a: int,
    b: int,
)
    requires
        0 <= a < b < n <= ks.len(),
        ks[a] == ks[b],
        forall|j: int| 0 <= j < n && j != a && j != b ==> #[trigger] ks[j] != ks[a],
    ensures
        key_sum(ks, vals, n, ks[a]) == T::zero_spec().plus(vals[a]).plus(vals[b]),
    decreases n,
{
    if b < n - 1 {
        assert(ks[n - 1] != ks[a]);
        lemma_key_sum_twice(ks, vals, n - 1, a, b);
    } else {
        lemma_key_sum_once(ks, vals, n - 1, a);
    }
}

/// Merging invents nothing and repeats nothing: every coordinate of the result is one of
/// the list, each stands there once, and none has a zero where zeros are dropped.
pub proof fn lemma_merged_entry<T: Float>(
    ks: Seq<Seq<usize>>,
    vals: Seq<T>,
    drop_zeros: bool,
    out: Seq<Seq<usize>>,
    sums: Seq<T>,
    q: int,
)
    requires
        merged(ks, vals, drop_zeros, out, sums),
        0 <= q < out.len(),
    ensures
        out.len() == sums.len(),
        exists|i: int| 0 <= i < ks.len() && #[trigger] ks[i] == out[q],
        forall|p: int| 0 <= p < out.len() && p != q ==> #[trigger] out[p] != out[q],
        drop_zeros ==> !sums[q].same(T::zero_spec()),
{
    let n = ks.len() as int;
    assert(has_key(ks, n, out[q]));
    assert forall|p: int| 0 <= p < out.len() && p != q implies #[trigger] out[p] != out[q] by {
        lemma_order_total(out[p], out[q]);
        if p < q {
            assert(key_before(out[p], out[q]));
        } else {
            assert(key_before(out[q], out[p]));
        }
    }
    assert(drop_zeros ==> !is_zero_spec(sums[q]));
}

proof fn lemma_merged_value<T: Float>(
    ks: Seq<Seq<usize>>,
    vals: Seq<T>,
    drop_zeros: bool,
    out: Seq<Seq<usize>>,
    sums: Seq<T>,
    i: int,
)
    requires
        merged(ks, vals, drop_zeros, out, sums),
        0 <= i < ks.len(),
    ensures
        ({
            let total = key_sum(ks, vals, ks.len() as int, ks[i]);
            if drop_zeros && total.same(T::zero_spec()) {
                forall|q: int| 0 <= q < out.len() ==> #[trigger] out[q] != ks[i]
            } else {
                exists|q: int| 0 <= q < out.len() && #[trigger] out[q] == ks[i] && sums[q] == total
            }
        }),
{
    let n = ks.len() as int;
    let total = key_sum(ks, vals, n, ks[i]);
    assert(has_key(ks, n, ks[i]));
    if drop_zeros && total.same(T::zero_spec()) {
        assert forall|q: int| 0 <= q < out.len() implies #[trigger] out[q] != ks[i] by {
            let key = out[q];
            assert(has_key(ks, n, key) && sums[q] == key_sum(ks, vals, n, key));
            assert(!is_zero_spec(sums[q]));
        }
    } else {
        assert(has_key(out, out.len() as int, ks[i]));
        let q = choose|q: int| 0 <= q < out.len() && #[trigger] out[q] == ks[i];
        assert(has_key(ks, n, out[q]));
    }
}

/// A coordinate that one entry of the list has is in the merged list with zero plus that
/// entry's value, unless that is zero and zeros are dropped.
pub proof fn lemma_merged_once<T: Float>(
    ks: Seq<Seq<usize>>,
    vals: Seq<T>,
    drop_zeros: bool,
    out: Seq<Seq<usize>>,
    sums: Seq<T>,
    i: int,
)
    requires
        merged(ks, vals, drop_zeros, out, sums),
        0 <= i < ks.len(),
        forall|j: int| 0 <= j < ks.len() && j != i ==> #[trigger] ks[j] != ks[i],
    ensures
        drop_zeros && T::zero_spec().plus(vals[i]).same(T::zero_spec()) ==> forall|q: int|
            0 <= q < out.len() ==> #[trigger] out[q] != ks[i],
        !(drop_zeros && T::zero_spec().plus(vals[i]).same(T::zero_spec())) ==> exists|q: int|
            0 <= q < out.len() && #[trigger] out[q] == ks[i] && sums[q] == T::zero_spec().plus(
                vals[i],
            ),
{
    lemma_key_sum_once(ks, vals, ks.len() as int, i);
    lemma_merged_value(ks, vals, drop_zeros, out, sums, i);
}

/// A coordinate that two entries of the list have is in the merged list with zero plus
/// the first value plus the second, unless that is zero and zeros are dropped.
pub proof fn lemma_merged_twice<T: Float>(
    ks: Seq<Seq<usize>>,
    vals: Seq<T>,
    drop_zeros: bool,
    out: Seq<Seq<usize>>,
    sums: Seq<T>,
    a: int,
    b: int,
)
    requires
        merged(ks, vals, drop_zeros, out, sums),
        0 <= a < b < ks.len(),
        ks[a] == ks[b],
        forall|j: int| 0 <= j < ks.len() && j != a && j != b ==> #[trigger] ks[j] != ks[a],
    ensures
        ({
            let total = T::zero_spec().plus(vals[a]).plus(vals[b]);
            if drop_zeros && total.same(T::zero_spec()) {
                forall|q: int| 0 <= q < out.len() ==> #[trigger] out[q] != ks[a]
            } else {
                exists|q: int| 0 <= q < out.len() && #[trigger] out[q] == ks[a] && sums[q] == total
            }
        }),
{
    lemma_key_sum_twice(ks, vals, ks.len() as int, a, b);
    lemma_merged_value(ks, vals, drop_zeros, out, sums, a);
}

/// One more entry in the list: the merged list has at its coordinate the value that it
/// had there (zero, where it had none and nothing was dropped) plus the entry's value.
pub proof fn lemma_merged_appended<T: Float>(
    ks: Seq<Seq<usize>>,
    vals: Seq<T>,
    out: Seq<Seq<usize>>,
    sums: Seq<T>,
    v: T,
    out2: Seq<Seq<usize>>,
    sums2: Seq<T>,
    q: int,
    q2: int,
)
    requires
        ks.len() == vals.len(),
        merged(ks, vals, false, out, sums),
        0 <= q < out.len(),
        merged(ks.push(out[q]), vals.push(v), false, out2, sums2),
        0 <= q2 < out2.len(),
        out2[q2] == out[q],
    ensures
        sums2[q2] == sums[q].plus(v),
{
    assert(has_key(ks, ks.len() as int, out[q]));
    assert(has_key(ks.push(out[q]), ks.len() as int + 1, out2[q2]));
    lemma_key_sum_appended(ks, vals, out[q], v, out[q]);
}

/// One coordinate is before another of the same rank exactly where it is smaller at the
/// first place where they differ.
pub proof fn lemma_key_before_first_difference(a: Seq<usize>, b: Seq<usize>)
    requires
        a.len() == b.len(),
    ensures
        key_before(a, b) <==> exists|d: int|
            0 <= d < a.len() && #[trigger] a[d] < b[d] && forall|e: int|
                0 <= e < d ==> #[trigger] a[e] == b[e],
{
    lemma_key_order_first_difference(a, b, 0);
}

proof fn lemma_key_order_first_difference(a: Seq<usize>, b: Seq<usize>, s: int)
    requires
        a.len() == b.len(),
        0 <= s <= a.len(),
        forall|e: int| 0 <= e < s ==> #[trigger] a[e] == b[e],
    ensures
        key_order_from(a, b, s) == KeyOrder::Before <==> exists|d: int|
            0 <= d < a.len() && #[trigger] a[d] < b[d] && forall|e: int|
                0 <= e < d ==> #[trigger] a[e] == b[e],
    decreases a.len() - s,
{
    if s < a.len() {
        if a[s] == b[s] {
            lemma_key_order_first_difference(a, b, s + 1);
        } else if a[s] < b[s] {
            assert(a[s] < b[s] && forall|e: int| 0 <= e < s ==> #[trigger] a[e] == b[e]);
        } else {
            assert forall|d: int|
                0 <= d < a.len() && #[trigger] a[d] < b[d] && (forall|e: int|
                    0 <= e < d ==> #[trigger] a[e] == b[e]) implies false by {
                if s < d {
                    assert(a[s] == b[s]);
                }
            }
        }
    }
}

/// The invariant of merging: the first `n` entries are merged, zero sums kept.
pub open spec fn merged_prefix<T: Float>(
    ks: Seq<Seq<usize>>,
    vals: Seq<T>,
    n: int,
    out: Seq<Seq<usize>>,
    sums: Seq<T>,
) -> bool {
    &&& out.len() == sums.len()
    &&& sorted_keys(out)
    &&& forall|i: int|
        0 <= i < out.len() ==> has_key(ks, n, #[trigger] out[i]) && sums[i] == key_sum(
            ks,
            vals,
            n,
            out[i],
        )
    &&& forall|i: int| 0 <= i < n ==> has_key(out, out.len() as int, #[trigger] ks[i])
}

proof fn lemma_no_key_no_sum<T: Float>(
    ks: Seq<Seq<usize>>,
    vals: Seq<T>,
    n: int,
    key: Seq<usize>,
)
    requires
        !has_key(ks, n, key),
    ensures
        key_sum(ks, vals, n, key) == T::zero_spec(),
    decreases n,
{
    if n > 0 {
        assert(ks[n - 1] != key);
        assert(!has_key(ks, n - 1, key)) by {
            if has_key(ks, n - 1, key) {
                let i = choose|i: int| 0 <= i < n - 1 && #[trigger] ks[i] == key;
                assert(ks[i] == key);
            }
        }
        lemma_no_key_no_sum(ks, vals, n - 1, key);
    }
}

proof fn lemma_merge_found<T: Float>(
    ks: Seq<Seq<usize>>,
    vals: Seq<T>,
    n: int,
    out: Seq<Seq<usize>>,
    sums: Seq<T>,
    p: int,
)
    requires
        0 <= n < ks.len(),
        merged_prefix(ks, vals, n, out, sums),
        0 <= p < out.len(),
        out[p] == ks[n],
    ensures
        merged_prefix(ks, vals, n + 1, out, sums.update(p, sums[p].plus(vals[n]))),
{
    let after = sums.update(p, sums[p].plus(vals[n]));
    assert forall|i: int| 0 <= i < out.len() implies has_key(ks, n + 1, #[trigger] out[i])
        && after[i] == key_sum(ks, vals, n + 1, out[i]) by {
        assert(has_key(ks, n, out[i]));
        let j = choose|j: int| 0 <= j < n && #[trigger] ks[j] == out[i];
        assert(ks[j] == out[i]);
        if i != p {
            if i < p {
                assert(key_before(out[i], out[p]));
            } else {
                assert(key_before(out[p], out[i]));
            }
            lemma_order_total(out[i], out[p]);
            lemma_order_total(out[p], out[i]);
        }
    }
    assert forall|i: int| 0 <= i < n + 1 implies has_key(
        out,
        out.len() as int,
        #[trigger] ks[i],
    ) by {
        if i == n {
            assert(out[p] == ks[n]);
        }
    }
}

proof fn lemma_merge_inserted<T: Float>(
    ks: Seq<Seq<usize>>,
    vals: Seq<T>,
    n: int,
    out: Seq<Seq<usize>>,
    sums: Seq<T>,
    p: int,
)
    requires
        0 <= n < ks.len(),
        merged_prefix(ks, vals, n, out, sums),
        0 <= p <= out.len(),
        forall|i: int| 0 <= i < p ==> key_before(#[trigger] out[i], ks[n]),
        forall|i: int| p <= i < out.len() ==> key_before(ks[n], #[trigger] out[i]),
    ensures
        merged_prefix(
            ks,
            vals,
            n + 1,
            out.insert(p, ks[n]),
            sums.insert(p, T::zero_spec().plus(vals[n])),
        ),
{
    let key = ks[n];
    let o2 = out.insert(p, key);
    let s2 = sums.insert(p, T::zero_spec().plus(vals[n]));
    assert forall|i: int, j: int| 0 <= i < j < o2.len() implies key_before(
        #[trigger] o2[i],
        #[trigger] o2[j],
    ) by {
        if j < p {
            assert(key_before(out[i], out[j]));
        } else if j == p {
            assert(key_before(out[i], key));
        } else if i < p {
            assert(key_before(out[i], out[j - 1]));
        } else if i == p {
            assert(key_before(key, out[j - 1]));
        } else {
            assert(key_before(out[i - 1], out[j - 1]));
        }
    }
    assert(!has_key(ks, n, key)) by {
        if has_key(ks, n, key) {
            let j = choose|j: int| 0 <= j < n && #[trigger] ks[j] == key;
            assert(has_key(out, out.len() as int, ks[j]));
            let i = choose|i: int| 0 <= i < out.len() && #[trigger] out[i] == key;
            lemma_order_total(out[i], key);
            lemma_order_total(key, out[i]);
            if i < p {
                assert(key_before(out[i], key));
            } else {
                assert(key_before(key, out[i]));
            }
        }
    }
    lemma_no_key_no_sum(ks, vals, n, key);
    assert forall|i: int| 0 <= i < o2.len() implies has_key(ks, n + 1, #[trigger] o2[i]) && s2[i]
        == key_sum(ks, vals, n + 1, o2[i]) by {
        if i == p {
            assert(ks[n] == o2[i]);
        } else {
            let q = if i < p {
                i
            } else {
                i - 1
            };
            assert(o2[i] == out[q]);
            assert(has_key(ks, n, out[q]));
            let j = choose|j: int| 0 <= j < n && #[trigger] ks[j] == out[q];
            assert(ks[j] == o2[i]);
            lemma_order_total(out[q], key);
            lemma_order_total(key, out[q]);
        }
    }
    assert forall|i: int| 0 <= i < n + 1 implies has_key(o2, o2.len() as int, #[trigger] ks[i]) by {
        if i == n {
            assert(o2[p] == ks[n]);
        } else {
            assert(has_key(out, out.len() as int, ks[i]));
            let q = choose|q: int| 0 <= q < out.len() && #[trigger] out[q] == ks[i];
            if q < p {
                assert(o2[q] == ks[i]);
            } else {
                assert(o2[q + 1] == ks[i]);
            }
        }
    }
}

/// Merges a list of entries.
pub fn merge_entries<T: Float>(indices: &Vec<Vec<usize>>, vals: &Vec<T>, drop_zeros: bool) -> (r: (
    Vec<Vec<usize>>,
    Vec<T>,
))
    requires
        indices@.len() == vals@.len(),
    ensures
        merged(keys(indices@), vals@, drop_zeros, keys(r.0@), r.1@),
{
    let ghost ks = keys(indices@);
    let mut out: Vec<Vec<usize>> = Vec::new();
    let mut sums: Vec<T> = Vec::new();
    let mut n: usize = 0;
    while n < indices.len()
        invariant
            n <= indices@.len(),
            indices@.len() == vals@.len(),
            ks == keys(indices@),
            merged_prefix(ks, vals@, n as int, keys(out@), sums@),
        decreases indices.len() - n,
    {
        let ghost before = keys(out@);
        let (p, found): (usize, bool) = find_key(&out, indices[n].as_slice());
        proof {
            assert(ks[n as int] == indices@[n as int]@);
            assert forall|i: int| 0 <= i < p implies key_before(
                #[trigger] before[i],
                ks[n as int],
            ) by {
                assert(before[i] == out@[i]@);
            }
            assert forall|i: int| p <= i < before.len() && !found implies key_before(
                ks[n as int],
                #[trigger] before[i],
            ) by {
                assert(before[i] == out@[i]@);
            }
        }
        if found {
            proof {
                lemma_merge_found(ks, vals@, n as int, before, sums@, p as int);
            }
            let total: T = sums[p].add(vals[n]);
            sums.set(p, total);
        } else {
            proof {
                lemma_merge_inserted(ks, vals@, n as int, before, sums@, p as int);
            }
            let first: T = T::zero().add(vals[n]);
            out.insert(p, copied(indices[n].as_slice()));
            sums.insert(p, first);
            proof {
                assert(keys(out@) =~= before.insert(p as int, ks[n as int]));
            }
        }
        n = n + 1;
    }
    if !drop_zeros {
        proof {
            lemma_merged_all(ks, vals@, keys(out@), sums@);
        }
        return (out, sums);
    }
    without_zeros(indices, vals, &out, &sums)
}

proof fn lemma_merged_all<T: Float>(
    ks: Seq<Seq<usize>>,
    vals: Seq<T>,
    out: Seq<Seq<usize>>,
    sums: Seq<T>,
)
    requires
        merged_prefix(ks, vals, ks.len() as int, out, sums),
    ensures
        merged(ks, vals, false, out, sums),
{
    let n = ks.len() as int;
    assert forall|key: Seq<usize>| #[trigger] has_key(ks, n, key) implies has_key(
        out,
        out.len() as int,
        key,
    ) by {
        let i = choose|i: int| 0 <= i < n && #[trigger] ks[i] == key;
        assert(has_key(out, out.len() as int, ks[i]));
    }
}

/// A merged list without its zero sums.
fn without_zeros<T: Float>(
    indices: &Vec<Vec<usize>>,
    vals: &Vec<T>,
    all: &Vec<Vec<usize>>,
    sums: &Vec<T>,
) -> (r: (Vec<Vec<usize>>, Vec<T>))
    requires
        merged_prefix(keys(indices@), vals@, indices@.len() as int, keys(all@), sums@),
    ensures
        merged(keys(indices@), vals@, true, keys(r.0@), r.1@),
{
    let ghost ks = keys(indices@);
    let ghost n = ks.len() as int;
    let ghost src = keys(all@);
    let mut out: Vec<Vec<usize>> = Vec::new();
    let mut kept: Vec<T> = Vec::new();
    let ghost mut from: Seq<int> = Seq::empty();
    let mut i: usize = 0;
    while i < all.len()
        invariant
            i <= all@.len(),
            src == keys(all@),
            src.len() == sums@.len(),
            out@.len() == kept@.len(),
            from.len() == out@.len(),
            forall|j: int|
                0 <= j < from.len() ==> 0 <= #[trigger] from[j] < i && keys(out@)[j] == src[from[j]]
                    && kept@[j] == sums@[from[j]] && !is_zero_spec(kept@[j]),
            forall|a: int, b: int| 0 <= a < b < from.len() ==> #[trigger] from[a] < #[trigger] from[b],
            forall|j: int|
                0 <= j < i && !is_zero_spec(#[trigger] sums@[j]) ==> has_key(
                    keys(out@),
                    out@.len() as int,
                    src[j],
                ),
        decreases all.len() - i,
    {
        let v: T = sums[i];
        if !is_zero(v) {
            let ghost before = keys(out@);
            out.push(copied(all[i].as_slice()));
            kept.push(v);
            proof {
                from = from.push(i as int);
                let after = keys(out@);
                assert(after =~= before.push(src[i as int]));
                assert forall|j: int|
                    0 <= j < i + 1 && !is_zero_spec(#[trigger] sums@[j]) implies has_key(
                    after,
                    out@.len() as int,
                    src[j],
                ) by {
                    if j < i {
                        assert(has_key(before, before.len() as int, src[j]));
                        let q = choose|q: int|
                            0 <= q < before.len() && #[trigger] before[q] == src[j];
                        assert(after[q] == src[j]);
                    } else {
                        assert(after[before.len() as int] == src[j]);
                    }
                }
            }
        }
        i = i + 1;
    }
    proof {
        let res = keys(out@);
        assert forall|a: int, b: int| 0 <= a < b < res.len() implies key_before(
            #[trigger] res[a],
            #[trigger] res[b],
        ) by {
            assert(from[a] < from[b]);
            assert(key_before(src[from[a]], src[from[b]]));
        }
        assert forall|j: int| 0 <= j < res.len() implies {
            &&& has_key(ks, n, #[trigger] res[j])
            &&& kept@[j] == key_sum(ks, vals@, n, res[j])
            &&& !is_zero_spec(kept@[j])
        } by {
            let q = from[j];
            assert(has_key(ks, n, src[q]));
        }
        assert forall|key: Seq<usize>| #[trigger] has_key(ks, n, key) implies has_key(
            res,
            res.len() as int,
            key,
        ) || is_zero_spec(key_sum(ks, vals@, n, key)) by {
            let a = choose|a: int| 0 <= a < n && #[trigger] ks[a] == key;
            assert(has_key(src, src.len() as int, ks[a]));
            let j = choose|j: int| 0 <= j < src.len() && #[trigger] src[j] == key;
            assert(sums@[j] == key_sum(ks, vals@, n, src[j]));
        }
    }
    (out, kept)
}

} // verus!
