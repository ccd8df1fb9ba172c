//! Ranking elements by magnitude, the largest first.

use crate::dtype::Float;
use vstd::prelude::*;

verus! {

/// `x` put into a ranking behind every position that it does not overtake: from the
/// end on it overtakes those of a smaller magnitude.
pub open spec fn inserted<T: Float>(order: Seq<int>, mags: Seq<T>, x: int) -> Seq<int>
    decreases order.len(),
{
    if order.len() == 0 || !mags[order.last()].below(mags[x]) {
        order.push(x)
    } else {
        inserted(order.drop_last(), mags, x).push(order.last())
    }
}

/// The first `n` positions ranked by magnitude, one put into the ranking of the
/// others after the other.
pub open spec fn ranking<T: Float>(mags: Seq<T>, n: int) -> Seq<int>
    decreases n,
{
    if n <= 0 {
        Seq::empty()
    } else {
        inserted(ranking(mags, n - 1), mags, n - 1)
    }
}

/// `i` ranks before `j`: it is larger, or it is not smaller and comes first.
pub open spec fn outranks<T: Float>(mags: Seq<T>, i: int, j: int) -> bool {
    mags[j].below(mags[i]) || (!mags[i].below(mags[j]) && i < j)
}

/// The magnitudes can be compared with each other: of two at most one is smaller, and
/// not being smaller is transitive.
pub open spec fn comparable<T: Float>(mags: Seq<T>) -> bool {
    &&& forall|i: int, j: int|
        0 <= i < mags.len() && 0 <= j < mags.len() && #[trigger] mags[i].below(mags[j])
            ==> !mags[j].below(mags[i])
    &&& forall|i: int, j: int, k: int|
        0 <= i < mags.len() && 0 <= j < mags.len() && 0 <= k < mags.len()
            && !#[trigger] mags[i].below(mags[j]) && !#[trigger] mags[j].below(mags[k])
            ==> !mags[i].below(mags[k])
}

/// A ranking of the first `n` positions lists each of them.
pub open spec fn lists_all(order: Seq<int>, n: int) -> bool {
    &&& order.len() == n
    &&& forall|a: int| 0 <= a < order.len() ==> 0 <= #[trigger] order[a] < n
    &&& forall|a: int, b: int|
        0 <= a < b < order.len() ==> #[trigger] order[a] != #[trigger] order[b]
}

proof fn lemma_inserted_lists<T: Float>(order: Seq<int>, mags: Seq<T>, x: int)
    requires
        0 <= x,
        forall|a: int| 0 <= a < order.len() ==> 0 <= #[trigger] order[a] < x,
        forall|a: int, b: int|
            0 <= a < b < order.len() ==> #[trigger] order[a] != #[trigger] order[b],
    ensures
        inserted(order, mags, x).len() == order.len() + 1,
        forall|a: int|
            0 <= a <= order.len() ==> #[trigger] inserted(order, mags, x)[a] == x
                || order.contains(inserted(order, mags, x)[a]),
        forall|a: int, b: int|
            0 <= a < b <= order.len() ==> #[trigger] inserted(order, mags, x)[a]
                != #[trigger] inserted(order, mags, x)[b],
        forall|a: int|
            0 <= a <= order.len() ==> 0 <= #[trigger] inserted(order, mags, x)[a] <= x,
    decreases order.len(),
{
    let out = inserted(order, mags, x);
    if order.len() == 0 || !mags[order.last()].below(mags[x]) {
        assert forall|a: int| 0 <= a <= order.len() implies #[trigger] out[a] == x
            || order.contains(out[a]) by {
            if a < order.len() {
                assert(out[a] == order[a]);
            }
        }
    } else {
        let rest = order.drop_last();
        lemma_inserted_lists(rest, mags, x);
        let sub = inserted(rest, mags, x);
        assert forall|a: int| 0 <= a <= order.len() implies #[trigger] out[a] == x
            || order.contains(out[a]) by {
            if a < order.len() {
                assert(out[a] == sub[a]);
                if sub[a] != x {
                    assert(rest.contains(sub[a]));
                    let b = choose|b: int| 0 <= b < rest.len() && rest[b] == sub[a];
                    assert(order[b] == sub[a]);
                }
            } else {
                assert(out[a] == order[order.len() - 1]);
            }
        }
        assert forall|a: int, b: int| 0 <= a < b <= order.len() implies #[trigger] out[a]
            != #[trigger] out[b] by {
            assert(out[a] == sub[a]);
            if b < order.len() {
                assert(out[b] == sub[b]);
            } else if sub[a] != x {
                assert(rest.contains(sub[a]));
                let c = choose|c: int| 0 <= c < rest.len() && rest[c] == sub[a];
                assert(order[c] != order[order.len() - 1]);
            }
        }
        assert forall|a: int| 0 <= a <= order.len() implies 0 <= #[trigger] out[a] <= x by {
            if a < order.len() {
                assert(out[a] == sub[a]);
            }
        }
    }
}

/// The ranking of the first `n` positions lists each of them once.
pub proof fn lemma_ranking_lists<T: Float>(mags: Seq<T>, n: int)
    requires
        0 <= n,
    ensures
        lists_all(ranking(mags, n), n),
    decreases n,
{
    if n > 0 {
        lemma_ranking_lists(mags, n - 1);
        lemma_inserted_lists(ranking(mags, n - 1), mags, n - 1);
    }
}

proof fn lemma_inserted_ranked<T: Float>(order: Seq<int>, mags: Seq<T>, x: int)
    requires
        comparable(mags),
        0 <= x < mags.len(),
        forall|a: int| 0 <= a < order.len() ==> 0 <= #[trigger] order[a] < x,
        forall|a: int, b: int|
            0 <= a < b < order.len() ==> outranks(
                mags,
                #[trigger] order[a],
                #[trigger] order[b],
            ),
    ensures
        inserted(order, mags, x).len() == order.len() + 1,
        forall|a: int|
            0 <= a <= order.len() ==> #[trigger] inserted(order, mags, x)[a] == x
                || order.contains(inserted(order, mags, x)[a]),
        forall|a: int, b: int|
            0 <= a < b <= order.len() ==> outranks(
                mags,
                #[trigger] inserted(order, mags, x)[a],
                #[trigger] inserted(order, mags, x)[b],
            ),
    decreases order.len(),
{
    let out = inserted(order, mags, x);
    if order.len() == 0 {
    } else if !mags[order.last()].below(mags[x]) {
        let last = order.last();
        assert forall|a: int, b: int| 0 <= a < b <= order.len() implies outranks(
            mags,
            #[trigger] out[a],
            #[trigger] out[b],
        ) by {
            assert(out[a] == order[a]);
            if b == order.len() {
                assert(out[b] == x);
                if a < order.len() - 1 {
                    assert(outranks(mags, order[a], order[order.len() - 1]));
                    assert(!mags[order[a]].below(mags[last]));
                }
                assert(!mags[order[a]].below(mags[x]));
            } else {
                assert(out[b] == order[b]);
            }
        }
        assert forall|a: int| 0 <= a <= order.len() implies #[trigger] out[a] == x
            || order.contains(out[a]) by {
            if a < order.len() {
                assert(out[a] == order[a]);
            }
        }
    } else {
        let rest = order.drop_last();
        let last = order.last();
        lemma_inserted_ranked(rest, mags, x);
        let sub = inserted(rest, mags, x);
        assert forall|a: int| 0 <= a <= order.len() implies #[trigger] out[a] == x
            || order.contains(out[a]) by {
            if a < order.len() {
                assert(out[a] == sub[a]);
                if sub[a] != x {
                    assert(rest.contains(sub[a]));
                    let b = choose|b: int| 0 <= b < rest.len() && rest[b] == sub[a];
                    assert(order[b] == sub[a]);
                }
            } else {
                assert(out[a] == order[order.len() - 1]);
            }
        }
        assert forall|a: int, b: int| 0 <= a < b <= order.len() implies outranks(
            mags,
            #[trigger] out[a],
            #[trigger] out[b],
        ) by {
            assert(out[a] == sub[a]);
            if b < order.len() {
                assert(out[b] == sub[b]);
            } else {
                assert(out[b] == last);
                if sub[a] != x {
                    assert(rest.contains(sub[a]));
                    let c = choose|c: int| 0 <= c < rest.len() && rest[c] == sub[a];
                    assert(outranks(mags, order[c], order[order.len() - 1]));
                }
            }
        }
    }
}

/// In a ranking of magnitudes that can be compared, every position outranks those
/// behind it.
pub proof fn lemma_ranking_ordered<T: Float>(mags: Seq<T>, n: int)
    requires
        comparable(mags),
        0 <= n <= mags.len(),
    ensures
        lists_all(ranking(mags, n), n),
        forall|a: int, b: int|
            0 <= a < b < n ==> outranks(
                mags,
                #[trigger] ranking(mags, n)[a],
                #[trigger] ranking(mags, n)[b],
            ),
    decreases n,
{
    lemma_ranking_lists(mags, n);
    if n > 0 {
        lemma_ranking_ordered(mags, n - 1);
        lemma_inserted_ranked(ranking(mags, n - 1), mags, n - 1);
    }
}

/// The same numbers as positions.
pub open spec fn as_ints(s: Seq<usize>) -> Seq<int> {
    Seq::new(s.len(), |i: int| s[i] as int)
}

proof fn lemma_insert_at<T: Float>(order: Seq<int>, mags: Seq<T>, x: int, p: int)
    requires
        0 <= p <= order.len(),
        forall|a: int| p <= a < order.len() ==> mags[#[trigger] order[a]].below(mags[x]),
        p > 0 ==> !mags[order[p - 1]].below(mags[x]),
    ensures
        inserted(order, mags, x) == order.insert(p, x),
    decreases order.len(),
{
    if p == order.len() {
        assert(order.insert(p, x) =~= order.push(x));
    } else {
        let rest = order.drop_last();
        assert(order[order.len() - 1] == order.last());
        lemma_insert_at(rest, mags, x, p);
        assert(order.insert(p, x) =~= rest.insert(p, x).push(order.last()));
    }
}

proof fn lemma_inserted_somewhere<T: Float>(order: Seq<int>, mags: Seq<T>, x: int)
    ensures
        exists|p: int|
            0 <= p <= order.len() && inserted(order, mags, x) == #[trigger] order.insert(p, x) && (
            forall|a: int| p <= a < order.len() ==> mags[#[trigger] order[a]].below(mags[x])) && (p
                > 0 ==> !mags[order[p - 1]].below(mags[x])),
    decreases order.len(),
{
    if order.len() == 0 || !mags[order.last()].below(mags[x]) {
        let p = order.len() as int;
        assert(order.insert(p, x) =~= order.push(x));
    } else {
        let rest = order.drop_last();
        lemma_inserted_somewhere(rest, mags, x);
        let p = choose|p: int|
            0 <= p <= rest.len() && inserted(rest, mags, x) == #[trigger] rest.insert(p, x) && (
            forall|a: int| p <= a < rest.len() ==> mags[#[trigger] rest[a]].below(mags[x])) && (p
                > 0 ==> !mags[rest[p - 1]].below(mags[x]));
        assert(order.insert(p, x) =~= rest.insert(p, x).push(order.last()));
        assert forall|a: int| p <= a < order.len() implies mags[#[trigger] order[a]].below(
            mags[x],
        ) by {
            if a < rest.len() {
                assert(rest[a] == order[a]);
            }
        }
        if p > 0 {
            assert(rest[p - 1] == order[p - 1]);
        }
    }
}

proof fn lemma_ranking_longer<T: Float>(mags: Seq<T>, x: T, n: int)
    requires
        0 <= n <= mags.len(),
    ensures
        ranking(mags.push(x), n) == ranking(mags, n),
    decreases n,
{
    if n > 0 {
        lemma_ranking_longer(mags, x, n - 1);
        lemma_ranking_lists(mags, n - 1);
        lemma_inserted_agrees(ranking(mags, n - 1), mags, x, n - 1);
    }
}

proof fn lemma_inserted_agrees<T: Float>(order: Seq<int>, mags: Seq<T>, x: T, i: int)
    requires
        0 <= i < mags.len(),
        forall|a: int| 0 <= a < order.len() ==> 0 <= #[trigger] order[a] < mags.len(),
    ensures
        inserted(order, mags.push(x), i) == inserted(order, mags, i),
    decreases order.len(),
{
    if order.len() > 0 {
        assert(order[order.len() - 1] == order.last());
        assert forall|a: int| 0 <= a < order.drop_last().len() implies 0
            <= #[trigger] order.drop_last()[a] < mags.len() by {
            assert(order[a] == order.drop_last()[a]);
        }
        lemma_inserted_agrees(order.drop_last(), mags, x, i);
    }
}

/// One more magnitude goes in front of the positions at the end of the ranking that are
/// all below it, and behind the first, from the end, that is not; whether it is a number
/// or not.
pub proof fn lemma_ranking_appended<T: Float>(mags: Seq<T>, x: T)
    ensures
        ({
            let n = mags.len() as int;
            let before = ranking(mags, n);
            exists|p: int|
                0 <= p <= before.len() && ranking(mags.push(x), n + 1) == #[trigger] before.insert(
                    p,
                    n,
                ) && (forall|a: int| p <= a < before.len() ==> mags[#[trigger] before[a]].below(x))
                    && (p > 0 ==> !mags[before[p - 1]].below(x))
        }),
        ranking(Seq::<T>::empty(), 0) == Seq::<int>::empty(),
{
    let n = mags.len() as int;
    let before = ranking(mags, n);
    let all = mags.push(x);
    lemma_ranking_longer(mags, x, n);
    lemma_ranking_lists(mags, n);
    lemma_inserted_somewhere(before, all, n);
    let p = choose|p: int|
        0 <= p <= before.len() && inserted(before, all, n) == #[trigger] before.insert(p, n) && (
        forall|a: int| p <= a < before.len() ==> all[#[trigger] before[a]].below(all[n])) && (p > 0
            ==> !all[before[p - 1]].below(all[n]));
    assert forall|a: int| p <= a < before.len() implies mags[#[trigger] before[a]].below(x) by {
        assert(0 <= before[a] < n);
        assert(all[before[a]].below(all[n]));
    }
    if p > 0 {
        assert(0 <= before[p - 1] < n);
    }
    assert(ranking(all, n + 1) == before.insert(p, n));
}

/// Ranks all positions by magnitude.
pub fn rank<T: Float>(mags: &[T]) -> (r: Vec<usize>)
    ensures
        as_ints(r@) == ranking(mags@, mags@.len() as int),
        lists_all(as_ints(r@), mags@.len() as int),
{
    let mut order: Vec<usize> = Vec::new();
    let mut x: usize = 0;
    proof {
        assert(as_ints(order@) =~= ranking(mags@, 0));
    }
    while x < mags.len()
        invariant
            x <= mags@.len(),
            as_ints(order@) == ranking(mags@, x as int),
        decreases mags.len() - x,
    {
        let ghost before = as_ints(order@);
        proof {
            lemma_ranking_lists(mags@, x as int);
            assert(before.len() == order@.len());
        }
        let mut p: usize = order.len();
        loop
            invariant_except_break
                p <= order@.len(),
            invariant
                x < mags@.len(),
                before == as_ints(order@),
                lists_all(before, x as int),
                order@.len() == before.len(),
                p <= order@.len(),
                forall|a: int|
                    p <= a < before.len() ==> mags@[#[trigger] before[a]].below(mags@[x as int]),
            ensures
                p > 0 ==> !mags@[before[p - 1]].below(mags@[x as int]),
            decreases p,
        {
            if p == 0 {
                break;
            }
            proof {
                assert(before[p - 1] == order@[p - 1]);
                assert(0 <= before[p - 1] < x);
            }
            if !mags[order[p - 1]].is_below(mags[x]) {
                break;
            }
            p = p - 1;
        }
        order.insert(p, x);
        proof {
            lemma_insert_at(before, mags@, x as int, p as int);
            assert(as_ints(order@) =~= before.insert(p as int, x as int));
        }
        x = x + 1;
    }
    proof {
        lemma_ranking_lists(mags@, mags@.len() as int);
    }
    order
}

} // verus!
