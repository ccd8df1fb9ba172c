//! Two-of-four sparsity: of every four neighbours two are kept.

use crate::autograd::{Context, Plan, TensorId};
use crate::dtype::{is_nan_spec, Float};
use crate::error::{FerrotorchError, FerrotorchResult, Reason};
use crate::ranking::{
    as_ints, comparable, lemma_ranking_lists, lemma_ranking_ordered, lists_all, outranks, rank,
    ranking,
};
use crate::scatter::copied;
use crate::shape;
use crate::storage::TensorStorage;
use crate::tensor::Tensor;
use crate::transfer::TransferJob;
use vstd::prelude::*;

verus! {

/// A tensor of which every group of four along the innermost dimension keeps two
/// elements. The values stand in order, two to a group. The mask has four bits to a
/// group, two groups to a byte, the even one in the low half; bit `i` is set if the
/// element at place `i` of the group is kept.
#[derive(Debug)]
pub struct SemiStructuredSparseTensor<T: Float> {
    pub values: Vec<T>,
    pub mask: Vec<u8>,
    pub shape: Vec<usize>,
}

impl<T: Float> Clone for SemiStructuredSparseTensor<T> {
    fn clone(&self) -> (r: Self)
        ensures
            r.values@ == self.values@,
            r.mask@ == self.mask@,
            r.shape@ == self.shape@,
            self.wf() ==> r.wf(),
    {
        SemiStructuredSparseTensor {
            values: copied(self.values.as_slice()),
            mask: copied(self.mask.as_slice()),
            shape: copied(self.shape.as_slice()),
        }
    }
}

/// The number whose only set bit is that of a place in a group.
pub open spec fn place_bit(pos: int) -> int {
    if pos <= 0 {
        1
    } else if pos == 1 {
        2
    } else if pos == 2 {
        4
    } else {
        8
    }
}

/// Whether the bit of a place is set.
pub open spec fn has_bit(nibble: int, pos: int) -> bool {
    (nibble / place_bit(pos)) % 2 == 1
}

/// How many of the bits below a place are set.
pub open spec fn bits_below(nibble: int, pos: int) -> int
    decreases pos,
{
    if pos <= 0 {
        0
    } else {
        bits_below(nibble, pos - 1) + if has_bit(nibble, pos - 1) {
            1int
        } else {
            0int
        }
    }
}

/// The four bits of a group.
pub open spec fn nibble_of(mask: Seq<u8>, g: int) -> int {
    if g % 2 == 0 {
        mask[g / 2] as int % 16
    } else {
        mask[g / 2] as int / 16
    }
}

/// The magnitudes of a group.
pub open spec fn group_magnitudes<T: Float>(data: Seq<T>, g: int) -> Seq<T> {
    Seq::new(4, |i: int| data[4 * g + i].magnitude())
}

/// The two places of a group that rank first, the smaller place first.
pub open spec fn kept_places<T: Float>(mags: Seq<T>) -> (int, int) {
    let order = ranking(mags, 4);
    if order[0] < order[1] {
        (order[0], order[1])
    } else {
        (order[1], order[0])
    }
}

/// `values` and `mask` hold the kept elements of group `g` of `data`.
pub open spec fn holds_group<T: Float>(
    data: Seq<T>,
    values: Seq<T>,
    mask: Seq<u8>,
    g: int,
) -> bool {
    let kept = kept_places(group_magnitudes(data, g));
    &&& nibble_of(mask, g) == place_bit(kept.0) + place_bit(kept.1)
    &&& values[2 * g] == data[4 * g + kept.0]
    &&& values[2 * g + 1] == data[4 * g + kept.1]
}

/// `values` and `mask` hold the kept elements of `data`.
pub open spec fn compressed<T: Float>(data: Seq<T>, values: Seq<T>, mask: Seq<u8>) -> bool {
    let groups = data.len() as int / 4;
    &&& values.len() == 2 * groups
    &&& mask.len() == (groups + 1) / 2
    &&& forall|g: int| 0 <= g < groups ==> #[trigger] holds_group(data, values, mask, g)
    &&& groups % 2 == 1 ==> mask[groups / 2] < 16
}

/// The element at position `p` of the dense form.
pub open spec fn decompressed_at<T: Float>(values: Seq<T>, mask: Seq<u8>, p: int) -> T {
    let nibble = nibble_of(mask, p / 4);
    if has_bit(nibble, p % 4) {
        values[2 * (p / 4) + bits_below(nibble, p % 4)]
    } else {
        T::zero_spec()
    }
}

/// The elements of the dense form.
pub open spec fn decompressed<T: Float>(values: Seq<T>, mask: Seq<u8>, n: nat) -> Seq<T> {
    Seq::new(n, |p: int| decompressed_at(values, mask, p))
}

/// A group keeps two different places; where its magnitudes can be compared, both
/// outrank the two others.
pub proof fn lemma_kept_places<T: Float>(mags: Seq<T>)
    requires
        mags.len() == 4,
    ensures
        0 <= kept_places(mags).0 < kept_places(mags).1 < 4,
        comparable(mags) ==> forall|i: int|
            #![trigger mags[i]]
            0 <= i < 4 && i != kept_places(mags).0 && i != kept_places(mags).1 ==> outranks(
                mags,
                kept_places(mags).0,
                i,
            ) && outranks(mags, kept_places(mags).1, i),
{
    let order = ranking(mags, 4);
    lemma_ranking_lists(mags, 4);
    assert(order[0] != order[1]);
    assert(0 <= order[0] < 4 && 0 <= order[1] < 4);
    if comparable(mags) {
        lemma_ranking_ordered(mags, 4);
        assert forall|i: int|
            #![trigger mags[i]]
            0 <= i < 4 && i != kept_places(mags).0 && i != kept_places(
                mags,
            ).1 implies outranks(mags, kept_places(mags).0, i) && outranks(
            mags,
            kept_places(mags).1,
            i,
        ) by {
            lemma_four_places(order, i);
            if order[2] == i {
                assert(outranks(mags, order[0], order[2]) && outranks(mags, order[1], order[2]));
            } else {
                assert(order[3] == i);
                assert(outranks(mags, order[0], order[3]) && outranks(mags, order[1], order[3]));
            }
        }
    }
}

proof fn lemma_four_places(order: Seq<int>, i: int)
    requires
        lists_all(order, 4),
        0 <= i < 4,
    ensures
        order[0] == i || order[1] == i || order[2] == i || order[3] == i,
{
    assert(order[0] != order[1] && order[0] != order[2] && order[0] != order[3]);
    assert(order[1] != order[2] && order[1] != order[3] && order[2] != order[3]);
    assert(0 <= order[0] < 4 && 0 <= order[1] < 4 && 0 <= order[2] < 4 && 0 <= order[3] < 4);
}

/// The bits of two places are the only ones set in their sum.
pub proof fn lemma_two_bits(a: int, b: int)
    requires
        0 <= a < b < 4,
    ensures
        3 <= place_bit(a) + place_bit(b) <= 12,
        forall|i: int|
            0 <= i < 4 ==> (#[trigger] has_bit(place_bit(a) + place_bit(b), i) <==> (i == a || i
                == b)),
        bits_below(place_bit(a) + place_bit(b), a) == 0,
        bits_below(place_bit(a) + place_bit(b), b) == 1,
        bits_below(place_bit(a) + place_bit(b), 4) == 2,
{
    reveal_with_fuel(bits_below, 5);
    if a == 0 && b == 1 {
    } else if a == 0 && b == 2 {
    } else if a == 0 {
    } else if a == 1 && b == 2 {
    } else if a == 1 {
    } else {
    }
    let nibble = place_bit(a) + place_bit(b);
    assert forall|i: int| 0 <= i < 4 implies (#[trigger] has_bit(nibble, i) <==> (i == a || i
        == b)) by {
        if i == 0 {
            assert(has_bit(nibble, 0) == (nibble % 2 == 1));
        } else if i == 1 {
            assert(has_bit(nibble, 1) == ((nibble / 2) % 2 == 1));
        } else if i == 2 {
            assert(has_bit(nibble, 2) == ((nibble / 4) % 2 == 1));
        } else {
            assert(has_bit(nibble, 3) == ((nibble / 8) % 2 == 1));
        }
    }
}

/// Below each place at most as many bits are set as there are in all.
proof fn lemma_bits_range(nibble: int, pos: int)
    requires
        0 <= pos < 4,
        bits_below(nibble, 4) == 2,
    ensures
        0 <= bits_below(nibble, pos) <= 2,
        has_bit(nibble, pos) ==> bits_below(nibble, pos) < 2,
{
    reveal_with_fuel(bits_below, 5);
}

/// What compression keeps comes back from decompression at its place, and every other
/// element comes back as zero.
pub proof fn lemma_compress_then_decompress<T: Float>(
    data: Seq<T>,
    values: Seq<T>,
    mask: Seq<u8>,
    p: int,
)
    requires
        compressed(data, values, mask),
        data.len() % 4 == 0,
        0 <= p < data.len(),
    ensures
        ({
            let kept = kept_places(group_magnitudes(data, p / 4));
            decompressed(values, mask, data.len())[p] == if p % 4 == kept.0 || p % 4 == kept.1 {
                data[p]
            } else {
                T::zero_spec()
            }
        }),
{
    let g = p / 4;
    let mags = group_magnitudes(data, g);
    let kept = kept_places(mags);
    lemma_kept_places(mags);
    lemma_two_bits(kept.0, kept.1);
    assert(holds_group(data, values, mask, g));
    assert(p == 4 * g + p % 4);
    assert(has_bit(nibble_of(mask, g), p % 4) <==> (p % 4 == kept.0 || p % 4 == kept.1));
}

/// The magnitudes of a group can be compared with each other and with that of zero,
/// which exceeds none of them.
spec fn above_zero<T: Float>(mags: Seq<T>) -> bool {
    &&& comparable(mags.push(T::zero_spec().magnitude()))
    &&& forall|i: int|
        0 <= i < mags.len() ==> !(#[trigger] mags[i]).below(T::zero_spec().magnitude())
}

/// The magnitudes of numbers can be compared with each other and with that of zero.
proof fn lemma_above_zero<T: Float>(data: Seq<T>, g: int)
    requires
        0 <= g,
        4 * g + 4 <= data.len(),
        forall|i: int| 0 <= i < data.len() ==> !is_nan_spec(#[trigger] data[i]),
    ensures
        above_zero(group_magnitudes(data, g)),
{
    let mags = group_magnitudes(data, g);
    let zero = T::zero_spec().magnitude();
    let all = mags.push(zero);
    assert forall|i: int| 0 <= i < 5 implies (#[trigger] all[i]).same(all[i]) && !all[i].below(
        zero,
    ) by {
        if i < 4 {
            assert(!is_nan_spec(data[4 * g + i]));
            T::lemma_magnitude(data[4 * g + i]);
        } else {
            assert(!is_nan_spec(data[4 * g]));
            T::lemma_zero_plus(data[4 * g]);
            T::lemma_magnitude(T::zero_spec());
        }
    }
    assert forall|i: int, j: int| 0 <= i < 5 && 0 <= j < 5 && #[trigger] all[i].below(
        all[j],
    ) implies !all[j].below(all[i]) by {
        T::lemma_order(all[i], all[j], all[j]);
    }
    assert forall|i: int, j: int, k: int|
        0 <= i < 5 && 0 <= j < 5 && 0 <= k < 5 && !#[trigger] all[i].below(all[j])
            && !#[trigger] all[j].below(all[k]) implies !all[i].below(all[k]) by {
        T::lemma_order(all[i], all[j], all[k]);
    }
    assert forall|i: int| 0 <= i < mags.len() implies !(#[trigger] mags[i]).below(zero) by {
        assert(all[i] == mags[i]);
    }
}

/// Setting the places of a group that are not kept to zero keeps the same places.
proof fn lemma_kept_again<T: Float>(mags: Seq<T>, after: Seq<T>)
    requires
        mags.len() == 4,
        after.len() == 4,
        above_zero(mags),
        forall|i: int|
            0 <= i < 4 ==> #[trigger] after[i] == if i == kept_places(mags).0 || i == kept_places(
                mags,
            ).1 {
                mags[i]
            } else {
                T::zero_spec().magnitude()
            },
    ensures
        kept_places(after) == kept_places(mags),
{
    let zero = T::zero_spec().magnitude();
    let all = mags.push(zero);
    let kept = kept_places(mags);
    let again = kept_places(after);
    assert forall|i: int, j: int| 0 <= i < 4 && 0 <= j < 4 && #[trigger] mags[i].below(
        mags[j],
    ) implies !mags[j].below(mags[i]) by {
        assert(all[i].below(all[j]));
    }
    assert forall|i: int, j: int, k: int|
        0 <= i < 4 && 0 <= j < 4 && 0 <= k < 4 && !#[trigger] mags[i].below(mags[j])
            && !#[trigger] mags[j].below(mags[k]) implies !mags[i].below(mags[k]) by {
        assert(!all[i].below(all[j]) && !all[j].below(all[k]));
    }
    lemma_kept_places(mags);
    let index = |i: int| if i == kept.0 || i == kept.1 { i } else { 4int };
    assert forall|i: int| 0 <= i < 4 implies #[trigger] after[i] == all[index(i)] by {}
    assert forall|i: int, j: int| 0 <= i < 4 && 0 <= j < 4 && #[trigger] after[i].below(
        after[j],
    ) implies !after[j].below(after[i]) by {
        assert(all[index(i)].below(all[index(j)]));
    }
    assert forall|i: int, j: int, k: int|
        0 <= i < 4 && 0 <= j < 4 && 0 <= k < 4 && !#[trigger] after[i].below(after[j])
            && !#[trigger] after[j].below(after[k]) implies !after[i].below(after[k]) by {
        assert(!all[index(i)].below(all[index(j)]) && !all[index(j)].below(all[index(k)]));
    }
    lemma_kept_places(after);
    assert forall|j: int, i: int|
        0 <= i < 4 && (j == kept.0 || j == kept.1) && i != kept.0 && i
            != kept.1 implies #[trigger] outranks(after, j, i) by {
        assert(mags[i] == mags[i]);
        assert(outranks(mags, j, i));
        assert(!mags[j].below(zero) && !mags[i].below(zero));
        if !(j < i) {
            assert(mags[i].below(mags[j]));
            if !zero.below(mags[j]) {
                assert(!all[i].below(all[4]) && !all[4].below(all[j]));
            }
        }
    }
    if again != kept {
        let j = if kept.0 != again.0 && kept.0 != again.1 {
            kept.0
        } else {
            kept.1
        };
        let i = if again.0 != kept.0 && again.0 != kept.1 {
            again.0
        } else {
            again.1
        };
        assert(after[j] == after[j]);
        assert(outranks(after, i, j));
        assert(outranks(after, j, i));
    }
}

/// Compressing what was decompressed changes nothing, where the elements are numbers.
pub proof fn lemma_compress_again<T: Float>(
    data: Seq<T>,
    values: Seq<T>,
    mask: Seq<u8>,
    again_values: Seq<T>,
    again_mask: Seq<u8>,
)
    requires
        data.len() % 4 == 0,
        compressed(data, values, mask),
        compressed(decompressed(values, mask, data.len()), again_values, again_mask),
        forall|i: int| 0 <= i < data.len() ==> !is_nan_spec(#[trigger] data[i]),
    ensures
        again_values == values,
        again_mask == mask,
{
    let n = data.len() as int;
    let groups = n / 4;
    let dense = decompressed(values, mask, data.len());
    assert forall|g: int| 0 <= g < groups implies nibble_of(again_mask, g) == nibble_of(mask, g)
        && again_values[2 * g] == values[2 * g] && again_values[2 * g + 1] == values[2 * g
        + 1] by {
        let mags = group_magnitudes(data, g);
        let after = group_magnitudes(dense, g);
        let kept = kept_places(mags);
        assert forall|i: int| 0 <= i < 4 implies #[trigger] after[i] == (if i == kept.0 || i
            == kept.1 {
            mags[i]
        } else {
            T::zero_spec().magnitude()
        }) && (i == kept.0 || i == kept.1 ==> dense[4 * g + i] == data[4 * g + i]) by {
            lemma_compress_then_decompress(data, values, mask, 4 * g + i);
            assert((4 * g + i) / 4 == g && (4 * g + i) % 4 == i);
        }
        lemma_above_zero(data, g);
        lemma_kept_again(mags, after);
        lemma_kept_places(mags);
        assert(after[kept.0] == mags[kept.0] && after[kept.1] == mags[kept.1]);
        assert(holds_group(data, values, mask, g));
        assert(holds_group(dense, again_values, again_mask, g));
    }
    assert(again_values =~= values) by {
        assert forall|q: int| 0 <= q < values.len() implies again_values[q] == values[q] by {
            let g = q / 2;
            assert(nibble_of(again_mask, g) == nibble_of(mask, g));
            assert(q == 2 * g || q == 2 * g + 1);
        }
    }
    assert(again_mask =~= mask) by {
        assert forall|b: int| 0 <= b < mask.len() implies again_mask[b] == mask[b] by {
            assert((2 * b) / 2 == b && (2 * b) % 2 == 0);
            assert(nibble_of(again_mask, 2 * b) == nibble_of(mask, 2 * b));
            if 2 * b + 1 < groups {
                assert((2 * b + 1) / 2 == b && (2 * b + 1) % 2 == 1);
                assert(nibble_of(again_mask, 2 * b + 1) == nibble_of(mask, 2 * b + 1));
            } else {
                assert(groups == 2 * b + 1);
            }
        }
    }
}

fn place_bit_of(pos: usize) -> (r: u8)
    requires
        pos < 4,
    ensures
        r == place_bit(pos as int),
{
    if pos == 0 {
        1
    } else if pos == 1 {
        2
    } else if pos == 2 {
        4
    } else {
        8
    }
}

/// The kept places of a group.
fn keep_two<T: Float>(data: &[T], g: usize) -> (r: (usize, usize))
    requires
        4 * g + 3 < data@.len(),
    ensures
        r.0 == kept_places(group_magnitudes(data@, g as int)).0,
        r.1 == kept_places(group_magnitudes(data@, g as int)).1,
        r.0 < r.1 < 4,
{
    let mut mags: Vec<T> = Vec::new();
    let n: usize = data.len();
    let mut i: usize = 0;
    while i < 4
        invariant
            i <= 4,
            n == data@.len(),
            4 * g + 3 < n,
            mags@.len() == i,
            forall|j: int| 0 <= j < i ==> #[trigger] mags@[j] == data@[4 * g + j].magnitude(),
        decreases 4 - i,
    {
        mags.push(data[4 * g + i].abs());
        i = i + 1;
    }
    proof {
        assert(mags@ =~= group_magnitudes(data@, g as int));
        lemma_kept_places(mags@);
    }
    let order: Vec<usize> = rank(mags.as_slice());
    proof {
        assert(as_ints(order@)[0] == order@[0]);
        assert(as_ints(order@)[1] == order@[1]);
    }
    if order[0] < order[1] {
        (order[0], order[1])
    } else {
        (order[1], order[0])
    }
}

impl<T: Float> SemiStructuredSparseTensor<T> {
    /// Groups of four along the innermost dimension, two values and two set bits to
    /// each.
    pub open spec fn wf(&self) -> bool {
        let groups = shape::prod(self.shape@) as int / 4;
        &&& shape::shape_fits(self.shape@)
        &&& self.shape@.len() > 0
        &&& self.shape@.last() % 4 == 0
        &&& self.values@.len() == 2 * groups
        &&& self.mask@.len() == (groups + 1) / 2
        &&& forall|g: int|
            0 <= g < groups ==> bits_below(#[trigger] nibble_of(self.mask@, g), 4) == 2
    }

    /// The elements of the dense form.
    pub open spec fn elements(&self) -> Seq<T> {
        decompressed(self.values@, self.mask@, shape::prod(self.shape@))
    }

    /// Whole groups only.
    pub proof fn lemma_groups(&self)
        requires
            self.shape@.len() > 0,
            self.shape@.last() % 4 == 0,
        ensures
            shape::prod(self.shape@) % 4 == 0,
    {
        lemma_whole_groups(self.shape@);
    }

    /// Why a tensor is not compressed, if it is not.
    pub open spec fn compress_error(dense: &Tensor<T>, ctx: Context) -> Option<FerrotorchError> {
        let sh = dense.inner.shape@;
        if ctx.grad_enabled && dense.inner.requires_grad {
            Some(FerrotorchError::InvalidArgument { reason: Reason::TracksGradients })
        } else if sh.len() == 0 {
            Some(FerrotorchError::InvalidArgument { reason: Reason::NoDimension })
        } else if sh.last() % 4 != 0 {
            Some(
                FerrotorchError::InvalidArgument {
                    reason: Reason::NotMultipleOfFour { size: sh.last() },
                },
            )
        } else {
            None
        }
    }

    /// Keeps of every group of four along the innermost dimension the two elements of
    /// the largest magnitude, the earlier one of two that tie.
    pub fn compress(dense: &Tensor<T>, ctx: Context) -> (r: FerrotorchResult<
        Plan<Self, TransferJob<T>>,
    >)
        requires
            dense.wf(),
            dense.inner.storage.on_host() && !dense.contiguous_spec() ==> dense.in_bounds(),
        ensures
            if Self::compress_error(dense, ctx) is Some {
                r matches Err(e) && Self::compress_error(dense, ctx) == Some(e)
            } else if dense.inner.storage.on_host() && dense.readable() {
                r matches Ok(Plan::Ready(t)) && t.wf() && t.shape@ == dense.inner.shape@
                    && compressed(dense.logical(), t.values@, t.mask@)
            } else {
                match r {
                    Ok(Plan::Ready(_)) => false,
                    Ok(Plan::Device(j)) => dense.data_vec_outcome(ctx, Ok(Plan::Device(j))),
                    Err(e) => dense.data_vec_outcome(ctx, Err(e)),
                }
            },
    {
        if ctx.grad_enabled && dense.requires_grad() {
            return Err(FerrotorchError::InvalidArgument { reason: Reason::TracksGradients });
        }
        let d: usize = dense.ndim();
        if d == 0 {
            return Err(FerrotorchError::InvalidArgument { reason: Reason::NoDimension });
        }
        let last: usize = dense.shape()[d - 1];
        if last % 4 != 0 {
            return Err(
                FerrotorchError::InvalidArgument {
                    reason: Reason::NotMultipleOfFour { size: last },
                },
            );
        }
        match dense.data_vec(ctx)? {
            Plan::Ready(data) => {
                Ok(Plan::Ready(Self::compress_data(data.as_slice(), dense.shape())))
            },
            Plan::Device(j) => Ok(Plan::Device(j)),
        }
    }

    /// Compresses listed elements of a shape.
    pub fn compress_data(data: &[T], sh: &[usize]) -> (r: Self)
        requires
            shape::shape_fits(sh@),
            sh@.len() > 0,
            sh@.last() % 4 == 0,
            data@.len() == shape::prod(sh@),
        ensures
            r.wf(),
            r.shape@ == sh@,
            compressed(data@, r.values@, r.mask@),
    {
        proof {
            lemma_whole_groups(sh@);
        }
        let n: usize = data.len();
        let groups: usize = n / 4;
        let mut values: Vec<T> = Vec::new();
        let mut mask: Vec<u8> = Vec::new();
        let mut g: usize = 0;
        while g < groups
            invariant
                g <= groups,
                n == data@.len(),
                groups == n / 4,
                values@.len() == 2 * g,
                mask@.len() == (g + 1) / 2,
                g % 2 == 1 ==> mask@[g as int / 2] < 16,
                forall|h: int| 0 <= h < g ==> #[trigger] holds_group(data@, values@, mask@, h),
            decreases groups - g,
        {
            let (a, b): (usize, usize) = keep_two(data, g);
            let ghost old_mask = mask@;
            let ghost old_values = values@;
            values.push(data[4 * g + a]);
            values.push(data[4 * g + b]);
            proof {
                lemma_two_bits(a as int, b as int);
            }
            let nibble: u8 = place_bit_of(a) + place_bit_of(b);
            if g % 2 == 0 {
                mask.push(nibble);
            } else {
                let low: u8 = mask[g / 2];
                mask.set(g / 2, low + nibble * 16);
            }
            proof {
                assert(nibble_of(mask@, g as int) == nibble);
                assert(values@[2 * g] == data@[4 * g + a]);
                assert(values@[2 * g + 1] == data@[4 * g + b]);
                assert forall|h: int| 0 <= h < g + 1 implies #[trigger] holds_group(
                    data@,
                    values@,
                    mask@,
                    h,
                ) by {
                    if h < g {
                        assert(holds_group(data@, old_values, old_mask, h));
                        assert(nibble_of(mask@, h) == nibble_of(old_mask, h));
                        assert(values@[2 * h] == old_values[2 * h]);
                        assert(values@[2 * h + 1] == old_values[2 * h + 1]);
                    }
                }
            }
            g = g + 1;
        }
        let r = SemiStructuredSparseTensor { values, mask, shape: copied(sh) };
        proof {
            assert forall|h: int| 0 <= h < groups implies bits_below(
                #[trigger] nibble_of(r.mask@, h),
                4,
            ) == 2 by {
                assert(holds_group(data@, r.values@, r.mask@, h));
                let kept = kept_places(group_magnitudes(data@, h));
                lemma_kept_places(group_magnitudes(data@, h));
                lemma_two_bits(kept.0, kept.1);
            }
        }
        r
    }

    /// The four bits of group `g`.
    pub fn group_mask(&self, g: usize) -> (r: u8)
        requires
            self.wf(),
            g < shape::prod(self.shape@) as int / 4,
        ensures
            r == nibble_of(self.mask@, g as int),
            r < 16,
    {
        if g % 2 == 0 {
            self.mask[g / 2] % 16
        } else {
            self.mask[g / 2] / 16
        }
    }

    /// The dense form, zero where nothing is kept.
    pub fn decompress(&self, id: TensorId) -> (r: FerrotorchResult<Tensor<T>>)
        requires
            self.wf(),
        ensures
            r matches Ok(t) && t.is_dense_cpu(id, self.elements(), self.shape@) && t.is_plain(false)
                && t.wf() && t.in_bounds(),
    {
        let out: Vec<T> = self.decompressed_data();
        Tensor::from_storage(TensorStorage::cpu(out), copied(self.shape.as_slice()), false, id)
    }

    /// The elements of the dense form.
    pub fn decompressed_data(&self) -> (r: Vec<T>)
        requires
            self.wf(),
        ensures
            r@ == self.elements(),
    {
        proof {
            self.lemma_groups();
        }
        let n: usize = shape::numel(self.shape.as_slice());
        let groups: usize = n / 4;
        let mut out: Vec<T> = Vec::new();
        let mut g: usize = 0;
        while g < groups
            invariant
                g <= groups,
                self.wf(),
                n == shape::prod(self.shape@),
                groups == n / 4,
                n % 4 == 0,
                out@.len() == 4 * g,
                forall|p: int|
                    0 <= p < 4 * g ==> #[trigger] out@[p] == decompressed_at(
                        self.values@,
                        self.mask@,
                        p,
                    ),
            decreases groups - g,
        {
            let nibble: u8 = self.group_mask(g);
            let mut next: usize = 2 * g;
            let mut pos: usize = 0;
            while pos < 4
                invariant
                    pos <= 4,
                    g < groups,
                    self.wf(),
                    n == shape::prod(self.shape@),
                    groups == n / 4,
                    n % 4 == 0,
                    nibble == nibble_of(self.mask@, g as int),
                    nibble < 16,
                    next == 2 * g + bits_below(nibble as int, pos as int),
                    out@.len() == 4 * g + pos,
                    forall|p: int|
                        0 <= p < 4 * g + pos ==> #[trigger] out@[p] == decompressed_at(
                            self.values@,
                            self.mask@,
                            p,
                        ),
                decreases 4 - pos,
            {
                let bit: u8 = (nibble / place_bit_of(pos)) % 2;
                proof {
                    assert(bits_below(nibble_of(self.mask@, g as int), 4) == 2);
                    lemma_bits_range(nibble as int, pos as int);
                    let p = 4 * g + pos;
                    assert(p / 4 == g && p % 4 == pos);
                }
                if bit == 1 {
                    out.push(self.values[next]);
                    next = next + 1;
                } else {
                    out.push(T::zero());
                }
                pos = pos + 1;
            }
            g = g + 1;
        }
        proof {
            assert(out@ =~= self.elements());
        }
        out
    }

    /// The shape of the dense form.
    pub fn shape(&self) -> (r: &[usize])
        ensures
            r@ == self.shape@,
    {
        self.shape.as_slice()
    }

    /// The kept values.
    pub fn values(&self) -> (r: &[T])
        ensures
            r@ == self.values@,
    {
        self.values.as_slice()
    }

    /// The packed mask.
    pub fn mask(&self) -> (r: &[u8])
        ensures
            r@ == self.mask@,
    {
        self.mask.as_slice()
    }

    /// Number of groups of four.
    pub fn num_groups(&self) -> (r: usize)
        requires
            self.wf(),
        ensures
            r == shape::prod(self.shape@) as int / 4,
    {
        shape::numel(self.shape.as_slice()) / 4
    }

    /// The byte counts of the compressed and of the dense form.
    pub fn byte_counts(&self) -> (r: (u128, u128))
        requires
            self.wf(),
        ensures
            r.0 == self.values@.len() * T::dtype_spec().size_spec() + self.mask@.len(),
            r.1 == shape::prod(self.shape@) * T::dtype_spec().size_spec(),
    {
        let n: u128 = shape::numel(self.shape.as_slice()) as u128;
        let size: u128 = T::dtype().size_of() as u128;
        let v: u128 = self.values.len() as u128;
        proof {
            let s = size as int;
            assert(0 <= v * s <= 0x8_0000_0000_0000_0000 && 0 <= n * s <= 0x8_0000_0000_0000_0000)
                by (nonlinear_arith)
                requires
                    0 <= v <= 0x1_0000_0000_0000_0000,
                    0 <= n <= 0x1_0000_0000_0000_0000,
                    0 <= s <= 8,
            ;
        }
        (v * size + self.mask.len() as u128, n * size)
    }
}

/// What compression keeps of a group of four numbers: two of them in their order, whose
/// bits are the ones set in the group's four bits, the first place in the lowest; neither
/// is smaller in magnitude than one of the two others, and of equal magnitudes the earlier
/// one is kept.
pub proof fn lemma_two_of_four<T: Float>(data: Seq<T>, values: Seq<T>, mask: Seq<u8>, g: int)
    requires
        compressed(data, values, mask),
        0 <= g < data.len() as int / 4,
        forall|i: int| 0 <= i < data.len() ==> !is_nan_spec(#[trigger] data[i]),
    ensures
        ({
            let bits = if g % 2 == 0 {
                mask[g / 2] as int % 16
            } else {
                mask[g / 2] as int / 16
            };
            exists|a: int, b: int|
                #![trigger data[4 * g + a], data[4 * g + b]]
                {
                    &&& 0 <= a < b < 4
                    &&& values[2 * g] == data[4 * g + a]
                    &&& values[2 * g + 1] == data[4 * g + b]
                    &&& bits % 2 == 1 <==> a == 0
                    &&& (bits / 2) % 2 == 1 <==> a == 1 || b == 1
                    &&& (bits / 4) % 2 == 1 <==> a == 2 || b == 2
                    &&& (bits / 8) % 2 == 1 <==> b == 3
                    &&& forall|i: int|
                        #![trigger data[4 * g + i]]
                        0 <= i < 4 && i != a && i != b ==> {
                            let x = data[4 * g + a].magnitude();
                            let y = data[4 * g + b].magnitude();
                            let z = data[4 * g + i].magnitude();
                            &&& !x.below(z)
                            &&& !y.below(z)
                            &&& z.below(x) || a < i
                            &&& z.below(y) || b < i
                        }
                }
        }),
{
    let mags = group_magnitudes(data, g);
    let (a, b) = kept_places(mags);
    lemma_above_zero(data, g);
    let all = mags.push(T::zero_spec().magnitude());
    assert(comparable(mags)) by {
        assert forall|i: int, j: int|
            0 <= i < 4 && 0 <= j < 4 && #[trigger] mags[i].below(mags[j]) implies !mags[j].below(
            mags[i],
        ) by {
            assert(all[i].below(all[j]));
        }
        assert forall|i: int, j: int, k: int|
            0 <= i < 4 && 0 <= j < 4 && 0 <= k < 4 && !#[trigger] mags[i].below(mags[j])
                && !#[trigger] mags[j].below(mags[k]) implies !mags[i].below(mags[k]) by {
            assert(!all[i].below(all[j]) && !all[j].below(all[k]));
        }
    }
    lemma_kept_places(mags);
    lemma_two_bits(a, b);
    assert(holds_group(data, values, mask, g));
    let bits = nibble_of(mask, g);
    assert(has_bit(bits, 0) <==> a == 0);
    assert(has_bit(bits, 1) <==> (a == 1 || b == 1));
    assert(has_bit(bits, 2) <==> (a == 2 || b == 2));
    assert(has_bit(bits, 3) <==> b == 3);
    assert(mags[a] == data[4 * g + a].magnitude());
    assert(mags[b] == data[4 * g + b].magnitude());
    assert forall|i: int| #![trigger data[4 * g + i]] 0 <= i < 4 && i != a && i != b implies {
        let x = data[4 * g + a].magnitude();
        let y = data[4 * g + b].magnitude();
        let z = data[4 * g + i].magnitude();
        &&& !x.below(z)
        &&& !y.below(z)
        &&& z.below(x) || a < i
        &&& z.below(y) || b < i
    } by {
        assert(mags[i] == data[4 * g + i].magnitude());
        assert(outranks(mags, a, i) && outranks(mags, b, i));
        if mags[i].below(mags[a]) {
            assert(!mags[a].below(mags[i]));
        }
        if mags[i].below(mags[b]) {
            assert(!mags[b].below(mags[i]));
        }
    }
}

/// What compression keeps of any group of four: the two that are first in the ranking of
/// their magnitudes, in the order in which they stand.
pub proof fn lemma_first_ranked_kept<T: Float>(
    data: Seq<T>,
    values: Seq<T>,
    mask: Seq<u8>,
    g: int,
)
    requires
        compressed(data, values, mask),
        0 <= g < data.len() as int / 4,
    ensures
        ({
            let order = ranking(
                seq![
                    data[4 * g].magnitude(),
                    data[4 * g + 1].magnitude(),
                    data[4 * g + 2].magnitude(),
                    data[4 * g + 3].magnitude(),
                ],
                4,
            );
            let a = if order[0] < order[1] {
                order[0]
            } else {
                order[1]
            };
            let b = if order[0] < order[1] {
                order[1]
            } else {
                order[0]
            };
            &&& 0 <= a < b < 4
            &&& values[2 * g] == data[4 * g + a]
            &&& values[2 * g + 1] == data[4 * g + b]
        }),
{
    let mags = group_magnitudes(data, g);
    assert(mags =~= seq![
        data[4 * g].magnitude(),
        data[4 * g + 1].magnitude(),
        data[4 * g + 2].magnitude(),
        data[4 * g + 3].magnitude(),
    ]);
    lemma_kept_places(mags);
    assert(holds_group(data, values, mask, g));
}

/// What decompression gives at each place of a group, from the group's four bits: zero
/// where the bit of the place is not set, and else the first value of the group, or the
/// second where a bit below is set.
pub proof fn lemma_decompressed_group<T: Float>(
    values: Seq<T>,
    mask: Seq<u8>,
    n: nat,
    g: int,
)
    requires
        0 <= g,
        4 * g + 4 <= n,
        bits_below(nibble_of(mask, g), 4) == 2,
    ensures
        ({
            let bits = if g % 2 == 0 {
                mask[g / 2] as int % 16
            } else {
                mask[g / 2] as int / 16
            };
            let b0 = bits % 2 == 1;
            let b1 = (bits / 2) % 2 == 1;
            let b2 = (bits / 4) % 2 == 1;
            let b3 = (bits / 8) % 2 == 1;
            let out = decompressed(values, mask, n);
            let first = values[2 * g];
            let second = values[2 * g + 1];
            let zero = T::zero_spec();
            &&& out[4 * g] == if b0 {
                first
            } else {
                zero
            }
            &&& out[4 * g + 1] == if !b1 {
                zero
            } else if b0 {
                second
            } else {
                first
            }
            &&& out[4 * g + 2] == if !b2 {
                zero
            } else if b0 || b1 {
                second
            } else {
                first
            }
            &&& out[4 * g + 3] == if b3 {
                second
            } else {
                zero
            }
        }),
{
    reveal_with_fuel(bits_below, 5);
    let bits = nibble_of(mask, g);
    assert(has_bit(bits, 0) == (bits % 2 == 1));
    assert(has_bit(bits, 1) == ((bits / 2) % 2 == 1));
    assert(has_bit(bits, 2) == ((bits / 4) % 2 == 1));
    assert(has_bit(bits, 3) == ((bits / 8) % 2 == 1));
    assert((4 * g) / 4 == g && (4 * g) % 4 == 0);
    assert((4 * g + 1) / 4 == g && (4 * g + 1) % 4 == 1);
    assert((4 * g + 2) / 4 == g && (4 * g + 2) % 4 == 2);
    assert((4 * g + 3) / 4 == g && (4 * g + 3) % 4 == 3);
}

/// Compression and decompression together: of every group of four numbers two come back
/// at their places and the two others as zero, and no number that comes back is smaller in
/// magnitude than one that does not.
pub proof fn lemma_pruned<T: Float>(data: Seq<T>, values: Seq<T>, mask: Seq<u8>, g: int)
    requires
        compressed(data, values, mask),
        data.len() % 4 == 0,
        0 <= g < data.len() as int / 4,
        forall|i: int| 0 <= i < data.len() ==> !is_nan_spec(#[trigger] data[i]),
    ensures
        ({
            let out = decompressed(values, mask, data.len());
            exists|a: int, b: int|
                #![trigger data[4 * g + a], data[4 * g + b]]
                {
                    &&& 0 <= a < b < 4
                    &&& out[4 * g + a] == data[4 * g + a]
                    &&& out[4 * g + b] == data[4 * g + b]
                    &&& forall|i: int|
                        #![trigger data[4 * g + i]]
                        0 <= i < 4 && i != a && i != b ==> {
                            &&& out[4 * g + i] == T::zero_spec()
                            &&& !data[4 * g + a].magnitude().below(data[4 * g + i].magnitude())
                            &&& !data[4 * g + b].magnitude().below(data[4 * g + i].magnitude())
                        }
                }
        }),
{
    lemma_two_of_four(data, values, mask, g);
    let mags = group_magnitudes(data, g);
    let (c, d) = kept_places(mags);
    lemma_kept_places(mags);
    lemma_two_bits(c, d);
    assert(holds_group(data, values, mask, g));
    lemma_decompressed_group(values, mask, data.len(), g);
}

/// A shape whose innermost dimension is a multiple of four has whole groups.
pub proof fn lemma_whole_groups(sh: Seq<usize>)
    requires
        sh.len() > 0,
        sh.last() % 4 == 0,
    ensures
        shape::prod(sh) % 4 == 0,
{
    let a = shape::prod(sh.drop_last()) as int;
    let q = sh.last() as int / 4;
    assert(sh.last() == 4 * q);
    assert(a * (4 * q) == 4 * (a * q)) by (nonlinear_arith);
    assert((4 * (a * q)) % 4 == 0);
    assert(shape::prod(sh) == a * (4 * q));
}

} // verus!
