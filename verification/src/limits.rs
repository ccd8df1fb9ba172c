//! Whether shapes and views keep within machine limits. Most operations ask for it;
//! a caller that does not know finds out here.

use crate::dtype::Float;
use crate::format::format_fits;
use crate::shape;
use crate::strided;
use crate::tensor::{MemoryFormat, Tensor};
use vstd::prelude::*;

verus! {

/// Whether the element count and every stride of a dense tensor of this shape are
/// machine integers.
pub fn fits_shape(sh: &[usize]) -> (r: bool)
    ensures
        r == shape::shape_fits(sh@),
{
    let n: usize = sh.len();
    let mut prefix: usize = 1;
    let mut d: usize = 0;
    while d < n
        invariant
            d <= n,
            n == sh@.len(),
            prefix == shape::prod(sh@.take(d as int)),
            forall|e: int| 0 <= e <= d ==> #[trigger] shape::prod(sh@.take(e)) <= usize::MAX,
        decreases n - d,
    {
        proof {
            assert(sh@.take(d + 1).drop_last() =~= sh@.take(d as int));
            assert(sh@.take(d + 1).last() == sh@[d as int]);
        }
        match prefix.checked_mul(sh[d]) {
            None => {
                proof {
                    assert(shape::prod(sh@.take(d + 1)) > usize::MAX);
                }
                return false;
            },
            Some(p) => {
                prefix = p;
            },
        }
        d = d + 1;
    }
    let mut suffix: usize = 1;
    proof {
        assert(sh@.subrange(n as int, n as int) =~= Seq::<usize>::empty());
        assert(shape::suffix_prod(sh@, n as int) == 1);
    }
    while d > 0
        invariant
            d <= n,
            n == sh@.len(),
            suffix == shape::suffix_prod(sh@, d as int),
            forall|e: int| d <= e <= n ==> #[trigger] shape::suffix_prod(sh@, e) <= isize::MAX,
            shape::prods_fit(sh@),
        decreases d,
    {
        d = d - 1;
        proof {
            shape::lemma_suffix_prod_step(sh@, d as int);
        }
        match sh[d].checked_mul(suffix) {
            None => {
                proof {
                    assert(shape::suffix_prod(sh@, d as int) > isize::MAX);
                }
                return false;
            },
            Some(p) => {
                if p > isize::MAX as usize {
                    proof {
                        assert(shape::suffix_prod(sh@, d as int) > isize::MAX);
                    }
                    return false;
                }
                suffix = p;
            },
        }
    }
    true
}

/// Whether every position on the way through a view is an `i64`.
pub fn fits_reach(sh: &[usize], strides: &[isize], base: usize) -> (r: bool)
    requires
        sh@.len() == strides@.len(),
    ensures
        r == strided::reach_fits(sh@, strides@, base as int),
{
    if strided::has_empty_dim(sh) {
        return true;
    }
    let mut lo: i128 = 0;
    let mut hi: i128 = base as i128;
    let mut d: usize = 0;
    if hi > i64::MAX as i128 {
        proof {
            strided::lemma_extent_signs(sh@, strides@);
        }
        return false;
    }
    while d < sh.len()
        invariant
            d <= sh@.len(),
            sh@.len() == strides@.len(),
            !strided::is_empty_shape(sh@),
            lo == strided::low_extent(sh@.take(d as int), strides@.take(d as int)),
            hi == base + strided::high_extent(sh@.take(d as int), strides@.take(d as int)),
            i64::MIN <= lo <= 0,
            0 <= hi <= i64::MAX,
        decreases sh.len() - d,
    {
        proof {
            assert(sh@.take(d + 1).drop_last() =~= sh@.take(d as int));
            assert(strides@.take(d + 1).drop_last() =~= strides@.take(d as int));
            assert(sh@[d as int] != 0);
            strided::lemma_extent_prefix(sh@, strides@, d + 1);
        }
        let last: i128 = wide_span(sh[d], strides[d]);
        if last >= 0 {
            if last > i64::MAX as i128 - hi {
                return false;
            }
            hi = hi + last;
        } else {
            if last < i64::MIN as i128 - lo {
                return false;
            }
            lo = lo + last;
        }
        d = d + 1;
    }
    proof {
        assert(sh@.take(d as int) =~= sh@);
        assert(strides@.take(d as int) =~= strides@);
    }
    true
}

/// Whether every element of a view stands within storage of `len` elements.
pub fn fits_view(sh: &[usize], strides: &[isize], offset: usize, len: usize) -> (r: bool)
    ensures
        r == (strided::within(sh@, strides@, offset as int, len as int) && strided::reach_fits(
            sh@,
            strides@,
            offset as int,
        )),
{
    if sh.len() != strides.len() || !fits_reach(sh, strides, offset) {
        return false;
    }
    if strided::has_empty_dim(sh) {
        return true;
    }
    proof {
        strided::lemma_extent_signs(sh@, strides@);
    }
    let (lo, hi): (i64, i64) = strided::reachable_span(sh, strides, offset);
    lo >= 0 && (hi as u64) < len as u64
}

/// `(size - 1) * stride`.
fn wide_span(size: usize, stride: isize) -> (r: i128)
    requires
        size > 0,
    ensures
        r == strided::span(size, stride),
{
    proof {
        let n = size - 1;
        let s = stride as int;
        assert(-0x8000_0000_0000_0000 * 0xFFFF_FFFF_FFFF_FFFF <= n * s
            <= 0x7FFF_FFFF_FFFF_FFFF * 0xFFFF_FFFF_FFFF_FFFF) by (nonlinear_arith)
            requires
                0 <= n <= 0xFFFF_FFFF_FFFF_FFFF,
                -0x8000_0000_0000_0000 <= s <= 0x7FFF_FFFF_FFFF_FFFF,
        ;
    }
    ((size - 1) as i128) * (stride as i128)
}

/// `size * stride`, if it is a stride.
fn next_stride(size: usize, stride: usize) -> (r: Option<usize>)
    ensures
        match r {
            Some(p) => p == size * stride && p <= isize::MAX,
            None => size * stride > isize::MAX,
        },
{
    match size.checked_mul(stride) {
        Some(p) if p <= isize::MAX as usize => Some(p),
        _ => None,
    }
}

/// Whether the strides that a format gives a shape are machine integers.
pub fn fits_format(format: MemoryFormat, sh: &[usize]) -> (r: bool)
    ensures
        r == format_fits(format, sh@),
{
    let behind: usize = match format {
        MemoryFormat::Contiguous => return true,
        MemoryFormat::ChannelsLast => 4,
        MemoryFormat::ChannelsLast3d => 5,
    };
    if sh.len() != behind {
        return true;
    }
    proof {
        if behind == 4 {
            let s = shape::channels_last_spec(sh@);
            assert(s[0] == s[0] && s[1] == 1 && s[2] == s[2] && s[3] == s[3]);
        } else {
            let s = shape::channels_last_3d_spec(sh@);
            assert(s[0] == s[0] && s[1] == 1 && s[2] == s[2] && s[3] == s[3] && s[4] == s[4]);
        }
    }
    if sh[1] > isize::MAX as usize {
        return false;
    }
    let mut stride: usize = sh[1];
    if behind == 5 {
        stride = match next_stride(sh[4], stride) {
            Some(p) => p,
            None => return false,
        };
    }
    stride = match next_stride(sh[3], stride) {
        Some(p) => p,
        None => return false,
    };
    match next_stride(sh[2], stride) {
        Some(_) => true,
        None => false,
    }
}

impl<T: Float> Tensor<T> {
    /// Whether the tensor is well formed and every element of it stands within the
    /// storage.
    pub fn is_valid(&self) -> (r: bool)
        requires
            self.inner.storage.wf(),
        ensures
            r == (self.wf() && self.in_bounds()),
    {
        fits_shape(self.shape()) && fits_view(
            self.shape(),
            self.strides(),
            self.storage_offset(),
            self.storage_len(),
        )
    }
}

} // verus!
