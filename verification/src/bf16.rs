//! The brain floating-point element type, stored by its bits.
//!
//! The arithmetic is that of the `half` crate. Its result is not fixed to the
//! bit where it is not a number (the payload may differ between machines), so
//! [`Bf16`] keeps a single such value, [`NAN_BITS`].

use crate::dtype::{DType, Float};
use vstd::prelude::*;

verus! {

/// The only bit pattern of a [`Bf16`] that is not a number.
pub const NAN_BITS: u16 = 0x7FC0;

/// `bits` has all exponent bits set and a non-zero mantissa.
pub open spec fn nan_bits(bits: u16) -> bool {
    0x7F80 < bits < 0x8000 || 0xFF80 < bits
}

/// `bits` with every pattern that is not a number replaced by [`NAN_BITS`].
pub open spec fn canonical(bits: u16) -> u16 {
    if nan_bits(bits) {
        NAN_BITS
    } else {
        bits
    }
}

/// The position of a number on the number line: the patterns with the sign bit
/// set run downwards from zero.
pub open spec fn rank(bits: u16) -> int {
    if bits < 0x8000 {
        bits as int
    } else {
        0x8000 - bits
    }
}

/// The bits of one.
pub const ONE_BITS: u16 = 0x3F80;

/// The bits of two.
pub const TWO_BITS: u16 = 0x4000;

/// The bits of minus one.
pub const MINUS_ONE_BITS: u16 = 0xBF80;

/// The bits of minus two.
pub const MINUS_TWO_BITS: u16 = 0xC000;

/// The bits of the number of the other sign.
pub open spec fn flipped(bits: u16) -> u16 {
    if bits < 0x8000 {
        (bits + 0x8000) as u16
    } else {
        (bits - 0x8000) as u16
    }
}

/// The bits of the sum that `half` computes for two canonical patterns, made canonical.
pub uninterp spec fn bf16_sum(a: u16, b: u16) -> u16;

/// The bits of the difference that `half` computes for two canonical patterns, made canonical.
pub uninterp spec fn bf16_difference(a: u16, b: u16) -> u16;

/// The bits of the product that `half` computes for two canonical patterns, made canonical.
pub uninterp spec fn bf16_product(a: u16, b: u16) -> u16;

/// The bits of the quotient that `half` computes for two canonical patterns, made canonical.
pub uninterp spec fn bf16_quotient(a: u16, b: u16) -> u16;

/// The bits of the number that `half` makes of an integer.
pub uninterp spec fn bf16_nearest(n: usize) -> u16;

/// The bits of a sum: a number added to zero stays as it is, but that the sum of both
/// zeros is positive; one and one are two, minus one and minus one are minus two; any
/// other sum is `other`.
pub open spec fn sum_bits(a: u16, b: u16, other: u16) -> u16 {
    if a == 0 && !nan_bits(b) {
        if b == 0x8000 {
            0
        } else {
            b
        }
    } else if a == ONE_BITS && b == ONE_BITS {
        TWO_BITS
    } else if a == MINUS_ONE_BITS && b == MINUS_ONE_BITS {
        MINUS_TWO_BITS
    } else {
        other
    }
}

/// The bits of a difference: zero less one is minus one, two less one is one, minus two
/// less minus one is minus one; any other difference is `other`.
pub open spec fn difference_bits(a: u16, b: u16, other: u16) -> u16 {
    if a == 0 && b == ONE_BITS {
        MINUS_ONE_BITS
    } else if a == TWO_BITS && b == ONE_BITS {
        ONE_BITS
    } else if a == MINUS_TWO_BITS && b == MINUS_ONE_BITS {
        MINUS_ONE_BITS
    } else {
        other
    }
}

/// The bits of a product: a number times one stays as it is, a number times minus one
/// changes its sign; any other product is `other`.
pub open spec fn product_bits(a: u16, b: u16, other: u16) -> u16 {
    if !nan_bits(a) && b == ONE_BITS {
        a
    } else if !nan_bits(a) && b == MINUS_ONE_BITS {
        flipped(a)
    } else {
        other
    }
}

/// `+` of `half::bf16`, which adds the operands as `f32` and rounds the sum: up to the
/// payload of a result that is not a number, a function of the operands, and exact in
/// the cases of [`sum_bits`].
#[verifier::external_body]
fn half_add(a: u16, b: u16) -> (r: u16)
    requires
        canonical(a) == a,
        canonical(b) == b,
    ensures
        canonical(r) == sum_bits(a, b, bf16_sum(a, b)),
{
    (half::bf16::from_bits(a) + half::bf16::from_bits(b)).to_bits()
}

/// `-` of `half::bf16`, which subtracts the operands as `f32` and rounds the difference:
/// up to the payload of a result that is not a number, a function of the operands, and
/// exact in the cases of [`difference_bits`].
#[verifier::external_body]
fn half_sub(a: u16, b: u16) -> (r: u16)
    requires
        canonical(a) == a,
        canonical(b) == b,
    ensures
        canonical(r) == difference_bits(a, b, bf16_difference(a, b)),
{
    (half::bf16::from_bits(a) - half::bf16::from_bits(b)).to_bits()
}

/// `*` of `half::bf16`, which multiplies the operands as `f32` and rounds the product:
/// up to the payload of a result that is not a number, a function of the operands, and
/// exact in the cases of [`product_bits`].
#[verifier::external_body]
fn half_mul(a: u16, b: u16) -> (r: u16)
    requires
        canonical(a) == a,
        canonical(b) == b,
    ensures
        canonical(r) == product_bits(a, b, bf16_product(a, b)),
{
    (half::bf16::from_bits(a) * half::bf16::from_bits(b)).to_bits()
}

/// `/` of `half::bf16`: up to the payload of a result that is not a number, a
/// function of the operands. Division by zero gives an infinity or not a number.
#[verifier::external_body]
fn half_div(a: u16, b: u16) -> (r: u16)
    requires
        canonical(a) == a,
        canonical(b) == b,
    ensures
        canonical(r) == bf16_quotient(a, b),
{
    (half::bf16::from_bits(a) / half::bf16::from_bits(b)).to_bits()
}

/// `num_traits::Float::abs` of `half::bf16`: clears the sign bit.
#[verifier::external_body]
fn half_abs(a: u16) -> (r: u16)
    requires
        canonical(a) == a,
    ensures
        r as int == (if a < 0x8000 {
            a as int
        } else {
            a - 0x8000
        }),
{
    num_traits::Float::abs(half::bf16::from_bits(a)).to_bits()
}

/// `num_traits::Zero::zero` of `half::bf16`: positive zero.
#[verifier::external_body]
fn half_zero() -> (r: u16)
    ensures
        r == 0,
{
    let zero: half::bf16 = num_traits::Zero::zero();
    zero.to_bits()
}

/// `num_traits::One::one` of `half::bf16`: sign clear, exponent at its bias, mantissa zero.
#[verifier::external_body]
fn half_one() -> (r: u16)
    ensures
        r == 0x3F80,
{
    let one: half::bf16 = num_traits::One::one();
    one.to_bits()
}

/// `num_traits::Float::nan` of `half::bf16`: a pattern that is not a number.
#[verifier::external_body]
fn half_nan() -> (r: u16)
    ensures
        nan_bits(r),
{
    let nan: half::bf16 = num_traits::Float::nan();
    nan.to_bits()
}

/// `num_traits::FromPrimitive::from_usize` of `half::bf16`, which is `Some` for
/// every integer and depends on that integer alone.
#[verifier::external_body]
fn half_from_usize(n: usize) -> (r: Option<u16>)
    ensures
        r == Some(bf16_nearest(n)),
{
    let x: Option<half::bf16> = num_traits::FromPrimitive::from_usize(n);
    x.map(|v| v.to_bits())
}

/// `<` of `half::bf16`: the numeric order, false where an operand is not a number.
#[verifier::external_body]
fn half_lt(a: u16, b: u16) -> (r: bool)
    ensures
        r == (!nan_bits(a) && !nan_bits(b) && rank(a) < rank(b)),
{
    half::bf16::from_bits(a) < half::bf16::from_bits(b)
}

/// `==` of `half::bf16`: numeric equality, false where an operand is not a number.
#[verifier::external_body]
fn half_eq(a: u16, b: u16) -> (r: bool)
    ensures
        r == (!nan_bits(a) && !nan_bits(b) && rank(a) == rank(b)),
{
    half::bf16::from_bits(a) == half::bf16::from_bits(b)
}

/// `bits` in canonical form.
fn canonicalize(bits: u16) -> (r: u16)
    ensures
        r == canonical(bits),
        canonical(r) == r,
{
    if (0x7F80 < bits && bits < 0x8000) || 0xFF80 < bits {
        NAN_BITS
    } else {
        bits
    }
}

/// A brain floating-point number: one sign bit, eight exponent bits, seven
/// mantissa bits.
#[derive(Clone, Copy, Debug, PartialEq, Eq, Structural)]
pub struct Bf16 {
    bits: u16,
}

impl Bf16 {
    pub closed spec fn bits_spec(self) -> u16 {
        self.bits
    }

    #[verifier::type_invariant]
    spec fn is_canonical(self) -> bool {
        canonical(self.bits) == self.bits
    }

    /// The number with these bits.
    pub fn from_bits(bits: u16) -> (r: Self)
        ensures
            r.bits_spec() == canonical(bits),
    {
        Bf16 { bits: canonicalize(bits) }
    }

    /// The bits of the number.
    pub fn to_bits(self) -> (r: u16)
        ensures
            r == self.bits_spec(),
            canonical(r) == r,
    {
        proof {
            use_type_invariant(&self);
        }
        self.bits
    }
}

/// The [`Bf16`] whose bits are the canonical form of `bits`.
pub closed spec fn bf16_of(bits: u16) -> Bf16 {
    Bf16 { bits: canonical(bits) }
}

/// The bits of [`bf16_of`].
pub proof fn lemma_bf16_bits(bits: u16)
    ensures
        bf16_of(bits).bits_spec() == canonical(bits),
{
}

/// A [`Bf16`] is determined by its bits.
pub proof fn lemma_bf16_equal(a: Bf16, b: Bf16)
    requires
        a.bits_spec() == b.bits_spec(),
    ensures
        a == b,
{
}

impl Float for Bf16 {
    open spec fn dtype_spec() -> DType {
        DType::BF16
    }

    open spec fn zero_spec() -> Self {
        bf16_of(0)
    }

    open spec fn one_spec() -> Self {
        bf16_of(ONE_BITS)
    }

    open spec fn nan_spec() -> Self {
        bf16_of(NAN_BITS)
    }

    open spec fn plus(self, rhs: Self) -> Self {
        let (a, b) = (self.bits_spec(), rhs.bits_spec());
        bf16_of(sum_bits(a, b, bf16_sum(a, b)))
    }

    open spec fn minus(self, rhs: Self) -> Self {
        let (a, b) = (self.bits_spec(), rhs.bits_spec());
        bf16_of(difference_bits(a, b, bf16_difference(a, b)))
    }

    open spec fn times(self, rhs: Self) -> Self {
        let (a, b) = (self.bits_spec(), rhs.bits_spec());
        bf16_of(product_bits(a, b, bf16_product(a, b)))
    }

    open spec fn over(self, rhs: Self) -> Self {
        bf16_of(bf16_quotient(self.bits_spec(), rhs.bits_spec()))
    }

    open spec fn magnitude(self) -> Self {
        if self.bits_spec() < 0x8000 {
            self
        } else {
            bf16_of((self.bits_spec() - 0x8000) as u16)
        }
    }

    open spec fn nearest(n: usize) -> Self {
        bf16_of(bf16_nearest(n))
    }

    open spec fn below(self, rhs: Self) -> bool {
        !nan_bits(self.bits_spec()) && !nan_bits(rhs.bits_spec()) && rank(self.bits_spec()) < rank(
            rhs.bits_spec(),
        )
    }

    open spec fn same(self, rhs: Self) -> bool {
        !nan_bits(self.bits_spec()) && !nan_bits(rhs.bits_spec()) && rank(self.bits_spec()) == rank(
            rhs.bits_spec(),
        )
    }

    proof fn lemma_order(a: Self, b: Self, c: Self) {
    }

    proof fn lemma_magnitude(x: Self) {
        lemma_bf16_bits(0);
        if x.bits_spec() >= 0x8000 {
            lemma_bf16_bits((x.bits_spec() - 0x8000) as u16);
        }
    }

    proof fn lemma_zero_plus(x: Self) {
        lemma_bf16_bits(0);
        lemma_bf16_bits(x.bits_spec());
    }

    proof fn lemma_units() {
        lemma_bf16_bits(0);
        lemma_bf16_bits(ONE_BITS);
        lemma_bf16_bits(TWO_BITS);
        lemma_bf16_bits(MINUS_ONE_BITS);
        lemma_bf16_bits(MINUS_TWO_BITS);
    }

    fn dtype() -> (r: DType) {
        DType::BF16
    }

    fn zero() -> (r: Self) {
        Bf16 { bits: half_zero() }
    }

    fn one() -> (r: Self) {
        Bf16 { bits: half_one() }
    }

    fn nan() -> (r: Self) {
        Bf16 { bits: canonicalize(half_nan()) }
    }

    fn add(self, rhs: Self) -> (r: Self) {
        proof {
            use_type_invariant(&self);
            use_type_invariant(&rhs);
        }
        Bf16 { bits: canonicalize(half_add(self.bits, rhs.bits)) }
    }

    fn sub(self, rhs: Self) -> (r: Self) {
        proof {
            use_type_invariant(&self);
            use_type_invariant(&rhs);
        }
        Bf16 { bits: canonicalize(half_sub(self.bits, rhs.bits)) }
    }

    fn mul(self, rhs: Self) -> (r: Self) {
        proof {
            use_type_invariant(&self);
            use_type_invariant(&rhs);
        }
        Bf16 { bits: canonicalize(half_mul(self.bits, rhs.bits)) }
    }

    fn div(self, rhs: Self) -> (r: Self) {
        proof {
            use_type_invariant(&self);
            use_type_invariant(&rhs);
        }
        Bf16 { bits: canonicalize(half_div(self.bits, rhs.bits)) }
    }

    fn abs(self) -> (r: Self) {
        proof {
            use_type_invariant(&self);
        }
        Bf16 { bits: half_abs(self.bits) }
    }

    fn from_usize(n: usize) -> (r: Self) {
        match half_from_usize(n) {
            Some(bits) => Bf16 { bits: canonicalize(bits) },
            None => Bf16 { bits: 0 },
        }
    }

    fn is_below(self, rhs: Self) -> (r: bool) {
        half_lt(self.bits, rhs.bits)
    }

    fn is_same(self, rhs: Self) -> (r: bool) {
        half_eq(self.bits, rhs.bits)
    }
}

/// The sum, difference, product and quotient are those that `half` computes of the bits,
/// but for the few that are fixed: nothing else of an operand, such as its sign, is lost
/// or added.
pub proof fn lemma_bf16_arithmetic(x: Bf16, y: Bf16)
    ensures
        ({
            let (a, b) = (x.bits_spec(), y.bits_spec());
            &&& a != 0 && !(a == ONE_BITS && b == ONE_BITS) && !(a == MINUS_ONE_BITS && b
                == MINUS_ONE_BITS) ==> x.plus(y).bits_spec() == canonical(bf16_sum(a, b))
            &&& a == 0 && !nan_bits(b) && b != 0x8000 ==> x.plus(y) == y
            &&& a == ONE_BITS && b == ONE_BITS ==> x.plus(y).bits_spec() == TWO_BITS
            &&& !(a == 0 && b == ONE_BITS) && !(a == TWO_BITS && b == ONE_BITS) && !(a
                == MINUS_TWO_BITS && b == MINUS_ONE_BITS) ==> x.minus(y).bits_spec() == canonical(
                bf16_difference(a, b),
            )
            &&& a == TWO_BITS && b == ONE_BITS ==> x.minus(y).bits_spec() == ONE_BITS
            &&& nan_bits(a) || (b != ONE_BITS && b != MINUS_ONE_BITS) ==> x.times(y).bits_spec()
                == canonical(bf16_product(a, b))
            &&& !nan_bits(a) && b == ONE_BITS ==> x.times(y) == x
            &&& x.over(y).bits_spec() == canonical(bf16_quotient(a, b))
        }),
{
}

/// The order of numbers by their bits: two without a sign bit as their bits, two with one
/// the other way round, and one with it below one without it, but that the two zeros are
/// equal.
pub proof fn lemma_bf16_order(x: Bf16, y: Bf16)
    requires
        !nan_bits(x.bits_spec()),
        !nan_bits(y.bits_spec()),
    ensures
        ({
            let (a, b) = (x.bits_spec(), y.bits_spec());
            &&& a < 0x8000 && b < 0x8000 ==> (x.below(y) <==> a < b)
            &&& a >= 0x8000 && b >= 0x8000 ==> (x.below(y) <==> b < a)
            &&& a >= 0x8000 && b < 0x8000 ==> (x.below(y) <==> !(a == 0x8000 && b == 0))
            &&& a < 0x8000 && b >= 0x8000 ==> !x.below(y)
            &&& x.same(y) <==> a == b || ((a == 0 || a == 0x8000) && (b == 0 || b == 0x8000))
        }),
{
}

/// The magnitude of a number has its bits without the sign bit; what is not a number is
/// equal to nothing and below nothing.
pub proof fn lemma_bf16_magnitude(x: Bf16, y: Bf16)
    ensures
        !nan_bits(x.bits_spec()) ==> x.magnitude().bits_spec() == x.bits_spec() % 0x8000,
        nan_bits(x.bits_spec()) ==> !x.same(y) && !y.same(x) && !x.below(y) && !y.below(x),
{
}

} // verus!
