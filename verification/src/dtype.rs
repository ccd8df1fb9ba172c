//! Element types.
//!
//! [`Float`] is what the algorithms of this crate need of an element: a zero,
//! a one and a value that is not a number, the four operations, magnitude, order and equality. Every
//! operation is a total function of its operands, so the contracts of the
//! crate say exactly which operations are applied, to what, and in which order.
//! The few laws of arithmetic that it states are such that a rounded number
//! system has them.

use vstd::prelude::*;

verus! {

/// A floating-point element type.
///
/// The `_spec` functions are the mathematical operations; each executable
/// method computes the operation of the same name.
pub trait Float: Copy + Sized {
    /// The name of the element type.
    spec fn dtype_spec() -> DType;

    spec fn zero_spec() -> Self;

    spec fn one_spec() -> Self;

    spec fn plus(self, rhs: Self) -> Self;

    spec fn minus(self, rhs: Self) -> Self;

    spec fn times(self, rhs: Self) -> Self;

    spec fn over(self, rhs: Self) -> Self;

    spec fn magnitude(self) -> Self;

    /// What is not a number.
    spec fn nan_spec() -> Self;

    /// The number nearest to `n`.
    spec fn nearest(n: usize) -> Self;

    /// `self < rhs` in the numeric order; false if either is not a number.
    spec fn below(self, rhs: Self) -> bool;

    /// Numeric equality: the two zeros are equal, and what is not a number
    /// equals nothing.
    spec fn same(self, rhs: Self) -> bool;

    /// Numbers are ordered: of two at most one is below the other, they are the same where
    /// neither is, and not being below is transitive.
    proof fn lemma_order(a: Self, b: Self, c: Self)
        requires
            a.same(a),
            b.same(b),
            c.same(c),
        ensures
            a.below(b) ==> !b.below(a),
            !a.below(b) && !b.below(a) ==> a.same(b),
            !a.below(b) && !b.below(c) ==> !a.below(c),
    ;

    /// The magnitude of a number is a number that is not below zero, and that zero is
    /// below of, but for the magnitude of a zero.
    proof fn lemma_magnitude(x: Self)
        requires
            x.same(x),
        ensures
            x.magnitude().same(x.magnitude()),
            !x.magnitude().below(Self::zero_spec().magnitude()),
            !Self::zero_spec().below(x.magnitude()) ==> Self::zero_spec().same(x),
    ;

    /// Adding a number to zero gives that number.
    proof fn lemma_zero_plus(x: Self)
        requires
            x.same(x),
        ensures
            Self::zero_spec().same(Self::zero_spec()),
            Self::zero_spec().plus(x).same(x),
    ;

    /// One and minus one are numbers, and these small sums, products and differences of
    /// them are exact: `2 * 1 - 1`, `2 * -1 * -1 - 1` and `2 * -1 * 1 - -1`.
    proof fn lemma_units()
        ensures
            ({
                let one = Self::one_spec();
                let minus_one = Self::zero_spec().minus(one);
                &&& one.same(one)
                &&& minus_one.same(minus_one)
                &&& one.plus(one).times(one).minus(one) == one
                &&& minus_one.plus(minus_one).times(minus_one).minus(one) == one
                &&& minus_one.plus(minus_one).times(one).minus(minus_one) == minus_one
            }),
    ;

    fn dtype() -> (r: DType)
        ensures
            r == Self::dtype_spec(),
    ;

    fn zero() -> (r: Self)
        ensures
            r == Self::zero_spec(),
    ;

    fn one() -> (r: Self)
        ensures
            r == Self::one_spec(),
    ;

    fn nan() -> (r: Self)
        ensures
            r == Self::nan_spec(),
            !r.same(r),
    ;

    fn add(self, rhs: Self) -> (r: Self)
        ensures
            r == self.plus(rhs),
    ;

    fn sub(self, rhs: Self) -> (r: Self)
        ensures
            r == self.minus(rhs),
    ;

    fn mul(self, rhs: Self) -> (r: Self)
        ensures
            r == self.times(rhs),
    ;

    fn div(self, rhs: Self) -> (r: Self)
        ensures
            r == self.over(rhs),
    ;

    fn abs(self) -> (r: Self)
        ensures
            r == self.magnitude(),
    ;

    fn from_usize(n: usize) -> (r: Self)
        ensures
            r == Self::nearest(n),
    ;

    fn is_below(self, rhs: Self) -> (r: bool)
        ensures
            r == self.below(rhs),
    ;

    fn is_same(self, rhs: Self) -> (r: bool)
        ensures
            r == self.same(rhs),
    ;
}

/// `x` compares equal to zero.
pub open spec fn is_zero_spec<T: Float>(x: T) -> bool {
    x.same(T::zero_spec())
}

/// Whether `x` compares equal to zero.
pub fn is_zero<T: Float>(x: T) -> (r: bool)
    ensures
        r == is_zero_spec(x),
{
    x.is_same(T::zero())
}

/// `x` is not a number: it does not equal itself.
pub open spec fn is_nan_spec<T: Float>(x: T) -> bool {
    !x.same(x)
}

/// Whether `x` is not a number.
pub fn is_nan<T: Float>(x: T) -> (r: bool)
    ensures
        r == is_nan_spec(x),
{
    !x.is_same(x)
}

/// The element types a tensor can have.
#[derive(Clone, Copy, Debug, PartialEq, Eq, Structural)]
pub enum DType {
    F32,
    F64,
    F16,
    BF16,
}

impl DType {
    pub open spec fn size_spec(self) -> nat {
        match self {
            DType::F32 => 4,
            DType::F64 => 8,
            DType::F16 => 2,
            DType::BF16 => 2,
        }
    }

    /// Bytes per element.
    pub fn size_of(self) -> (r: usize)
        ensures
            r == self.size_spec(),
    {
        match self {
            DType::F32 => 4,
            DType::F64 => 8,
            DType::F16 => 2,
            DType::BF16 => 2,
        }
    }
}

} // verus!
