//! The arithmetic that the solver asks of its numbers.
//!
//! The solver never looks inside a number. It combines numbers through the
//! operations of [`Scalar`], and its contracts say which operations are
//! applied to which values, in which order. What an operation computes, and
//! how it rounds, belongs to the type that implements the trait.

use vstd::prelude::*;

verus! {

/// A number the solver can compute with.
///
/// Every operation is total and is a function of its operands: the spec
/// function beside it names its result.
pub trait Scalar: Copy + Sized {
    /// The result of `zero`.
    spec fn spec_zero() -> Self;

    /// The result of `one`.
    spec fn spec_one() -> Self;

    /// The result of `from_index`.
    spec fn spec_from_index(n: usize) -> Self;

    /// The result of `plus`.
    spec fn spec_plus(self, rhs: Self) -> Self;

    /// The result of `minus`.
    spec fn spec_minus(self, rhs: Self) -> Self;

    /// The result of `times`.
    spec fn spec_times(self, rhs: Self) -> Self;

    /// The result of `over`.
    spec fn spec_over(self, rhs: Self) -> Self;

    /// The result of `neg`.
    spec fn spec_neg(self) -> Self;

    /// The result of `abs`.
    spec fn spec_abs(self) -> Self;

    /// The result of `sqrt`.
    spec fn spec_sqrt(self) -> Self;

    /// The result of `min`.
    spec fn spec_min(self, rhs: Self) -> Self;

    /// The result of `max`.
    spec fn spec_max(self, rhs: Self) -> Self;

    /// The result of `lt`.
    spec fn spec_lt(self, rhs: Self) -> bool;

    /// The result of `floor_index`.
    spec fn spec_floor_index(self) -> usize;

    /// The number zero.
    #[verifier::when_used_as_spec(spec_zero)]
    fn zero() -> (r: Self)
        ensures
            r == Self::spec_zero(),
    ;

    /// The number one.
    #[verifier::when_used_as_spec(spec_one)]
    fn one() -> (r: Self)
        ensures
            r == Self::spec_one(),
    ;

    /// The whole number `n`, or the nearest number the type can hold.
    #[verifier::when_used_as_spec(spec_from_index)]
    fn from_index(n: usize) -> (r: Self)
        ensures
            r == Self::spec_from_index(n),
    ;

    /// The sum of `self` and `rhs`.
    #[verifier::when_used_as_spec(spec_plus)]
    fn plus(self, rhs: Self) -> (r: Self)
        ensures
            r == self.spec_plus(rhs),
    ;

    /// The difference of `self` and `rhs`.
    #[verifier::when_used_as_spec(spec_minus)]
    fn minus(self, rhs: Self) -> (r: Self)
        ensures
            r == self.spec_minus(rhs),
    ;

    /// The product of `self` and `rhs`.
    #[verifier::when_used_as_spec(spec_times)]
    fn times(self, rhs: Self) -> (r: Self)
        ensures
            r == self.spec_times(rhs),
    ;

    /// The quotient of `self` by `rhs`.
    #[verifier::when_used_as_spec(spec_over)]
    fn over(self, rhs: Self) -> (r: Self)
        ensures
            r == self.spec_over(rhs),
    ;

    /// `self` with its sign changed.
    #[verifier::when_used_as_spec(spec_neg)]
    fn neg(self) -> (r: Self)
        ensures
            r == self.spec_neg(),
    ;

    /// The distance of `self` from zero.
    #[verifier::when_used_as_spec(spec_abs)]
    fn abs(self) -> (r: Self)
        ensures
            r == self.spec_abs(),
    ;

    /// The square root of `self`.
    #[verifier::when_used_as_spec(spec_sqrt)]
    fn sqrt(self) -> (r: Self)
        ensures
            r == self.spec_sqrt(),
    ;

    /// The lesser of `self` and `rhs`.
    #[verifier::when_used_as_spec(spec_min)]
    fn min(self, rhs: Self) -> (r: Self)
        ensures
            r == self.spec_min(rhs),
    ;

    /// The greater of `self` and `rhs`.
    #[verifier::when_used_as_spec(spec_max)]
    fn max(self, rhs: Self) -> (r: Self)
        ensures
            r == self.spec_max(rhs),
    ;

    /// Whether `self` is strictly below `rhs`.
    #[verifier::when_used_as_spec(spec_lt)]
    fn lt(self, rhs: Self) -> (r: bool)
        ensures
            r == self.spec_lt(rhs),
    ;

    /// The largest whole number not above `self`, as an index: zero where
    /// `self` lies below zero, the largest index where it lies above all.
    #[verifier::when_used_as_spec(spec_floor_index)]
    fn floor_index(self) -> (r: usize)
        ensures
            r == self.spec_floor_index(),
    ;
}

/// One half, as the solver computes it.
pub open spec fn half<T: Scalar>() -> T {
    T::one().over(T::from_index(2))
}

/// One quarter, as the solver computes it.
pub open spec fn quarter<T: Scalar>() -> T {
    T::one().over(T::from_index(4))
}

} // verus!
