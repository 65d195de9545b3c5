//! Algebraic structures: the ring interface that every matrix coefficient
//! type provides, the ring laws that exact coefficient types additionally
//! prove, and the concrete coefficient types.

pub mod integers;
pub mod rationals;

use vstd::prelude::*;

use crate::identities::{One, Zero};

verus! {

/// Error raised by the scalar types themselves (as opposed to the matrix
/// container).
#[derive(Debug, Clone, PartialEq, Eq)]
pub enum StructureError {
    /// A textual representation of a scalar could not be read.
    ParseError(String),
}

/// Absolute value, used to select pivots during elimination.
pub trait Abs: Sized {
    /// The absolute value, as a specification-level function.
    spec fn abs_s(self) -> Self;

    /// Returns the absolute value of this element.
    fn abs_value(&self) -> (r: Self)
        ensures
            r == self.abs_s(),
    ;
}

/// The behaviour of an element of a ring: a set with addition, subtraction,
/// multiplication, negation, and the two identities.
///
/// Every operation has a specification-level counterpart (`add_s`, `mul_s`,
/// ...) and each executable operation is specified to return exactly that
/// value, so that contracts over matrices of ring elements can speak about
/// the result of whole computations.
///
/// `div` is the exact division needed by the fraction-free elimination
/// algorithms; it is only ever invoked on divisors that are not zero.
/// `lt` is the strict order used, combined with [`Abs`], for partial
/// pivoting.
pub trait Ring: Zero + One + Abs + Sized + Copy {
    /// The sum of two elements, as a specification-level function.
    spec fn add_s(self, rhs: Self) -> Self;

    /// The difference of two elements, as a specification-level function.
    spec fn sub_s(self, rhs: Self) -> Self;

    /// The product of two elements, as a specification-level function.
    spec fn mul_s(self, rhs: Self) -> Self;

    /// The additive inverse, as a specification-level function.
    spec fn neg_s(self) -> Self;

    /// The quotient of two elements, as a specification-level function.
    /// Only meaningful when the divisor is not zero.
    spec fn div_s(self, rhs: Self) -> Self;

    /// The strict order used for pivot selection, as a specification-level
    /// relation.
    spec fn lt_s(self, rhs: Self) -> bool;

    /// The multiplicative identity differs from the additive identity, so a
    /// pivot seeded with `one` is never mistaken for a singular column.
    proof fn one_not_zero()
        ensures
            !Self::one_s().is_zero_s(),
    ;

    /// The additive identity satisfies the `is_zero` test.
    proof fn zero_is_zero()
        ensures
            Self::zero_s().is_zero_s(),
    ;

    /// Returns the sum of `self` and `rhs`.
    fn add(self, rhs: Self) -> (r: Self)
        ensures
            r == self.add_s(rhs),
    ;

    /// Returns the difference of `self` and `rhs`.
    fn sub(self, rhs: Self) -> (r: Self)
        ensures
            r == self.sub_s(rhs),
    ;

    /// Returns the product of `self` and `rhs`.
    fn mul(self, rhs: Self) -> (r: Self)
        ensures
            r == self.mul_s(rhs),
    ;

    /// Returns the additive inverse of `self`.
    fn neg(self) -> (r: Self)
        ensures
            r == self.neg_s(),
    ;

    /// Returns the quotient of `self` by `rhs`, which must not be zero.
    fn div(self, rhs: Self) -> (r: Self)
        requires
            !rhs.is_zero_s(),
        ensures
            r == self.div_s(rhs),
    ;

    /// Returns whether `self` is strictly below `rhs` in the pivot order.
    fn lt(&self, rhs: &Self) -> (r: bool)
        ensures
            r == self.lt_s(*rhs),
    ;
}

/// The commutative-ring laws, provable for coefficient types whose
/// specification-level operations genuinely form a commutative ring.
///
/// The determinant lemmas (determinant of the identity matrix, agreement of
/// the closed triangle-rule formulas with cofactor expansion, and the small
/// alternating-sign laws) are generic over this trait.
pub trait RingLaws: Ring {
    /// Addition is commutative.
    proof fn add_comm(a: Self, b: Self)
        ensures
            a.add_s(b) == b.add_s(a),
    ;

    /// Addition is associative.
    proof fn add_assoc(a: Self, b: Self, c: Self)
        ensures
            a.add_s(b).add_s(c) == a.add_s(b.add_s(c)),
    ;

    /// Zero is neutral for addition.
    proof fn add_zero(a: Self)
        ensures
            a.add_s(Self::zero_s()) == a,
    ;

    /// An element and its additive inverse sum to zero.
    proof fn add_neg(a: Self)
        ensures
            a.add_s(a.neg_s()) == Self::zero_s(),
    ;

    /// Multiplication is commutative.
    proof fn mul_comm(a: Self, b: Self)
        ensures
            a.mul_s(b) == b.mul_s(a),
    ;

    /// Multiplication is associative.
    proof fn mul_assoc(a: Self, b: Self, c: Self)
        ensures
            a.mul_s(b).mul_s(c) == a.mul_s(b.mul_s(c)),
    ;

    /// One is neutral for multiplication.
    proof fn mul_one(a: Self)
        ensures
            Self::one_s().mul_s(a) == a,
    ;

    /// Zero absorbs multiplication.
    proof fn mul_zero(a: Self)
        ensures
            Self::zero_s().mul_s(a) == Self::zero_s(),
    ;

    /// Multiplication distributes over addition.
    proof fn mul_distrib(a: Self, b: Self, c: Self)
        ensures
            a.mul_s(b.add_s(c)) == a.mul_s(b).add_s(a.mul_s(c)),
    ;

    /// Negation commutes with multiplication on the left.
    proof fn neg_mul(a: Self, b: Self)
        ensures
            a.neg_s().mul_s(b) == a.mul_s(b).neg_s(),
    ;

    /// Subtraction is addition of the additive inverse.
    proof fn sub_is_add_neg(a: Self, b: Self)
        ensures
            a.sub_s(b) == a.add_s(b.neg_s()),
    ;
}

/// The behaviour of an element of a group under addition, kept in the
/// classical vocabulary: `identity`, `inverse` and the group operation.
pub trait Group: Ring {
    /// Returns the identity element of the group.
    fn identity() -> (r: Self)
        ensures
            r == Self::zero_s(),
    ;

    /// Returns the inverse of the current element.
    fn inverse(&self) -> (r: Self)
        ensures
            r == self.neg_s(),
    ;

    /// Returns the result of the group operation applied to `self` and
    /// `rhs`.
    fn op(&self, rhs: &Self) -> (r: Self)
        ensures
            r == self.add_s(*rhs),
    ;
}

} // verus!
