//! Identity elements for the two ring operations.

use vstd::prelude::*;

verus! {

/// Representation of the identity for the addition operation.
pub trait Zero: Sized {
    /// The additive identity, as a specification-level value.
    spec fn zero_s() -> Self;

    /// Whether this value is the additive identity, as a specification-level
    /// predicate.
    spec fn is_zero_s(self) -> bool;

    /// Returns the additive identity.
    fn zero() -> (r: Self)
        ensures
            r == Self::zero_s(),
    ;

    /// Returns whether this value is the additive identity.
    fn is_zero(&self) -> (r: bool)
        ensures
            r == self.is_zero_s(),
    ;
}

/// Representation of the identity for the multiplication operation.
pub trait One: Sized {
    /// The multiplicative identity, as a specification-level value.
    spec fn one_s() -> Self;

    /// Whether this value is the multiplicative identity, as a
    /// specification-level predicate.
    spec fn is_one_s(self) -> bool;

    /// Returns the multiplicative identity.
    fn one() -> (r: Self)
        ensures
            r == Self::one_s(),
    ;

    /// Returns whether this value is the multiplicative identity.
    fn is_one(&self) -> (r: bool)
        ensures
            r == self.is_one_s(),
    ;
}

} // verus!
