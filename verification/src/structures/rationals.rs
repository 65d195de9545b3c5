//! Rational numbers as numerator/denominator pairs of integers, kept in
//! lowest terms by dividing through the greatest common divisor after
//! every operation.

use vstd::prelude::*;

use vstd::string::StringSliceAdditionalSpecFns;

use crate::arithmetics::{gcd, gcd_s};
use crate::structures::StructureError;
use crate::traits::{copy_bytes, find_byte, find_byte_s, Parseable};
use crate::identities::{One, Zero};
use crate::structures::integers::Integer;
use crate::structures::{Abs, Group, Ring};

verus! {

/// A rational number: a numerator and a denominator.
#[derive(Debug, Clone, Copy, PartialEq, Eq, Structural)]
pub struct Rational {
    /// The numerator.
    pub numerator: Integer,
    /// The denominator.
    pub denominator: Integer,
}

impl Rational {
    /// Builds a rational from its numerator and denominator, as given.
    pub fn new(numerator: Integer, denominator: Integer) -> (r: Self)
        ensures
            r.numerator == numerator,
            r.denominator == denominator,
    {
        Self { numerator, denominator }
    }

    /// The fraction in lowest terms: both parts divided by their greatest
    /// common divisor; a fraction whose parts are both zero is left as it
    /// is.
    pub open spec fn simplified_s(self) -> Self {
        let g = gcd_s(self.numerator, self.denominator);
        if g.value == 0 {
            self
        } else {
            Rational {
                numerator: self.numerator.div_s(g),
                denominator: self.denominator.div_s(g),
            }
        }
    }

    /// Reduces the fraction to lowest terms.
    pub fn simplified(self) -> (r: Self)
        ensures
            r == self.simplified_s(),
    {
        let g = gcd(&self.numerator, &self.denominator);
        if g.is_zero() {
            self
        } else {
            Rational { numerator: self.numerator.div(g), denominator: self.denominator.div(g) }
        }
    }

    /// Whether two rationals name the same value: the cross products of
    /// numerators and denominators coincide.
    pub open spec fn equals_s(self, rhs: Self) -> bool {
        self.numerator.mul_s(rhs.denominator) == self.denominator.mul_s(rhs.numerator)
    }

    /// Compares two rationals by their cross products, so that fractions
    /// that name the same value compare equal whatever form they are in.
    pub fn equals(&self, rhs: &Self) -> (r: bool)
        ensures
            r == self.equals_s(*rhs),
    {
        let left = self.numerator.mul(rhs.denominator);
        let right = self.denominator.mul(rhs.numerator);
        left.value() == right.value()
    }

    /// Returns the reciprocal, in lowest terms.
    pub fn inverse_multiplication(&self) -> (r: Self)
        ensures
            r == (Rational { numerator: self.denominator, denominator: self.numerator }
            ).simplified_s(),
    {
        Rational { numerator: self.denominator, denominator: self.numerator }.simplified()
    }
}

impl Zero for Rational {
    open spec fn zero_s() -> Self {
        Rational { numerator: Integer::zero_s(), denominator: Integer::one_s() }
    }

    open spec fn is_zero_s(self) -> bool {
        self.equals_s(Self::zero_s())
    }

    fn zero() -> (r: Self) {
        Rational { numerator: Integer::zero(), denominator: Integer::one() }
    }

    fn is_zero(&self) -> (r: bool) {
        self.equals(&Self::zero())
    }
}

impl One for Rational {
    open spec fn one_s() -> Self {
        Rational { numerator: Integer::one_s(), denominator: Integer::one_s() }
    }

    open spec fn is_one_s(self) -> bool {
        self.equals_s(Self::one_s())
    }

    fn one() -> (r: Self) {
        Rational { numerator: Integer::one(), denominator: Integer::one() }
    }

    fn is_one(&self) -> (r: bool) {
        self.equals(&Self::one())
    }
}

impl Abs for Rational {
    open spec fn abs_s(self) -> Self {
        (Rational {
            numerator: self.numerator.abs_s(),
            denominator: self.denominator.abs_s(),
        }).simplified_s()
    }

    fn abs_value(&self) -> (r: Self) {
        Rational {
            numerator: self.numerator.abs_value(),
            denominator: self.denominator.abs_value(),
        }.simplified()
    }
}

impl Ring for Rational {
    open spec fn add_s(self, rhs: Self) -> Self {
        (Rational {
            numerator: self.numerator.mul_s(rhs.denominator).add_s(
                rhs.numerator.mul_s(self.denominator),
            ),
            denominator: self.denominator.mul_s(rhs.denominator),
        }).simplified_s()
    }

    open spec fn sub_s(self, rhs: Self) -> Self {
        self.add_s(rhs.neg_s())
    }

    open spec fn mul_s(self, rhs: Self) -> Self {
        (Rational {
            numerator: self.numerator.mul_s(rhs.numerator),
            denominator: self.denominator.mul_s(rhs.denominator),
        }).simplified_s()
    }

    open spec fn neg_s(self) -> Self {
        (Rational { numerator: self.numerator.neg_s(), denominator: self.denominator }
        ).simplified_s()
    }

    open spec fn div_s(self, rhs: Self) -> Self {
        (Rational {
            numerator: self.numerator.mul_s(rhs.denominator),
            denominator: self.denominator.mul_s(rhs.numerator),
        }).simplified_s()
    }

    open spec fn lt_s(self, rhs: Self) -> bool {
        self.numerator.lt_s(rhs.numerator) || (self.numerator == rhs.numerator
            && self.denominator.lt_s(rhs.denominator))
    }

    proof fn one_not_zero() {
    }

    proof fn zero_is_zero() {
    }

    fn add(self, rhs: Self) -> (r: Self) {
        Rational {
            numerator: self.numerator.mul(rhs.denominator).add(
                rhs.numerator.mul(self.denominator),
            ),
            denominator: self.denominator.mul(rhs.denominator),
        }.simplified()
    }

    fn sub(self, rhs: Self) -> (r: Self) {
        self.add(rhs.neg())
    }

    fn mul(self, rhs: Self) -> (r: Self) {
        Rational {
            numerator: self.numerator.mul(rhs.numerator),
            denominator: self.denominator.mul(rhs.denominator),
        }.simplified()
    }

    fn neg(self) -> (r: Self) {
        Rational { numerator: self.numerator.neg(), denominator: self.denominator }.simplified()
    }

    fn div(self, rhs: Self) -> (r: Self) {
        Rational {
            numerator: self.numerator.mul(rhs.denominator),
            denominator: self.denominator.mul(rhs.numerator),
        }.simplified()
    }

    fn lt(&self, rhs: &Self) -> (r: bool) {
        self.numerator.lt(&rhs.numerator) || (self.numerator.value() == rhs.numerator.value()
            && self.denominator.lt(&rhs.denominator))
    }
}

impl Group for Rational {
    fn identity() -> (r: Self) {
        Rational { numerator: Integer::zero(), denominator: Integer::one() }
    }

    fn inverse(&self) -> (r: Self) {
        Rational { numerator: self.numerator.neg(), denominator: self.denominator }.simplified()
    }

    fn op(&self, rhs: &Self) -> (r: Self) {
        self.add(*rhs)
    }
}

impl Parseable for Rational {
    open spec fn parse_elem_s(s: Seq<u8>) -> Option<Self> {
        match find_byte_s(s, 47, 0) {
            None => match Integer::parse_elem_s(s) {
                None => None,
                Some(v) => Some(Rational { numerator: v, denominator: Integer::one_s() }),
            },
            Some(i) => {
                let rest = s.skip(i + 1);
                let den_b = match find_byte_s(rest, 47, 0) {
                    None => rest,
                    Some(j) => rest.take(j),
                };
                match (Integer::parse_elem_s(s.take(i)), Integer::parse_elem_s(den_b)) {
                    (Some(n), Some(d)) => Some(
                        (Rational { numerator: n, denominator: d }).simplified_s(),
                    ),
                    _ => None,
                }
            },
        }
    }

    open spec fn serialize_elem_s(self) -> Seq<char> {
        self.numerator.serialize_elem_s() + seq!['/'] + self.denominator.serialize_elem_s()
    }

    fn parse_elem(s: &[u8]) -> (r: Result<Self, StructureError>) {
        match find_byte(s, 47) {
            None => {
                let v = Integer::parse_elem(s)?;
                Ok(Rational { numerator: v, denominator: Integer::one() })
            },
            Some(i) => {
                let len = s.len();
                let num_bytes = copy_bytes(s, 0, i);
                let rest = copy_bytes(s, i + 1, len);
                proof {
                    assert(num_bytes@ =~= s@.take(i as int));
                    assert(rest@ =~= s@.skip(i + 1));
                }
                let den_bytes = match find_byte(rest.as_slice(), 47) {
                    None => rest,
                    Some(j) => copy_bytes(rest.as_slice(), 0, j),
                };
                proof {
                    assert(den_bytes@ == (match find_byte_s(s@.skip(i + 1), 47, 0) {
                        None => s@.skip(i + 1),
                        Some(j) => s@.skip(i + 1).take(j),
                    }));
                }
                let n = Integer::parse_elem(num_bytes.as_slice())?;
                let d = Integer::parse_elem(den_bytes.as_slice())?;
                Ok(Rational { numerator: n, denominator: d }.simplified())
            },
        }
    }

    fn serialize_elem(&self) -> (r: String) {
        let mut out = self.numerator.serialize_elem();
        out.append("/");
        let den = self.denominator.serialize_elem();
        out.append(den.as_str());
        proof {
            reveal_strlit("/");
            assert("/"@ =~= seq!['/']);
            assert(out@ =~= self.serialize_elem_s());
        }
        out
    }
}

impl Rational {
    /// Reads a rational from its textual form: either a single integer,
    /// taken over a denominator of one, or a numerator and a denominator
    /// separated by a slash, reduced to lowest terms.
    ///
    /// ## Errors
    /// Returns [`StructureError::ParseError`] when either part is not a
    /// valid integer.
    pub fn from_str(s: &str) -> (r: Result<Self, StructureError>)
        ensures
            match r {
                Ok(v) => Self::parse_elem_s(s.spec_bytes()) == Some(v),
                Err(_) => Self::parse_elem_s(s.spec_bytes()) is None,
            },
    {
        Self::parse_elem(s.as_bytes())
    }
}

} // verus!
