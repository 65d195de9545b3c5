//! Cross-cutting interfaces: the textual representation of scalars and
//! matrices, and checked machine arithmetic.

use vstd::prelude::*;

use crate::result::MathError;
use crate::structures::StructureError;

verus! {

/// Whether a byte is an ASCII decimal digit.
pub open spec fn is_digit_b(c: u8) -> bool {
    48 <= c <= 57
}

/// Whether a byte sequence is one or more decimal digits.
pub open spec fn all_digits_s(s: Seq<u8>) -> bool {
    s.len() > 0 && forall|i: int| 0 <= i < s.len() ==> is_digit_b(#[trigger] s[i])
}

/// The value of a sequence of decimal digits.
pub open spec fn digits_val_s(s: Seq<u8>) -> int
    decreases s.len(),
{
    if s.len() == 0 {
        0
    } else {
        digits_val_s(s.drop_last()) * 10 + (s.last() - 48)
    }
}

/// The digit characters of a nonnegative number, most significant first.
pub open spec fn dec_nat_s(n: int) -> Seq<char>
    decreases n,
{
    if n < 10 {
        seq![digit_char_s(n)]
    } else {
        dec_nat_s(n / 10) + seq![digit_char_s(n % 10)]
    }
}

/// The decimal text of an integer: a minus sign when negative, then the
/// digits of its magnitude.
pub open spec fn dec_int_s(v: int) -> Seq<char> {
    if v < 0 {
        seq!['-'] + dec_nat_s(-v)
    } else {
        dec_nat_s(v)
    }
}

/// The character for one decimal digit.
pub open spec fn digit_char_s(d: int) -> char {
    if d == 0 {
        '0'
    } else if d == 1 {
        '1'
    } else if d == 2 {
        '2'
    } else if d == 3 {
        '3'
    } else if d == 4 {
        '4'
    } else if d == 5 {
        '5'
    } else if d == 6 {
        '6'
    } else if d == 7 {
        '7'
    } else if d == 8 {
        '8'
    } else {
        '9'
    }
}

/// The behaviour of a scalar that can be read from and written back to
/// text: matrices of such scalars can be parsed from and serialized to the
/// bracketed grid form.
pub trait Parseable: Sized {
    /// What the textual form of a scalar denotes, or nothing when the
    /// bytes are not a valid representation.
    spec fn parse_elem_s(s: Seq<u8>) -> Option<Self>;

    /// The canonical textual form of this scalar.
    spec fn serialize_elem_s(self) -> Seq<char>;

    /// Reads a scalar from its textual form.
    fn parse_elem(s: &[u8]) -> (r: Result<Self, StructureError>)
        ensures
            match r {
                Ok(v) => Self::parse_elem_s(s@) == Some(v),
                Err(_) => Self::parse_elem_s(s@) is None,
            },
    ;

    /// Writes the scalar in its textual form.
    fn serialize_elem(&self) -> (r: String)
        ensures
            r@ == self.serialize_elem_s(),
    ;
}

/// The behaviour of a matrix that can be written out as text, in the form
/// `{{a, b, c}, {d, e, f}, {g, h, i}}`.
pub trait Serializable {
    /// The serialized text of the matrix.
    spec fn serialize_s(&self) -> Seq<char>;

    /// Serializes the matrix, returning it in the form
    /// `{{a, b, c}, {d, e, f}, {g, h, i}}`.
    fn serialize(&self) -> (r: String)
        ensures
            r@ == self.serialize_s(),
    ;
}

/// Addition that reports overflow instead of wrapping.
pub trait CheckedAdd {
    /// What a checked addition returns.
    type Output;

    /// Adds two values, reporting failure when the sum does not fit.
    fn checked_add(&self, rhs: &Self) -> Self::Output;
}

/// Subtraction that reports overflow instead of wrapping.
pub trait CheckedSub {
    /// What a checked subtraction returns.
    type Output;

    /// Subtracts two values, reporting failure when the difference does
    /// not fit.
    fn checked_sub(&self, rhs: &Self) -> Self::Output;
}

/// Multiplication that reports overflow instead of wrapping.
pub trait CheckedMul {
    /// What a checked multiplication returns.
    type Output;

    /// Multiplies two values, reporting failure when the product does not
    /// fit.
    fn checked_mul(&self, rhs: &Self) -> Self::Output;
}

/// Division that reports failure instead of faulting.
pub trait CheckedDiv {
    /// What a checked division returns.
    type Output;

    /// Divides two values, reporting failure on a zero divisor or an
    /// overflowing quotient.
    fn checked_div(&self, rhs: &Self) -> Self::Output;
}

/// Supertrait that bundles all the traits any operable element of a
/// matrix implements: the four checked operations together with the basic
/// value behaviour.
pub trait ArithmeticallyOperable:
    CheckedAdd + CheckedSub + CheckedMul + CheckedDiv + Sized + Clone + PartialEq {

}

impl CheckedAdd for i64 {
    type Output = Result<i64, MathError>;

    fn checked_add(&self, rhs: &Self) -> (r: Self::Output)
        ensures
            match r {
                Ok(v) => v == *self + *rhs,
                Err(_) => !(i64::MIN <= *self + *rhs <= i64::MAX),
            },
    {
        broadcast use vstd::string::to_string_from_display_ensures_for_str;

        match i64::checked_add(*self, *rhs) {
            Some(v) => Ok(v),
            None => Err(MathError::MatrixError("Addition error".to_string())),
        }
    }
}

impl CheckedSub for i64 {
    type Output = Result<i64, MathError>;

    fn checked_sub(&self, rhs: &Self) -> (r: Self::Output)
        ensures
            match r {
                Ok(v) => v == *self - *rhs,
                Err(_) => !(i64::MIN <= *self - *rhs <= i64::MAX),
            },
    {
        broadcast use vstd::string::to_string_from_display_ensures_for_str;

        match i64::checked_sub(*self, *rhs) {
            Some(v) => Ok(v),
            None => Err(MathError::MatrixError("Substraction error".to_string())),
        }
    }
}

impl CheckedMul for i64 {
    type Output = Result<i64, MathError>;

    fn checked_mul(&self, rhs: &Self) -> (r: Self::Output)
        ensures
            match r {
                Ok(v) => v == *self * *rhs,
                Err(_) => !(i64::MIN <= *self * *rhs <= i64::MAX),
            },
    {
        broadcast use vstd::string::to_string_from_display_ensures_for_str;

        match i64::checked_mul(*self, *rhs) {
            Some(v) => Ok(v),
            None => Err(MathError::MatrixError("Multiplication error".to_string())),
        }
    }
}

impl CheckedDiv for i64 {
    type Output = Result<i64, MathError>;

    fn checked_div(&self, rhs: &Self) -> (r: Self::Output)
        ensures
            match r {
                Ok(v) => *rhs != 0 && v == crate::structures::integers::trunc_quot(*self, *rhs),
                Err(_) => *rhs == 0 || (*self == i64::MIN && *rhs == -1),
            },
    {
        broadcast use vstd::string::to_string_from_display_ensures_for_str;

        proof {
            if *rhs != 0 && !(*self == i64::MIN && *rhs == -1) {
                crate::structures::integers::lemma_trunc_quot_range(*self, *rhs);
            }
        }
        match i64::checked_div(*self, *rhs) {
            Some(v) => Ok(v),
            None => Err(MathError::MatrixError("Division error".to_string())),
        }
    }
}

impl ArithmeticallyOperable for i64 {

}

/// The first position at or after `i` holding the given byte, if any.
pub open spec fn find_byte_s(s: Seq<u8>, b: u8, i: nat) -> Option<int>
    decreases s.len() - i,
{
    if i >= s.len() {
        None
    } else if s[i as int] == b {
        Some(i as int)
    } else {
        find_byte_s(s, b, i + 1)
    }
}

/// Finds the first occurrence of the given byte.
pub fn find_byte(s: &[u8], b: u8) -> (r: Option<usize>)
    ensures
        match r {
            Some(p) => p < s@.len() && find_byte_s(s@, b, 0) == Some(p as int),
            None => find_byte_s(s@, b, 0) is None,
        },
{
    let len = s.len();
    let mut i: usize = 0;
    while i < len
        invariant
            len == s@.len(),
            i <= len,
            find_byte_s(s@, b, 0) == find_byte_s(s@, b, i as nat),
        decreases len - i,
    {
        if s[i] == b {
            return Some(i);
        }
        i += 1;
    }
    None
}

/// Copies the byte range `[from, to)` of a slice into a fresh vector.
pub fn copy_bytes(s: &[u8], from: usize, to: usize) -> (r: Vec<u8>)
    requires
        from <= to <= s@.len(),
    ensures
        r@ == s@.subrange(from as int, to as int),
{
    let mut out: Vec<u8> = Vec::new();
    let mut i: usize = from;
    while i < to
        invariant
            from <= i <= to,
            to <= s@.len(),
            out@.len() == i - from,
            forall|k: int| 0 <= k < out@.len() ==> out@[k] == s@[from + k],
        decreases to - i,
    {
        out.push(s[i]);
        i += 1;
    }
    proof {
        assert(out@ =~= s@.subrange(from as int, to as int));
    }
    out
}

} // verus!
