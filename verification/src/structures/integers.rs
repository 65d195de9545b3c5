//! Fixed-width integers as a commutative ring.
//!
//! The coefficient type wraps an `i64` whose arithmetic is the arithmetic of
//! the residue ring of the machine word: every operation is specified as the
//! mathematical result reduced into the `i64` range, and the ring laws are
//! proved from that model.

use vstd::arithmetic::div_mod::{
    lemma_add_mod_noop, lemma_div_is_ordered, lemma_div_is_ordered_by_denominator,
    lemma_div_nonincreasing, lemma_div_pos_is_pos, lemma_fundamental_div_mod, lemma_mod_multiples_vanish,
    lemma_mul_mod_noop_left, lemma_small_mod, lemma_sub_mod_noop,
};
use vstd::arithmetic::mul::{
    lemma_mul_is_associative, lemma_mul_is_commutative, lemma_mul_is_distributive_add,
    lemma_mul_unary_negation,
};
use vstd::prelude::*;
use vstd::string::StringSliceAdditionalSpecFns;

use crate::identities::{One, Zero};
use crate::structures::{Abs, Group, Ring, RingLaws, StructureError};
use crate::traits::{
    all_digits_s, dec_int_s, dec_nat_s, digit_char_s, digits_val_s, is_digit_b, Parseable,
};

verus! {

/// The size of the `i64` value range.
pub const WORD_RANGE: u128 = 0x1_0000_0000_0000_0000;

/// The mathematical integer `x` reduced into the `i64` range, keeping its
/// residue modulo the word range.
pub open spec fn wrap(x: int) -> i64 {
    vstd::wrapping::i64_specs::signed_crop(x)
}

/// Representation of an integer number.
#[derive(Debug, Clone, Copy, PartialEq, Eq, Structural)]
pub struct Integer {
    /// The wrapped machine word.
    pub value: i64,
}

impl Integer {
    /// The mathematical value of this integer.
    pub open spec fn val(self) -> int {
        self.value as int
    }

    /// Returns a new [`Integer`] holding the given value.
    pub fn new(value: i64) -> (r: Self)
        ensures
            r.val() == value,
    {
        Self { value }
    }

    /// Returns the inside value.
    pub fn value(&self) -> (r: i64)
        ensures
            r == self.val(),
    {
        self.value
    }

    /// The remainder of truncated division, as Rust's `%` computes it on
    /// machine integers (zero when the division would overflow).
    pub open spec fn rem_s(self, rhs: Self) -> Self {
        if self.value == i64::MIN && rhs.value == -1 {
            Integer { value: 0 }
        } else {
            Integer { value: trunc_rem(self.value, rhs.value) }
        }
    }

    /// Returns the remainder of `self` divided by `rhs`.
    pub fn rem(self, rhs: Self) -> (r: Self)
        requires
            !rhs.is_zero_s(),
        ensures
            r == self.rem_s(rhs),
    {
        match self.value.checked_rem(rhs.value) {
            Some(v) => Integer { value: v },
            None => Integer { value: 0 },
        }
    }
}

/// The quotient of truncated division on the mathematical values, as Rust's
/// `/` computes it for a nonzero divisor that does not overflow.
pub open spec fn trunc_quot(x: i64, d: i64) -> int {
    let xi = x as int;
    let di = d as int;
    if xi == 0 {
        0
    } else if xi > 0 && di > 0 {
        xi / di
    } else if xi < 0 && di < 0 {
        (xi * -1) / (di * -1)
    } else if xi < 0 {
        ((xi * -1) / di) * -1
    } else {
        (xi / (di * -1)) * -1
    }
}

/// The remainder of truncated division on the mathematical values, as Rust's
/// `%` computes it for a nonzero divisor that does not overflow.
pub open spec fn trunc_rem(x: i64, d: i64) -> i64 {
    let xi = x as int;
    let di = d as int;
    (if xi == 0 {
        0
    } else if xi > 0 && di > 0 {
        xi % di
    } else if xi < 0 && di < 0 {
        ((xi * -1) % (di * -1)) * -1
    } else if xi < 0 {
        ((xi * -1) % di) * -1
    } else {
        xi % (di * -1)
    }) as i64
}

impl Zero for Integer {
    open spec fn zero_s() -> Self {
        Integer { value: 0 }
    }

    open spec fn is_zero_s(self) -> bool {
        self.value == 0
    }

    fn zero() -> (r: Self) {
        Integer { value: 0 }
    }

    fn is_zero(&self) -> (r: bool) {
        self.value == 0
    }
}

impl One for Integer {
    open spec fn one_s() -> Self {
        Integer { value: 1 }
    }

    open spec fn is_one_s(self) -> bool {
        self.value == 1
    }

    fn one() -> (r: Self) {
        Integer { value: 1 }
    }

    fn is_one(&self) -> (r: bool) {
        self.value == 1
    }
}

impl Abs for Integer {
    open spec fn abs_s(self) -> Self {
        if self.value < 0 {
            Integer { value: wrap(-self.val()) }
        } else {
            self
        }
    }

    fn abs_value(&self) -> (r: Self) {
        if self.value < 0 {
            let v = (0i64).wrapping_sub(self.value);
            proof {
                lemma_wrapping_sub_is_wrap(0i64, self.value);
            }
            Integer { value: v }
        } else {
            *self
        }
    }
}

impl Ring for Integer {
    open spec fn add_s(self, rhs: Self) -> Self {
        Integer { value: wrap(self.val() + rhs.val()) }
    }

    open spec fn sub_s(self, rhs: Self) -> Self {
        Integer { value: wrap(self.val() - rhs.val()) }
    }

    open spec fn mul_s(self, rhs: Self) -> Self {
        Integer { value: wrap(self.val() * rhs.val()) }
    }

    open spec fn neg_s(self) -> Self {
        Integer { value: wrap(-self.val()) }
    }

    open spec fn div_s(self, rhs: Self) -> Self {
        if self.value == i64::MIN && rhs.value == -1 {
            Integer { value: i64::MIN }
        } else {
            Integer { value: trunc_quot(self.value, rhs.value) as i64 }
        }
    }

    open spec fn lt_s(self, rhs: Self) -> bool {
        self.value < rhs.value
    }

    proof fn one_not_zero() {
    }

    proof fn zero_is_zero() {
    }

    fn add(self, rhs: Self) -> (r: Self) {
        proof {
            lemma_wrapping_add_is_wrap(self.value, rhs.value);
        }
        Integer { value: self.value.wrapping_add(rhs.value) }
    }

    fn sub(self, rhs: Self) -> (r: Self) {
        proof {
            lemma_wrapping_sub_is_wrap(self.value, rhs.value);
        }
        Integer { value: self.value.wrapping_sub(rhs.value) }
    }

    fn mul(self, rhs: Self) -> (r: Self) {
        Integer { value: self.value.wrapping_mul(rhs.value) }
    }

    fn neg(self) -> (r: Self) {
        proof {
            lemma_wrapping_sub_is_wrap(0i64, self.value);
        }
        Integer { value: (0i64).wrapping_sub(self.value) }
    }

    fn div(self, rhs: Self) -> (r: Self) {
        proof {
            if !(self.value == i64::MIN && rhs.value == -1) {
                lemma_trunc_quot_range(self.value, rhs.value);
            }
        }
        match self.value.checked_div(rhs.value) {
            Some(v) => Integer { value: v },
            None => Integer { value: i64::MIN },
        }
    }

    fn lt(&self, rhs: &Self) -> (r: bool) {
        self.value < rhs.value
    }
}

impl Group for Integer {
    fn identity() -> (r: Self) {
        Integer { value: 0 }
    }

    fn inverse(&self) -> (r: Self) {
        proof {
            lemma_wrapping_sub_is_wrap(0i64, self.value);
        }
        Integer { value: (0i64).wrapping_sub(self.value) }
    }

    fn op(&self, rhs: &Self) -> (r: Self) {
        proof {
            lemma_wrapping_add_is_wrap(self.value, rhs.value);
        }
        Integer { value: self.value.wrapping_add(rhs.value) }
    }
}

/// The word range as a mathematical integer.
pub open spec fn word_range() -> int {
    WORD_RANGE as int
}

/// Reduction into the machine-word range keeps the residue modulo the word
/// range.
proof fn lemma_wrap_congruent(x: int)
    ensures
        wrap(x) as int % word_range() == x % word_range(),
{
    let m = word_range();
    lemma_mod_range(x);
    if x % m > i64::MAX {
        lemma_mod_multiples_vanish(-1, x % m, m);
        lemma_small_mod((x % m) as nat, m as nat);
    } else {
        lemma_small_mod((x % m) as nat, m as nat);
    }
}

/// The residue of any integer lies between zero and the word range.
proof fn lemma_mod_range(x: int)
    ensures
        0 <= x % word_range() < word_range(),
{
}

/// A value already inside the `i64` range is left unchanged by reduction.
pub(crate) proof fn lemma_wrap_in_range(x: int)
    requires
        i64::MIN <= x <= i64::MAX,
    ensures
        wrap(x) as int == x,
{
    let m = word_range();
    if x >= 0 {
        lemma_small_mod(x as nat, m as nat);
    } else {
        lemma_mod_multiples_vanish(1, x, m);
        lemma_small_mod((x + m) as nat, m as nat);
    }
}

/// `wrapping_add` computes the reduced mathematical sum.
proof fn lemma_wrapping_add_is_wrap(x: i64, y: i64)
    ensures
        vstd::wrapping::i64_specs::wrapping_add(x, y) == wrap(x + y),
{
    lemma_wrap_split(x + y);
}

/// `wrapping_sub` computes the reduced mathematical difference.
proof fn lemma_wrapping_sub_is_wrap(x: i64, y: i64)
    ensures
        vstd::wrapping::i64_specs::wrapping_sub(x, y) == wrap(x - y),
{
    lemma_wrap_split(x - y);
}

/// For a value within one word range of the `i64` range, reduction is a
/// single shift by the word range.
proof fn lemma_wrap_split(s: int)
    requires
        -word_range() <= s < word_range(),
    ensures
        s > i64::MAX ==> wrap(s) as int == s - word_range(),
        s < i64::MIN ==> wrap(s) as int == s + word_range(),
        i64::MIN <= s <= i64::MAX ==> wrap(s) as int == s,
{
    let m = word_range();
    if s > i64::MAX {
        lemma_small_mod(s as nat, m as nat);
    } else if s < i64::MIN {
        lemma_mod_multiples_vanish(1, s, m);
        lemma_small_mod((s + m) as nat, m as nat);
    } else {
        lemma_wrap_in_range(s);
    }
}

/// Reducing an addend before the addition does not change the reduced sum.
proof fn lemma_wrap_add(x: int, y: int)
    ensures
        wrap(wrap(x) + y) == wrap(x + y),
{
    let m = word_range();
    lemma_wrap_congruent(x);
    lemma_add_mod_noop(wrap(x) as int, y, m);
    lemma_add_mod_noop(x, y, m);
    assert((wrap(x) + y) % m == (x + y) % m);
}

/// Reducing a factor before the multiplication does not change the reduced
/// product.
proof fn lemma_wrap_mul(x: int, y: int)
    ensures
        wrap(wrap(x) * y) == wrap(x * y),
{
    let m = word_range();
    lemma_wrap_congruent(x);
    lemma_mul_mod_noop_left(wrap(x) as int, y, m);
    lemma_mul_mod_noop_left(x, y, m);
    assert((wrap(x) * y) % m == (x * y) % m);
}

/// Reducing a value before negating does not change the reduced negation.
proof fn lemma_wrap_neg(x: int)
    ensures
        wrap(-(wrap(x) as int)) == wrap(-x),
{
    let m = word_range();
    let w = wrap(x) as int;
    lemma_wrap_congruent(x);
    lemma_sub_mod_noop(x, w, m);
    assert((x % m - w % m) % m == (x - w) % m);
    lemma_small_mod(0nat, m as nat);
    assert((x - w) % m == 0);
    lemma_fundamental_div_mod(x - w, m);
    let j = (x - w) / m;
    assert(x - w == m * j);
    assert(-w == m * j + (-x));
    lemma_mod_multiples_vanish(j, -x, m);
    assert((-w) % m == (-x) % m);
}

impl RingLaws for Integer {
    proof fn add_comm(a: Self, b: Self) {
    }

    proof fn add_assoc(a: Self, b: Self, c: Self) {
        lemma_wrap_add(a.val() + b.val(), c.val());
        lemma_wrap_add(b.val() + c.val(), a.val());
        assert(wrap(b.val() + c.val()) + a.val() == a.val() + wrap(b.val() + c.val()));
    }

    proof fn add_zero(a: Self) {
        lemma_wrap_in_range(a.val());
    }

    proof fn add_neg(a: Self) {
        lemma_wrap_add(-a.val(), a.val());
        assert(a.val() + wrap(-a.val()) == wrap(-a.val()) + a.val());
        lemma_wrap_in_range(0);
    }

    proof fn mul_comm(a: Self, b: Self) {
        lemma_mul_is_commutative(a.val(), b.val());
    }

    proof fn mul_assoc(a: Self, b: Self, c: Self) {
        lemma_wrap_mul(a.val() * b.val(), c.val());
        lemma_wrap_mul(b.val() * c.val(), a.val());
        lemma_mul_is_associative(a.val(), b.val(), c.val());
        lemma_mul_is_commutative(wrap(b.val() * c.val()) as int, a.val());
        lemma_mul_is_commutative(b.val() * c.val(), a.val());
    }

    proof fn mul_one(a: Self) {
        lemma_wrap_in_range(a.val());
    }

    proof fn mul_zero(a: Self) {
        lemma_wrap_in_range(0);
    }

    proof fn mul_distrib(a: Self, b: Self, c: Self) {
        lemma_wrap_mul(b.val() + c.val(), a.val());
        lemma_mul_is_commutative(wrap(b.val() + c.val()) as int, a.val());
        lemma_mul_is_commutative(b.val() + c.val(), a.val());
        lemma_mul_is_distributive_add(a.val(), b.val(), c.val());
        lemma_wrap_add(a.val() * b.val(), wrap(a.val() * c.val()) as int);
        lemma_wrap_add(a.val() * c.val(), a.val() * b.val());
        assert(a.val() * b.val() + wrap(a.val() * c.val()) == wrap(a.val() * c.val()) + a.val()
            * b.val());
    }

    proof fn neg_mul(a: Self, b: Self) {
        lemma_wrap_mul(-a.val(), b.val());
        lemma_mul_unary_negation(a.val(), b.val());
        lemma_wrap_neg(a.val() * b.val());
    }

    proof fn sub_is_add_neg(a: Self, b: Self) {
        lemma_wrap_add(-b.val(), a.val());
        assert(a.val() + wrap(-b.val()) == wrap(-b.val()) + a.val());
    }
}

/// The quotient of truncated division stays inside the `i64` range except
/// for the most negative value divided by minus one.
pub(crate) proof fn lemma_trunc_quot_range(x: i64, d: i64)
    requires
        d != 0,
        !(x == i64::MIN && d == -1),
    ensures
        i64::MIN <= trunc_quot(x, d) <= i64::MAX,
{
    let xi = x as int;
    let di = d as int;
    if xi == 0 {
    } else if xi > 0 && di > 0 {
        lemma_div_pos_is_pos(xi, di);
        lemma_div_nonincreasing(xi, di);
    } else if xi < 0 && di < 0 {
        lemma_div_pos_is_pos(xi * -1, di * -1);
        if di == -1 {
            lemma_div_by_self_int(xi * -1);
        } else {
            lemma_div_is_ordered_by_denominator(xi * -1, 2, di * -1);
            assert((xi * -1) / 2 <= i64::MAX) by {
                lemma_div_nonincreasing(xi * -1, 2);
                assert((xi * -1) <= 2 * (i64::MAX as int) + 2);
                assert((2 * (i64::MAX as int) + 2) / 2 == i64::MAX as int + 1);
                lemma_div_is_ordered(xi * -1, 2 * (i64::MAX as int) + 2, 2);
                assert((xi * -1) / 2 <= i64::MAX as int + 1);
                if (xi * -1) / 2 == i64::MAX as int + 1 {
                    lemma_fundamental_div_mod(xi * -1, 2);
                    assert(false);
                }
            }
        }
    } else if xi < 0 {
        lemma_div_pos_is_pos(xi * -1, di);
        lemma_div_nonincreasing(xi * -1, di);
    } else {
        lemma_div_pos_is_pos(xi, di * -1);
        lemma_div_nonincreasing(xi, di * -1);
    }
}

/// Any integer divided by one is itself.
proof fn lemma_div_by_self_int(x: int)
    ensures
        x / 1 == x,
{
}

/// A digit string has a nonnegative value.
pub proof fn lemma_digits_nonneg(s: Seq<u8>)
    requires
        forall|i: int| 0 <= i < s.len() ==> is_digit_b(#[trigger] s[i]),
    ensures
        digits_val_s(s) >= 0,
    decreases s.len(),
{
    if s.len() > 0 {
        lemma_digits_nonneg(s.drop_last());
    }
}

/// The value of a prefix of a digit string never exceeds the value of the
/// whole string.
pub proof fn lemma_digits_prefix(s: Seq<u8>, k: int)
    requires
        forall|i: int| 0 <= i < s.len() ==> is_digit_b(#[trigger] s[i]),
        0 <= k <= s.len(),
    ensures
        digits_val_s(s.take(k)) <= digits_val_s(s),
    decreases s.len(),
{
    if k == s.len() {
        assert(s.take(k) =~= s);
    } else {
        let d = s.drop_last();
        assert(s.take(k) =~= d.take(k));
        lemma_digits_prefix(d, k);
        lemma_digits_nonneg(d);
        assert(digits_val_s(s) == digits_val_s(d) * 10 + (s.last() - 48));
        assert(digits_val_s(d) * 10 >= digits_val_s(d)) by (nonlinear_arith)
            requires
                digits_val_s(d) >= 0,
        ;
    }
}

impl Parseable for Integer {
    open spec fn parse_elem_s(s: Seq<u8>) -> Option<Self> {
        let neg = s.len() > 0 && s[0] == 45;
        let d = if s.len() > 0 && (s[0] == 43 || s[0] == 45) {
            s.drop_first()
        } else {
            s
        };
        if !all_digits_s(d) {
            None
        } else {
            let v = if neg {
                -digits_val_s(d)
            } else {
                digits_val_s(d)
            };
            if i64::MIN <= v <= i64::MAX {
                Some(Integer { value: v as i64 })
            } else {
                None
            }
        }
    }

    open spec fn serialize_elem_s(self) -> Seq<char> {
        dec_int_s(self.val())
    }

    fn parse_elem(s: &[u8]) -> (r: Result<Self, StructureError>) {
        broadcast use vstd::string::to_string_from_display_ensures_for_str;

        let len = s.len();
        let mut start: usize = 0;
        let mut neg = false;
        if len > 0 && (s[0] == 43 || s[0] == 45) {
            neg = s[0] == 45;
            start = 1;
        }
        let ghost d = if start == 1 {
            s@.drop_first()
        } else {
            s@
        };
        proof {
            assert(d.len() == len - start);
            assert(forall|i: int| 0 <= i < d.len() ==> d[i] == s@[start + i]);
        }
        if start >= len {
            return Err(StructureError::ParseError("Error parsing integer".to_string()));
        }
        let mut acc: u64 = 0;
        let mut i: usize = start;
        while i < len
            invariant
                len == s@.len(),
                start <= i <= len,
                start <= 1,
                start < len,
                (start == 1) == (s@.len() > 0 && (s@[0] == 43 || s@[0] == 45)),
                neg == (s@.len() > 0 && s@[0] == 45),
                d == (if start == 1 {
                    s@.drop_first()
                } else {
                    s@
                }),
                d.len() == len - start,
                forall|k: int| 0 <= k < d.len() ==> d[k] == s@[start + k],
                forall|k: int| 0 <= k < i - start ==> is_digit_b(#[trigger] d[k]),
                acc == digits_val_s(d.take(i - start)),
            decreases len - i,
        {
            let c = s[i];
            if !(48 <= c && c <= 57) {
                proof {
                    assert(d[i - start] == s@[i as int]);
                    assert(!is_digit_b(d[i - start]));
                }
                return Err(StructureError::ParseError("Error parsing integer".to_string()));
            }
            let ghost prefix = d.take(i - start);
            let ghost next_prefix = d.take(i + 1 - start);
            proof {
                assert(next_prefix.drop_last() =~= prefix);
                assert(next_prefix.last() == d[i - start]);
                assert(d[i - start] == c);
                assert(digits_val_s(next_prefix) == digits_val_s(prefix) * 10 + (c - 48));
                assert(forall|k: int| 0 <= k < next_prefix.len() ==> is_digit_b(#[trigger] next_prefix[k]));
            }
            let step = match acc.checked_mul(10) {
                Some(x) => x.checked_add((c - 48) as u64),
                None => None,
            };
            match step {
                Some(v) => {
                    acc = v;
                },
                None => {
                    proof {
                        lemma_digits_nonneg(prefix);
                        assert(digits_val_s(next_prefix) > u64::MAX);
                        if all_digits_s(d) {
                            lemma_digits_prefix(d, i + 1 - start);
                            assert(digits_val_s(d) > u64::MAX);
                        }
                    }
                    return Err(StructureError::ParseError("Error parsing integer".to_string()));
                },
            }
            i += 1;
        }
        proof {
            assert(d.take(len - start) =~= d);
        }
        if neg {
            if acc > 9223372036854775808u64 {
                return Err(StructureError::ParseError("Error parsing integer".to_string()));
            }
            if acc == 9223372036854775808u64 {
                Ok(Integer { value: i64::MIN })
            } else {
                Ok(Integer { value: -(acc as i64) })
            }
        } else {
            if acc > 9223372036854775807u64 {
                return Err(StructureError::ParseError("Error parsing integer".to_string()));
            }
            Ok(Integer { value: acc as i64 })
        }
    }

    fn serialize_elem(&self) -> (r: String) {
        if self.value < 0 {
            let magnitude: u64 = if self.value == i64::MIN {
                9223372036854775808u64
            } else {
                (-self.value) as u64
            };
            let mut out = String::new();
            out.append("-");
            let digits = nat_to_string(magnitude);
            out.append(digits.as_str());
            proof {
                reveal_strlit("-");
                assert("-"@ =~= seq!['-']);
                assert(out@ =~= dec_int_s(self.val()));
            }
            out
        } else {
            let digits = nat_to_string(self.value as u64);
            proof {
                assert(digits@ =~= dec_int_s(self.val()));
            }
            digits
        }
    }
}

impl Integer {
    /// Reads an integer from its decimal text.
    ///
    /// ## Errors
    /// Returns [`StructureError::ParseError`] when the text is not an
    /// optionally signed run of decimal digits whose value fits the
    /// machine word.
    pub fn from_str(s: &str) -> (r: Result<Self, StructureError>)
        ensures
            match r {
                Ok(v) => Self::parse_elem_s(s.spec_bytes()) == Some(v),
                Err(_) => Self::parse_elem_s(s.spec_bytes()) is None,
            },
    {
        Self::parse_elem(s.as_bytes())
    }
}

/// The text of one decimal digit.
fn digit_str(d: u64) -> (r: &'static str)
    requires
        d < 10,
    ensures
        r@ =~= seq![digit_char_s(d as int)],
{
    proof {
        reveal_strlit("0");
        reveal_strlit("1");
        reveal_strlit("2");
        reveal_strlit("3");
        reveal_strlit("4");
        reveal_strlit("5");
        reveal_strlit("6");
        reveal_strlit("7");
        reveal_strlit("8");
        reveal_strlit("9");
    }
    if d == 0 {
        "0"
    } else if d == 1 {
        "1"
    } else if d == 2 {
        "2"
    } else if d == 3 {
        "3"
    } else if d == 4 {
        "4"
    } else if d == 5 {
        "5"
    } else if d == 6 {
        "6"
    } else if d == 7 {
        "7"
    } else if d == 8 {
        "8"
    } else {
        "9"
    }
}

/// Writes a nonnegative number in decimal.
pub(crate) fn nat_to_string(n: u64) -> (r: String)
    ensures
        r@ == dec_nat_s(n as int),
    decreases n,
{
    if n < 10 {
        let s = digit_str(n);
        let mut out = String::new();
        out.append(s);
        proof {
            assert(out@ =~= dec_nat_s(n as int));
        }
        out
    } else {
        let mut out = nat_to_string(n / 10);
        let s = digit_str(n % 10);
        out.append(s);
        proof {
            assert(out@ =~= dec_nat_s(n as int));
        }
        out
    }
}

} // verus!
