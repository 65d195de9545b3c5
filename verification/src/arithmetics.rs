//! Euclidean arithmetic on integers: greatest common divisor and euclidean
//! division, used to keep rational numbers in lowest terms.

use vstd::arithmetic::div_mod::{lemma_fundamental_div_mod, lemma_mod_bound};
use vstd::prelude::*;

use crate::identities::Zero;
use crate::structures::integers::{trunc_rem, Integer};
use crate::structures::Ring;

verus! {

/// The magnitude of a mathematical integer.
pub open spec fn abs_int(x: int) -> int {
    if x < 0 {
        -x
    } else {
        x
    }
}

/// The remainder of truncated division is strictly smaller in magnitude
/// than the divisor.
proof fn lemma_trunc_rem_bound(x: i64, d: i64)
    requires
        d != 0,
    ensures
        abs_int(trunc_rem(x, d) as int) < abs_int(d as int),
{
    let xi = x as int;
    let di = d as int;
    if xi == 0 {
    } else if xi > 0 && di > 0 {
        lemma_mod_bound(xi, di);
    } else if xi < 0 && di < 0 {
        lemma_mod_bound(xi * -1, di * -1);
    } else if xi < 0 {
        lemma_mod_bound(xi * -1, di);
    } else {
        lemma_mod_bound(xi, di * -1);
    }
}

/// The greatest common divisor of two integers, by Euclid's recursion on
/// the remainder; its sign follows the signs of the inputs.
pub open spec fn gcd_s(a: Integer, b: Integer) -> Integer
    decreases abs_int(b.val()),
    when true via gcd_s_decreases
{
    if b.value == 0 {
        a
    } else {
        gcd_s(b, a.rem_s(b))
    }
}

#[via_fn]
proof fn gcd_s_decreases(a: Integer, b: Integer) {
    if b.value != 0 {
        if a.value == i64::MIN && b.value == -1 {
        } else {
            lemma_trunc_rem_bound(a.value, b.value);
        }
    }
}

/// Computes the greatest common divisor of two integers by Euclid's
/// algorithm.
pub fn gcd(a: &Integer, b: &Integer) -> (r: Integer)
    ensures
        r == gcd_s(*a, *b),
    decreases abs_int(b.val()),
{
    if b.is_zero() {
        return *a;
    }
    proof {
        if !(a.value == i64::MIN && b.value == -1) {
            lemma_trunc_rem_bound(a.value, b.value);
        }
    }
    let rem = a.rem(*b);
    gcd(b, &rem)
}

/// Truncated quotient and remainder together recover the dividend on the
/// mathematical values, and the remainder carries the sign of the
/// dividend.
proof fn lemma_trunc_quot_rem(x: i64, d: i64)
    requires
        d != 0,
        !(x == i64::MIN && d == -1),
    ensures
        crate::structures::integers::trunc_quot(x, d) * d + trunc_rem(x, d) == x,
        x >= 0 ==> trunc_rem(x, d) >= 0,
        x <= 0 ==> trunc_rem(x, d) <= 0,
{
    let xi = x as int;
    let di = d as int;
    if xi == 0 {
    } else if xi > 0 && di > 0 {
        lemma_mod_bound(xi, di);
        lemma_fundamental_div_mod(xi, di);
        let q = xi / di;
        let r = xi % di;
        assert(di * q == q * di) by (nonlinear_arith);
    } else if xi < 0 && di < 0 {
        lemma_mod_bound(xi * -1, di * -1);
        lemma_fundamental_div_mod(xi * -1, di * -1);
        let q = (xi * -1) / (di * -1);
        let r = (xi * -1) % (di * -1);
        assert(xi * -1 == (di * -1) * q + r);
        assert((di * -1) * q == -(q * di)) by (nonlinear_arith);
        assert(q * di + r * -1 == xi);
    } else if xi < 0 {
        lemma_mod_bound(xi * -1, di);
        lemma_fundamental_div_mod(xi * -1, di);
        let q = (xi * -1) / di;
        let r = (xi * -1) % di;
        assert(xi * -1 == di * q + r);
        assert((q * -1) * di == -(di * q)) by (nonlinear_arith);
        assert((q * -1) * di + r * -1 == xi);
    } else {
        lemma_mod_bound(xi, di * -1);
        lemma_fundamental_div_mod(xi, di * -1);
        let q = xi / (di * -1);
        let r = xi % (di * -1);
        assert(xi == (di * -1) * q + r);
        assert((q * -1) * di == (di * -1) * q) by (nonlinear_arith);
        assert((q * -1) * di + r == xi);
    }
}

/// Performs the euclidean division of `a` by `b`: the truncated quotient
/// together with the remainder `a − q·b`. On the mathematical values the
/// two recover the dividend exactly, except on the one quotient that
/// overflows the machine word.
pub fn euclidean_division(a: &Integer, b: &Integer) -> (r: (Integer, Integer))
    requires
        !b.is_zero_s(),
    ensures
        r.0 == a.div_s(*b),
        r.1 == a.sub_s(a.div_s(*b).mul_s(*b)),
        !(a.value == i64::MIN && b.value == -1) ==> r.0.val() * b.val() + r.1.val() == a.val(),
{
    let q = a.div(*b);
    let r = a.sub(q.mul(*b));
    proof {
        if !(a.value == i64::MIN && b.value == -1) {
            lemma_trunc_quot_rem(a.value, b.value);
            lemma_trunc_rem_bound(a.value, b.value);
            crate::structures::integers::lemma_trunc_quot_range(a.value, b.value);
            let qi = crate::structures::integers::trunc_quot(a.value, b.value);
            let ri = trunc_rem(a.value, b.value) as int;
            assert(qi * b.val() + ri == a.val());
            assert(abs_int(ri) < abs_int(b.val()));
            assert(q.val() == qi);
            assert(i64::MIN <= qi * b.val() <= i64::MAX) by {
                assert(qi * b.val() == a.val() - ri);
            }
            assert(q.mul_s(*b).val() == qi * b.val()) by {
                crate::structures::integers::lemma_wrap_in_range(qi * b.val());
            }
            assert(r.val() == a.val() - qi * b.val()) by {
                crate::structures::integers::lemma_wrap_in_range(a.val() - qi * b.val());
            }
        }
    }
    (q, r)
}

/// Returns the truncated quotient of `a` by `b`.
pub fn quotient(a: &Integer, b: &Integer) -> (r: Integer)
    requires
        !b.is_zero_s(),
    ensures
        r == a.div_s(*b),
{
    let (q, _) = euclidean_division(a, b);
    q
}

} // verus!
