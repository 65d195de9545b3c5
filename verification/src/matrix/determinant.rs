//! Determinants of square matrices.
//!
//! The mathematical reference point is [`det_s`], the cofactor expansion
//! along the first row. The Laplace/Montante algorithm is proved to return
//! exactly that value for every ring; the closed triangle-rule formulas are
//! proved equal to it for every coefficient type that satisfies the ring
//! laws.

use vstd::prelude::*;

use crate::identities::{One, Zero};
use crate::matrix::square::{
    identity_s, is_grid, lemma_minor_is_grid, lemma_minor_row, minor_s, SquareMatrix,
};
use crate::matrix::MatrixError;
use crate::structures::{Ring, RingLaws};

verus! {

/// The selector for the determinant algorithm to run.
pub enum DeterminantMethod {
    /// The closed formulas for dimensions one to three.
    TriangleRule,
    /// Fraction-free elimination with the Bareiss recurrence.
    BareissAlgorithm,
    /// Recursive cofactor expansion along the first row.
    LaplaceExpansion,
    /// Row reduction followed by the product of the diagonal.
    GaussianElimination,
    /// A size-based choice among the algorithms above.
    Optimize,
}

/// Signature of a permutation: the parity of the number of row
/// transpositions performed so far.
#[derive(Debug, PartialEq, Eq, Structural, Clone, Copy)]
pub enum Signature {
    /// An even number of transpositions.
    Even,
    /// An odd number of transpositions.
    Odd,
}

impl Signature {
    /// The opposite parity.
    pub open spec fn flip_s(self) -> Self {
        match self {
            Signature::Even => Signature::Odd,
            Signature::Odd => Signature::Even,
        }
    }

    /// The ring element this parity stands for: one when even, minus one
    /// when odd.
    pub open spec fn as_number_s<R: Ring>(self) -> R {
        match self {
            Signature::Even => R::one_s(),
            Signature::Odd => R::one_s().neg_s(),
        }
    }

    /// Builds a parity from a sign that must be plus or minus one; any
    /// other value is a programming error, not a recoverable condition.
    pub fn new(sign: i32) -> (r: Self)
        requires
            sign == 1 || sign == -1,
        ensures
            sign == 1 ==> r == Signature::Even,
            sign == -1 ==> r == Signature::Odd,
    {
        if sign == 1 {
            Signature::Even
        } else {
            Signature::Odd
        }
    }

    /// Flips the parity.
    pub fn change(&mut self)
        ensures
            *final(self) == old(self).flip_s(),
    {
        match self {
            Signature::Even => *self = Signature::Odd,
            Signature::Odd => *self = Signature::Even,
        }
    }

    /// Returns the ring element this parity stands for.
    pub fn as_number<R: Ring>(&self) -> (r: R)
        ensures
            r == self.as_number_s::<R>(),
    {
        match self {
            Signature::Even => R::one(),
            Signature::Odd => R::one().neg(),
        }
    }
}

/// The sign of the cofactor in the given column of the first row: one for
/// even columns, minus one for odd columns.
pub open spec fn sign_s<R: Ring>(c: nat) -> R {
    if c % 2 == 0 {
        R::one_s()
    } else {
        R::one_s().neg_s()
    }
}

/// The determinant of an `n` × `n` grid, by cofactor expansion along the
/// first row. The empty grid has determinant zero.
pub open spec fn det_s<R: Ring>(m: Seq<Seq<R>>, n: nat) -> R
    decreases n, 1nat, 0nat,
{
    if n == 0 {
        R::zero_s()
    } else if n == 1 {
        m[0][0]
    } else {
        laplace_sum_s(m, n, n)
    }
}

/// The sum of the first `c` signed cofactor terms of the expansion of an
/// `n` × `n` grid along its first row.
pub open spec fn laplace_sum_s<R: Ring>(m: Seq<Seq<R>>, n: nat, c: nat) -> R
    decreases n, 0nat, c,
{
    if c == 0 || n == 0 {
        R::zero_s()
    } else {
        laplace_sum_s(m, n, (c - 1) as nat).add_s(
            sign_s::<R>((c - 1) as nat).mul_s(m[0][c - 1]).mul_s(
                det_s(minor_s(m, 0, c - 1), (n - 1) as nat),
            ),
        )
    }
}

/// The closed determinant formulas for dimensions one to three, associated
/// exactly as the triangle rule evaluates them.
pub open spec fn triangle_s<R: Ring>(m: Seq<Seq<R>>, n: nat) -> R {
    if n == 1 {
        m[0][0]
    } else if n == 2 {
        m[0][0].mul_s(m[1][1]).sub_s(m[0][1].mul_s(m[1][0]))
    } else {
        let a = m[0][0];
        let b = m[0][1];
        let c = m[0][2];
        let d = m[1][0];
        let e = m[1][1];
        let f = m[1][2];
        let g = m[2][0];
        let h = m[2][1];
        let i = m[2][2];
        a.mul_s(e).mul_s(i).add_s(b.mul_s(f).mul_s(g)).add_s(c.mul_s(d).mul_s(h)).sub_s(
            c.mul_s(e).mul_s(g),
        ).sub_s(b.mul_s(d).mul_s(i)).sub_s(a.mul_s(f).mul_s(h))
    }
}

/// Direct formula evaluation for dimensions one to three; intentionally not
/// general.
///
/// ## Errors
/// Returns [`MatrixError::InvalidDimension`] for every other dimension.
pub fn triangle_rule<R: Ring>(matrix: &SquareMatrix<R>) -> (r: Result<R, MatrixError>)
    requires
        matrix.wf(),
    ensures
        match r {
            Ok(v) => 1 <= matrix.dimension <= 3 && v == triangle_s(
                matrix@,
                matrix.dimension as nat,
            ),
            Err(e) => {
                &&& e == MatrixError::InvalidDimension(matrix.dimension)
                &&& (matrix.dimension == 0 || matrix.dimension > 3)
            },
        },
{
    proof {
        assert(matrix@.len() == matrix.data@.len());
        assert forall|i: int| 0 <= i < matrix.dimension implies #[trigger] matrix@[i]
            == matrix.data@[i]@ by {}
        assert forall|i: int| 0 <= i < matrix.dimension implies (#[trigger] matrix.data@[i])@.len()
            == matrix.dimension by {
            assert(matrix@[i].len() == matrix.dimension);
        }
    }
    match matrix.dimension() {
        1 => Ok(matrix.data[0][0]),
        2 => {
            let a = matrix.data[0][0];
            let b = matrix.data[0][1];
            let c = matrix.data[1][0];
            let d = matrix.data[1][1];
            Ok(a.mul(d).sub(b.mul(c)))
        },
        3 => {
            let a = matrix.data[0][0];
            let b = matrix.data[0][1];
            let c = matrix.data[0][2];
            let d = matrix.data[1][0];
            let e = matrix.data[1][1];
            let f = matrix.data[1][2];
            let g = matrix.data[2][0];
            let h = matrix.data[2][1];
            let i = matrix.data[2][2];
            Ok(
                a.mul(e).mul(i).add(b.mul(f).mul(g)).add(c.mul(d).mul(h)).sub(
                    c.mul(e).mul(g),
                ).sub(b.mul(d).mul(i)).sub(a.mul(f).mul(h)),
            )
        },
        dim => Err(MatrixError::InvalidDimension(dim)),
    }
}

/// The Montante method, also known as Laplace expansion: the determinant as
/// the signed sum, along the first row, of each entry times the determinant
/// of its minor.
///
/// The result is exactly the cofactor expansion [`det_s`] of the matrix,
/// for every ring. The cost grows with the factorial of the dimension, so
/// the method suits only small matrices and cross-checks of the other
/// algorithms.
pub fn montante_algorithm<R: Ring>(matrix: &SquareMatrix<R>) -> (r: Result<R, MatrixError>)
    requires
        matrix.wf(),
    ensures
        r == Ok::<R, MatrixError>(det_s(matrix@, matrix.dimension as nat)),
    decreases matrix.dimension,
{
    let n = matrix.dimension();
    if n == 1 {
        proof {
            assert(matrix@[0] == matrix.data@[0]@);
        }
        return Ok(matrix.data[0][0]);
    }
    let mut determinant = R::zero();
    let mut sign = Signature::Even;
    let mut column: usize = 0;
    while column < n
        invariant
            matrix.wf(),
            n == matrix.dimension,
            n != 1,
            column <= n,
            determinant == laplace_sum_s(matrix@, n as nat, column as nat),
            sign == (if column % 2 == 0 {
                Signature::Even
            } else {
                Signature::Odd
            }),
        decreases n - column,
    {
        let minor = matrix.minor(0, column)?;
        let minor_det = montante_algorithm(&minor)?;
        proof {
            assert(matrix@[0] == matrix.data@[0]@);
            assert(sign.as_number_s::<R>() == sign_s::<R>(column as nat));
        }
        determinant = determinant.add(
            sign.as_number::<R>().mul(matrix.data[0][column]).mul(minor_det),
        );
        sign.change();
        column += 1;
    }
    Ok(determinant)
}

/// The sum of the first `c` signed cofactor terms of the expansion of an
/// `n` × `n` grid along the given row.
pub open spec fn row_expansion_sum_s<R: Ring>(m: Seq<Seq<R>>, n: nat, row: nat, c: nat) -> R
    decreases c,
{
    if c == 0 || n == 0 {
        R::zero_s()
    } else {
        row_expansion_sum_s(m, n, row, (c - 1) as nat).add_s(
            sign_s::<R>(row + (c - 1) as nat).mul_s(m[row as int][c - 1]).mul_s(
                det_s(minor_s(m, row as int, c - 1), (n - 1) as nat),
            ),
        )
    }
}

/// The cofactor expansion of an `n` × `n` grid along the given row.
pub open spec fn row_expansion_s<R: Ring>(m: Seq<Seq<R>>, n: nat, row: nat) -> R {
    row_expansion_sum_s(m, n, row, n)
}

/// Adding zero on the left leaves a ring element unchanged.
pub proof fn lemma_zero_add<R: RingLaws>(a: R)
    ensures
        R::zero_s().add_s(a) == a,
{
    R::add_comm(R::zero_s(), a);
    R::add_zero(a);
}

/// Zero absorbs multiplication on the right.
pub proof fn lemma_mul_zero_right<R: RingLaws>(a: R)
    ensures
        a.mul_s(R::zero_s()) == R::zero_s(),
{
    R::mul_comm(a, R::zero_s());
    R::mul_zero(a);
}

/// Negation commutes with multiplication on the right.
pub proof fn lemma_mul_neg_right<R: RingLaws>(a: R, b: R)
    ensures
        a.mul_s(b.neg_s()) == a.mul_s(b).neg_s(),
{
    R::mul_comm(a, b.neg_s());
    R::neg_mul(b, a);
    R::mul_comm(b, a);
}

/// The additive inverse is the only element that sums with a given element
/// to zero.
pub proof fn lemma_neg_unique<R: RingLaws>(a: R, b: R)
    requires
        a.add_s(b) == R::zero_s(),
    ensures
        b == a.neg_s(),
{
    R::add_zero(a.neg_s());
    R::add_assoc(a.neg_s(), a, b);
    R::add_comm(a.neg_s(), a);
    R::add_neg(a);
    lemma_zero_add::<R>(b);
    assert(a.neg_s() == a.neg_s().add_s(a.add_s(b)));
    assert(a.neg_s().add_s(a.add_s(b)) == a.neg_s().add_s(a).add_s(b));
    assert(a.neg_s().add_s(a) == R::zero_s());
}

/// Negating twice gives the element back.
pub proof fn lemma_neg_neg<R: RingLaws>(a: R)
    ensures
        a.neg_s().neg_s() == a,
{
    R::add_neg(a);
    R::add_comm(a, a.neg_s());
    lemma_neg_unique::<R>(a.neg_s(), a);
}

/// Negation distributes over addition.
pub proof fn lemma_neg_add<R: RingLaws>(a: R, b: R)
    ensures
        a.add_s(b).neg_s() == a.neg_s().add_s(b.neg_s()),
{
    let s = a.add_s(b);
    let t = a.neg_s().add_s(b.neg_s());
    assert(s.add_s(t) == R::zero_s()) by {
        R::add_assoc(s, a.neg_s(), b.neg_s());
        lemma_add_swap_last::<R>(a, b, a.neg_s());
        R::add_neg(a);
        lemma_zero_add::<R>(b);
        assert(s.add_s(a.neg_s()) == a.add_s(a.neg_s()).add_s(b));
        assert(s.add_s(a.neg_s()).add_s(b.neg_s()) == b.add_s(b.neg_s()));
        R::add_neg(b);
    }
    lemma_neg_unique::<R>(s, t);
}

/// In a left-folded sum the last two summands can be exchanged.
pub proof fn lemma_add_swap_last<R: RingLaws>(a: R, b: R, c: R)
    ensures
        a.add_s(b).add_s(c) == a.add_s(c).add_s(b),
{
    R::add_assoc(a, b, c);
    R::add_comm(b, c);
    R::add_assoc(a, c, b);
}

/// Multiplying by one and minus one: the first signed cofactor factors
/// reduce to the entry itself and to its negation.
pub proof fn lemma_signed_entry<R: RingLaws>(c: nat, b: R, d: R)
    ensures
        c % 2 == 0 ==> sign_s::<R>(c).mul_s(b).mul_s(d) == b.mul_s(d),
        c % 2 == 1 ==> sign_s::<R>(c).mul_s(b).mul_s(d) == b.mul_s(d).neg_s(),
{
    if c % 2 == 0 {
        R::mul_one(b);
    } else {
        R::neg_mul(R::one_s(), b);
        R::mul_one(b);
        R::neg_mul(b, d);
    }
}

/// The determinant of a two-by-two grid in closed form.
pub proof fn lemma_det_dim2<R: RingLaws>(m: Seq<Seq<R>>)
    requires
        is_grid(m, 2),
    ensures
        det_s(m, 2) == m[0][0].mul_s(m[1][1]).add_s(m[0][1].mul_s(m[1][0]).neg_s()),
{
    let a = m[0][0];
    let b = m[0][1];
    let c = m[1][0];
    let d = m[1][1];
    let m0 = minor_s(m, 0, 0);
    let m1 = minor_s(m, 0, 1);
    assert(m.remove(0)[0] == m[1]);
    assert(m0[0] == m[1].remove(0));
    assert(m0[0][0] == m[1][1]);
    assert(m1[0] == m[1].remove(1));
    assert(m1[0][0] == m[1][0]);
    assert(det_s(m0, 1) == d);
    assert(det_s(m1, 1) == c);
    assert(laplace_sum_s(m, 2, 0) == R::zero_s());
    let t0 = sign_s::<R>(0).mul_s(a).mul_s(d);
    let t1 = sign_s::<R>(1).mul_s(b).mul_s(c);
    assert(laplace_sum_s(m, 2, 1) == R::zero_s().add_s(t0));
    assert(det_s(m, 2) == R::zero_s().add_s(t0).add_s(t1));
    lemma_signed_entry::<R>(0, a, d);
    lemma_signed_entry::<R>(1, b, c);
    lemma_zero_add::<R>(t0);
}

/// The closed triangle-rule formulas agree with the cofactor expansion for
/// every dimension they cover and every coefficient type that satisfies the
/// ring laws.
pub proof fn lemma_triangle_rule_agrees<R: RingLaws>(m: Seq<Seq<R>>, n: nat)
    requires
        is_grid(m, n),
        1 <= n <= 3,
    ensures
        triangle_s(m, n) == det_s(m, n),
{
    if n == 1 {
    } else if n == 2 {
        lemma_det_dim2::<R>(m);
        let bc = m[0][1].mul_s(m[1][0]);
        R::sub_is_add_neg(m[0][0].mul_s(m[1][1]), bc);
    } else {
        lemma_triangle_dim3::<R>(m);
    }
}

/// The three-by-three triangle-rule formula agrees with the cofactor
/// expansion.
proof fn lemma_triangle_dim3<R: RingLaws>(m: Seq<Seq<R>>)
    requires
        is_grid(m, 3),
    ensures
        triangle_s(m, 3) == det_s(m, 3),
{
    let a = m[0][0];
    let b = m[0][1];
    let c = m[0][2];
    let d = m[1][0];
    let e = m[1][1];
    let f = m[1][2];
    let g = m[2][0];
    let h = m[2][1];
    let i = m[2][2];
    let m0 = minor_s(m, 0, 0);
    let m1 = minor_s(m, 0, 1);
    let m2 = minor_s(m, 0, 2);
    assert(m.remove(0)[0] == m[1]);
    assert(m.remove(0)[1] == m[2]);
    assert(m0[0] == m[1].remove(0));
    assert(m0[1] == m[2].remove(0));
    assert(m1[0] == m[1].remove(1));
    assert(m1[1] == m[2].remove(1));
    assert(m2[0] == m[1].remove(2));
    assert(m2[1] == m[2].remove(2));
    assert(is_grid(m0, 2)) by {
        assert(m0[0].len() == 2);
        assert(m0[1].len() == 2);
    }
    assert(is_grid(m1, 2)) by {
        assert(m1[0].len() == 2);
        assert(m1[1].len() == 2);
    }
    assert(is_grid(m2, 2)) by {
        assert(m2[0].len() == 2);
        assert(m2[1].len() == 2);
    }
    lemma_det_dim2::<R>(m0);
    lemma_det_dim2::<R>(m1);
    lemma_det_dim2::<R>(m2);
    assert(m0[0][0] == e && m0[0][1] == f && m0[1][0] == h && m0[1][1] == i);
    assert(m1[0][0] == d && m1[0][1] == f && m1[1][0] == g && m1[1][1] == i);
    assert(m2[0][0] == d && m2[0][1] == e && m2[1][0] == g && m2[1][1] == h);
    let det0 = e.mul_s(i).add_s(f.mul_s(h).neg_s());
    let det1 = d.mul_s(i).add_s(f.mul_s(g).neg_s());
    let det2 = d.mul_s(h).add_s(e.mul_s(g).neg_s());
    assert(det_s(m0, 2) == det0);
    assert(det_s(m1, 2) == det1);
    assert(det_s(m2, 2) == det2);
    let t0 = sign_s::<R>(0).mul_s(a).mul_s(det_s(m0, 2));
    let t1 = sign_s::<R>(1).mul_s(b).mul_s(det_s(m1, 2));
    let t2 = sign_s::<R>(2).mul_s(c).mul_s(det_s(m2, 2));
    assert(laplace_sum_s(m, 3, 0) == R::zero_s());
    assert(laplace_sum_s(m, 3, 1) == R::zero_s().add_s(t0));
    assert(laplace_sum_s(m, 3, 2) == R::zero_s().add_s(t0).add_s(t1));
    assert(det_s(m, 3) == R::zero_s().add_s(t0).add_s(t1).add_s(t2));
    lemma_signed_entry::<R>(0, a, det0);
    lemma_signed_entry::<R>(1, b, det1);
    lemma_signed_entry::<R>(2, c, det2);
    lemma_zero_add::<R>(t0);
    // Name the six products in the association the triangle rule uses.
    let aei = a.mul_s(e).mul_s(i);
    let afh = a.mul_s(f).mul_s(h);
    let bdi = b.mul_s(d).mul_s(i);
    let bfg = b.mul_s(f).mul_s(g);
    let cdh = c.mul_s(d).mul_s(h);
    let ceg = c.mul_s(e).mul_s(g);
    assert(t0 == aei.add_s(afh.neg_s())) by {
        R::mul_distrib(a, e.mul_s(i), f.mul_s(h).neg_s());
        R::mul_assoc(a, e, i);
        lemma_mul_neg_right::<R>(a, f.mul_s(h));
        R::mul_assoc(a, f, h);
    }
    assert(t1 == bdi.neg_s().add_s(bfg)) by {
        R::mul_distrib(b, d.mul_s(i), f.mul_s(g).neg_s());
        R::mul_assoc(b, d, i);
        lemma_mul_neg_right::<R>(b, f.mul_s(g));
        R::mul_assoc(b, f, g);
        assert(b.mul_s(det1) == bdi.add_s(bfg.neg_s()));
        lemma_neg_add::<R>(bdi, bfg.neg_s());
        lemma_neg_neg::<R>(bfg);
    }
    assert(t2 == cdh.add_s(ceg.neg_s())) by {
        R::mul_distrib(c, d.mul_s(h), e.mul_s(g).neg_s());
        R::mul_assoc(c, d, h);
        lemma_mul_neg_right::<R>(c, e.mul_s(g));
        R::mul_assoc(c, e, g);
    }
    // Both sides are left-folded sums of the same six signed products;
    // rearrange by adjacent exchanges.
    let u1 = aei;
    let u2 = afh.neg_s();
    let u3 = bdi.neg_s();
    let u4 = bfg;
    let u5 = cdh;
    let u6 = ceg.neg_s();
    assert(det_s(m, 3) == t0.add_s(t1).add_s(t2));
    assert(t0.add_s(t1) == u1.add_s(u2).add_s(u3).add_s(u4)) by {
        R::add_assoc(u1.add_s(u2), u3, u4);
    }
    assert(t0.add_s(t1).add_s(t2) == u1.add_s(u2).add_s(u3).add_s(u4).add_s(u5).add_s(u6)) by {
        R::add_assoc(u1.add_s(u2).add_s(u3).add_s(u4), u5, u6);
    }
    // From (u1, u2, u3, u4, u5, u6) to (u1, u4, u5, u6, u3, u2).
    let s1 = u1;
    lemma_add_swap_last::<R>(s1, u2, u3);
    let s2 = s1.add_s(u3);
    lemma_add_swap_last::<R>(s2, u2, u4);
    let s3 = s2.add_s(u4);
    lemma_add_swap_last::<R>(s1, u3, u4);
    let s4 = s1.add_s(u4);
    lemma_add_swap_last::<R>(s4.add_s(u3), u2, u5);
    lemma_add_swap_last::<R>(s4, u3, u5);
    let s5 = s4.add_s(u5);
    lemma_add_swap_last::<R>(s5.add_s(u3), u2, u6);
    lemma_add_swap_last::<R>(s5, u3, u6);
    let s6 = s5.add_s(u6);
    lemma_add_swap_last::<R>(s6, u3, u2);
    assert(u1.add_s(u2).add_s(u3).add_s(u4).add_s(u5).add_s(u6) == s6.add_s(u3).add_s(u2));
    // The triangle-rule association, with subtractions written as additions
    // of negations.
    R::sub_is_add_neg(u1.add_s(u4).add_s(u5), ceg);
    R::sub_is_add_neg(u1.add_s(u4).add_s(u5).add_s(u6), bdi);
    assert(u1.add_s(u4).add_s(u5).add_s(u6).add_s(u3) == u1.add_s(u4).add_s(u5).sub_s(
        ceg,
    ).sub_s(bdi));
    R::sub_is_add_neg(u1.add_s(u4).add_s(u5).add_s(u6).add_s(u3), afh);
    assert(triangle_s(m, 3) == s6.add_s(u3).add_s(u2));
}

/// The minor of the identity grid at the top-left corner is the identity
/// grid one dimension down.
proof fn lemma_identity_minor<R: RingLaws>(n: nat)
    requires
        n >= 1,
    ensures
        minor_s(identity_s::<R>(n), 0, 0) == identity_s::<R>((n - 1) as nat),
{
    let idn = identity_s::<R>(n);
    let small = identity_s::<R>((n - 1) as nat);
    let mr = minor_s(idn, 0, 0);
    assert(idn.remove(0).len() == n - 1);
    assert(mr.len() == n - 1);
    assert forall|i: int| 0 <= i < n - 1 implies #[trigger] mr[i] =~= small[i] by {
        assert(idn.remove(0)[i] == idn[i + 1]);
        assert(mr[i] == idn[i + 1].remove(0));
        assert(mr[i].len() == n - 1);
        assert forall|j: int| 0 <= j < n - 1 implies #[trigger] mr[i][j] == small[i][j] by {
            assert(idn[i + 1].remove(0)[j] == idn[i + 1][j + 1]);
        }
    }
    assert(mr =~~= small);
}

/// Every cofactor term of the identity grid past the first column is zero,
/// so the partial sums all equal the first term.
proof fn lemma_identity_sum<R: RingLaws>(n: nat, c: nat)
    requires
        n >= 2,
        1 <= c <= n,
    ensures
        laplace_sum_s(identity_s::<R>(n), n, c) == det_s(
            minor_s(identity_s::<R>(n), 0, 0),
            (n - 1) as nat,
        ),
    decreases c,
{
    let idn = identity_s::<R>(n);
    let dmin = det_s(minor_s(idn, 0, 0), (n - 1) as nat);
    if c == 1 {
        assert(idn[0][0] == R::one_s());
        let t0 = sign_s::<R>(0).mul_s(R::one_s()).mul_s(dmin);
        assert(laplace_sum_s(idn, n, 0) == R::zero_s());
        assert(laplace_sum_s(idn, n, 1) == R::zero_s().add_s(t0));
        R::mul_one(R::one_s());
        R::mul_one(dmin);
        lemma_zero_add::<R>(t0);
    } else {
        lemma_identity_sum::<R>(n, (c - 1) as nat);
        assert(idn[0][c - 1] == R::zero_s());
        let tc = sign_s::<R>((c - 1) as nat).mul_s(R::zero_s()).mul_s(
            det_s(minor_s(idn, 0, c - 1), (n - 1) as nat),
        );
        assert(tc == R::zero_s()) by {
            lemma_mul_zero_right::<R>(sign_s::<R>((c - 1) as nat));
            R::mul_zero(det_s(minor_s(idn, 0, c - 1), (n - 1) as nat));
        }
        R::add_zero(dmin);
    }
}

/// The determinant of the identity matrix of any positive dimension is one,
/// under the cofactor expansion that all the proved algorithms compute.
pub proof fn lemma_det_identity<R: RingLaws>(n: nat)
    requires
        n >= 1,
    ensures
        det_s(identity_s::<R>(n), n) == R::one_s(),
    decreases n,
{
    let idn = identity_s::<R>(n);
    if n == 1 {
        assert(idn[0][0] == R::one_s());
    } else {
        lemma_identity_sum::<R>(n, n);
        lemma_identity_minor::<R>(n);
        lemma_det_identity::<R>((n - 1) as nat);
    }
}

/// The additive inverse of zero is zero.
pub proof fn lemma_neg_zero<R: RingLaws>()
    ensures
        R::zero_s().neg_s() == R::zero_s(),
{
    R::add_neg(R::zero_s());
    lemma_zero_add::<R>(R::zero_s().neg_s());
}

/// A two-by-two grid whose rows are equal has determinant zero.
pub proof fn lemma_det_equal_rows_dim2<R: RingLaws>(m: Seq<Seq<R>>)
    requires
        is_grid(m, 2),
        m[0] == m[1],
    ensures
        det_s(m, 2) == R::zero_s(),
{
    lemma_det_dim2::<R>(m);
    let a = m[0][0];
    let b = m[0][1];
    R::mul_comm(b, a);
    R::add_neg(a.mul_s(b));
}

/// Swapping the two rows of a two-by-two grid negates its determinant.
pub proof fn lemma_det_swap_rows_dim2<R: RingLaws>(m: Seq<Seq<R>>)
    requires
        is_grid(m, 2),
    ensures
        det_s(m.update(0, m[1]).update(1, m[0]), 2) == det_s(m, 2).neg_s(),
{
    let w = m.update(0, m[1]).update(1, m[0]);
    assert(is_grid(w, 2));
    lemma_det_dim2::<R>(m);
    lemma_det_dim2::<R>(w);
    let a = m[0][0];
    let b = m[0][1];
    let c = m[1][0];
    let d = m[1][1];
    assert(w[0][0] == c && w[0][1] == d && w[1][0] == a && w[1][1] == b);
    // det(w) = c·b + (d·a).neg; det(m).neg = (a·d).neg + b·c, equal term by
    // term after commuting the products and the sum.
    lemma_neg_add::<R>(a.mul_s(d), b.mul_s(c).neg_s());
    lemma_neg_neg::<R>(b.mul_s(c));
    R::mul_comm(c, b);
    R::mul_comm(d, a);
    R::add_comm(c.mul_s(b), d.mul_s(a).neg_s());
}

/// Expanding a two-by-two grid along its second row gives the same value
/// as the expansion along the first row.
pub proof fn lemma_row_expansion_dim2<R: RingLaws>(m: Seq<Seq<R>>)
    requires
        is_grid(m, 2),
    ensures
        row_expansion_s(m, 2, 1) == det_s(m, 2),
{
    let a = m[0][0];
    let b = m[0][1];
    let c = m[1][0];
    let d = m[1][1];
    let m0 = minor_s(m, 1, 0);
    let m1 = minor_s(m, 1, 1);
    assert(m.remove(1)[0] == m[0]);
    assert(m0[0] == m[0].remove(0));
    assert(m0[0][0] == b);
    assert(m1[0] == m[0].remove(1));
    assert(m1[0][0] == a);
    assert(det_s(m0, 1) == b);
    assert(det_s(m1, 1) == a);
    let t0 = sign_s::<R>(1).mul_s(c).mul_s(b);
    let t1 = sign_s::<R>(2).mul_s(d).mul_s(a);
    assert(row_expansion_sum_s(m, 2, 1, 0) == R::zero_s());
    assert(row_expansion_sum_s(m, 2, 1, 1) == R::zero_s().add_s(t0));
    assert(row_expansion_s(m, 2, 1) == R::zero_s().add_s(t0).add_s(t1));
    lemma_signed_entry::<R>(1, c, b);
    lemma_signed_entry::<R>(2, d, a);
    lemma_zero_add::<R>(t0);
    lemma_det_dim2::<R>(m);
    R::add_comm(c.mul_s(b).neg_s(), d.mul_s(a));
    R::mul_comm(c, b);
    R::mul_comm(d, a);
}

/// The running divisor of the Bareiss recurrence: one before the first
/// step, afterwards the pivot of the step before.
pub open spec fn bareiss_prev_s<R: Ring>(g: Seq<Seq<R>>, k: nat) -> R {
    if k == 0 {
        R::one_s()
    } else {
        g[k - 1][k - 1]
    }
}

/// The first row at or below `i` whose entry in column `k` is not zero, if
/// any.
pub open spec fn bareiss_find_pivot_s<R: Ring>(g: Seq<Seq<R>>, n: nat, k: nat, i: nat) -> Option<
    int,
>
    decreases n - i,
{
    if i >= n {
        None
    } else if !g[i as int][k as int].is_zero_s() {
        Some(i as int)
    } else {
        bareiss_find_pivot_s(g, n, k, i + 1)
    }
}

/// One elimination step of the Bareiss recurrence: every entry strictly
/// below and strictly to the right of the pivot becomes
/// `(a[i][j]·a[k][k] − a[i][k]·a[k][j]) / prev`; all other entries stay.
pub open spec fn bareiss_elim_s<R: Ring>(g: Seq<Seq<R>>, n: nat, k: nat, prev: R) -> Seq<Seq<R>> {
    Seq::new(
        n,
        |i: int|
            Seq::new(
                n,
                |j: int|
                    if i > k && j > k {
                        g[i][j].mul_s(g[k as int][k as int]).sub_s(
                            g[i][k as int].mul_s(g[k as int][j]),
                        ).div_s(prev)
                    } else {
                        g[i][j]
                    },
            ),
    )
}

/// What the Bareiss algorithm returns when started on grid `g` at step `k`
/// with the accumulated parity `sig`: the ring zero when some pivot column
/// is exhausted (a singular matrix), else the last diagonal entry of the
/// fully eliminated grid times the accumulated sign.
pub open spec fn bareiss_run_s<R: Ring>(g: Seq<Seq<R>>, n: nat, k: nat, sig: Signature) -> R
    decreases n - k,
{
    if n == 0 {
        R::zero_s()
    } else if k >= n - 1 {
        g[n - 1][n - 1].mul_s(sig.as_number_s())
    } else {
        match bareiss_find_pivot_s(g, n, k, k) {
            None => R::zero_s(),
            Some(p) => {
                let sig2 = if p == k {
                    sig
                } else {
                    sig.flip_s()
                };
                let g2 = if p == k {
                    g
                } else {
                    g.update(k as int, g[p]).update(p, g[k as int])
                };
                bareiss_run_s(bareiss_elim_s(g2, n, k, bareiss_prev_s(g2, k)), n, k + 1, sig2)
            },
        }
    }
}

/// The value the Bareiss algorithm computes for an `n` × `n` grid.
pub open spec fn bareiss_s<R: Ring>(m: Seq<Seq<R>>, n: nat) -> R {
    bareiss_run_s(m, n, 0, Signature::Even)
}

/// Finds the first row at or below `k` whose entry in column `k` is not
/// zero.
fn bareiss_find_pivot<R: Ring>(matrix: &SquareMatrix<R>, k: usize) -> (r: Option<usize>)
    requires
        matrix.wf(),
        k < matrix.dimension,
    ensures
        match r {
            Some(p) => {
                &&& k <= p < matrix.dimension
                &&& !matrix@[p as int][k as int].is_zero_s()
                &&& bareiss_find_pivot_s(
                    matrix@,
                    matrix.dimension as nat,
                    k as nat,
                    k as nat,
                ) == Some(p as int)
            },
            None => bareiss_find_pivot_s(
                matrix@,
                matrix.dimension as nat,
                k as nat,
                k as nat,
            ) is None,
        },
{
    let n = matrix.dimension();
    let mut i: usize = k;
    while i < n
        invariant
            matrix.wf(),
            n == matrix.dimension,
            k < n,
            k <= i <= n,
            bareiss_find_pivot_s(matrix@, n as nat, k as nat, k as nat) == bareiss_find_pivot_s(
                matrix@,
                n as nat,
                k as nat,
                i as nat,
            ),
        decreases n - i,
    {
        proof {
            assert(matrix@[i as int] == matrix.data@[i as int]@);
        }
        if !matrix.data[i][k].is_zero() {
            return Some(i);
        }
        i += 1;
    }
    None
}

/// Determinant of an `n` × `n` matrix using the Bareiss algorithm:
/// fraction-free elimination whose divisions are exact over the integers,
/// with partial search for a nonzero pivot and sign bookkeeping through
/// [`Signature`].
///
/// A singular matrix is a valid input: when some pivot column holds no
/// nonzero entry the result is the ring zero, not an error. The result is
/// exactly [`bareiss_s`], the Bareiss recurrence applied to the matrix
/// contents.
pub fn bareiss_algorithm<R: Ring>(matrix: &SquareMatrix<R>) -> (r: Result<R, MatrixError>)
    requires
        matrix.wf(),
        matrix.dimension >= 1,
    ensures
        r == Ok::<R, MatrixError>(bareiss_s(matrix@, matrix.dimension as nat)),
{
    let n = matrix.dimension();
    let mut work = matrix.duplicate();
    let mut sign = Signature::Even;
    let mut k: usize = 0;
    while k < n - 1
        invariant
            work.wf(),
            work.dimension == n,
            n == matrix.dimension,
            n >= 1,
            k <= n - 1,
            bareiss_run_s(work@, n as nat, k as nat, sign) == bareiss_s(
                matrix@,
                n as nat,
            ),
            k >= 1 ==> !work@[k - 1][k - 1].is_zero_s(),
        decreases n - k,
    {
        let ghost g0 = work@;
        let ghost sig0 = sign;
        let pivot_row = bareiss_find_pivot(&work, k);
        match pivot_row {
            None => {
                proof {
                    assert(bareiss_run_s(work@, n as nat, k as nat, sign) == R::zero_s());
                }
                return Ok(R::zero());
            },
            Some(p) => {
                if p != k {
                    work.swap_rows_in(k, p);
                    sign.change();
                }
                let ghost g2 = work@;
                let ghost sig2 = sign;
                proof {
                    assert(!g2[k as int][k as int].is_zero_s());
                }
                let prev = if k == 0 {
                    R::one()
                } else {
                    proof {
                        assert(work@[k - 1] == work.data@[k - 1]@);
                    }
                    work.data[k - 1][k - 1]
                };
                proof {
                    if k == 0 {
                        R::one_not_zero();
                    }
                    assert(prev == bareiss_prev_s(g2, k as nat));
                    assert(!prev.is_zero_s());
                }
                let ghost target = bareiss_elim_s(g2, n as nat, k as nat, prev);
                proof {
                    assert(work@[k as int] == work.data@[k as int]@);
                }
                let pivot = work.data[k][k];
                let mut i: usize = k + 1;
                while i < n
                    invariant
                        work.wf(),
                        work.dimension == n,
                        k < n,
                        k + 1 <= i <= n,
                        !prev.is_zero_s(),
                        pivot == g2[k as int][k as int],
                        target == bareiss_elim_s(g2, n as nat, k as nat, prev),
                        g2.len() == n,
                        forall|a: int| 0 <= a < n ==> (#[trigger] g2[a]).len() == n,
                        forall|a: int, b: int|
                            0 <= a < n && 0 <= b < n ==> work@[a][b] == (if a > k && b > k && a
                                < i {
                                target[a][b]
                            } else {
                                g2[a][b]
                            }),
                    decreases n - i,
                {
                    let mut j: usize = k + 1;
                    while j < n
                        invariant
                            work.wf(),
                            work.dimension == n,
                            k < n,
                            k < i < n,
                            k + 1 <= j <= n,
                            !prev.is_zero_s(),
                            pivot == g2[k as int][k as int],
                            target == bareiss_elim_s(g2, n as nat, k as nat, prev),
                            g2.len() == n,
                            forall|a: int| 0 <= a < n ==> (#[trigger] g2[a]).len() == n,
                            forall|a: int, b: int|
                                0 <= a < n && 0 <= b < n ==> work@[a][b] == (if a > k && b > k && (
                                a < i || (a == i && b < j)) {
                                    target[a][b]
                                } else {
                                    g2[a][b]
                                }),
                        decreases n - j,
                    {
                        proof {
                            assert(work@[i as int] == work.data@[i as int]@);
                            assert(work@[k as int] == work.data@[k as int]@);
                        }
                        let e = work.data[i][j].mul(pivot).sub(
                            work.data[i][k].mul(work.data[k][j]),
                        ).div(prev);
                        proof {
                            assert(e == target[i as int][j as int]);
                        }
                        work.put(i, j, e);
                        j += 1;
                    }
                    i += 1;
                }
                proof {
                    assert forall|a: int| 0 <= a < n implies #[trigger] work@[a] =~= target[a] by {
                        assert(work@[a].len() == n);
                        assert(target[a].len() == n);
                    }
                    assert(work@ =~~= target);
                    assert(bareiss_run_s(g0, n as nat, k as nat, sig0) == bareiss_run_s(
                        work@,
                        n as nat,
                        (k + 1) as nat,
                        sig2,
                    ));
                    assert(work@[k as int][k as int] == g2[k as int][k as int]);
                }
                k += 1;
            },
        }
    }
    proof {
        assert(work@[n - 1] == work.data@[n - 1]@);
        assert(bareiss_run_s(work@, n as nat, k as nat, sign) == work@[n - 1][n - 1].mul_s(
            sign.as_number_s(),
        ));
    }
    Ok(work.data[n - 1][n - 1].mul(sign.as_number::<R>()))
}

/// The row, among rows `i` to `upto` of column `j`, holding the greatest
/// absolute value, the earliest such row when several are equal.
pub open spec fn gauss_max_row_s<R: Ring>(g: Seq<Seq<R>>, i: int, j: int, upto: int) -> int
    decreases upto - i,
{
    if upto <= i + 1 {
        i
    } else {
        let best = gauss_max_row_s(g, i, j, upto - 1);
        if g[best][j].abs_s().lt_s(g[upto - 1][j].abs_s()) {
            upto - 1
        } else {
            best
        }
    }
}

/// One elimination step of Gaussian reduction: every row below the pivot
/// row `i` gets column `j` cleared and the remaining columns reduced by the
/// pivot-row multiple.
pub open spec fn gauss_elim_s<R: Ring>(g: Seq<Seq<R>>, n: nat, i: int, j: int) -> Seq<Seq<R>> {
    Seq::new(
        n,
        |r: int|
            if r <= i {
                g[r]
            } else {
                Seq::new(
                    n,
                    |c: int|
                        if c < j {
                            g[r][c]
                        } else if c == j {
                            R::zero_s()
                        } else {
                            g[r][c].sub_s(g[i][c].mul_s(g[r][j].div_s(g[i][j])))
                        },
                )
            },
    )
}

/// The reduced grid and accumulated row-swap parity that Gaussian
/// elimination with partial pivoting produces, starting from pivot row `i`
/// and pivot column `j`: columns whose candidates are all zero are skipped
/// without advancing the row.
pub open spec fn gauss_run_s<R: Ring>(
    g: Seq<Seq<R>>,
    n: nat,
    i: nat,
    j: nat,
    sig: Signature,
) -> (Seq<Seq<R>>, Signature)
    decreases n - j,
{
    if i >= n || j >= n {
        (g, sig)
    } else {
        let mr = gauss_max_row_s(g, i as int, j as int, n as int);
        if g[mr][j as int].is_zero_s() {
            gauss_run_s(g, n, i, j + 1, sig)
        } else {
            let g2 = if mr == i {
                g
            } else {
                g.update(i as int, g[mr]).update(mr, g[i as int])
            };
            let sig2 = if mr == i {
                sig
            } else {
                sig.flip_s()
            };
            gauss_run_s(gauss_elim_s(g2, n, i as int, j as int), n, i + 1, j + 1, sig2)
        }
    }
}

/// The product of the first `c` diagonal entries of a grid.
pub open spec fn diag_prod_s<R: Ring>(g: Seq<Seq<R>>, c: nat) -> R
    decreases c,
{
    if c == 0 {
        R::one_s()
    } else {
        diag_prod_s(g, (c - 1) as nat).mul_s(g[c - 1][c - 1])
    }
}

/// The determinant that Gaussian elimination computes: the product of the
/// diagonal of the reduced matrix, times the sign of the row swaps the
/// pivoting performed.
pub open spec fn gauss_det_s<R: Ring>(m: Seq<Seq<R>>, n: nat) -> R {
    let run = gauss_run_s(m, n, 0, 0, Signature::Even);
    diag_prod_s(run.0, n).mul_s(run.1.as_number_s())
}

/// Gaussian elimination with partial pivoting, also keeping the parity of
/// the row swaps performed so that the determinant can be read off the
/// diagonal of the result.
fn gaussian_elimination_signed<R: Ring>(matrix: &SquareMatrix<R>) -> (r: (
    SquareMatrix<R>,
    Signature,
))
    requires
        matrix.wf(),
    ensures
        r.0.wf(),
        r.0.dimension == matrix.dimension,
        (r.0@, r.1) == gauss_run_s(
            matrix@,
            matrix.dimension as nat,
            0,
            0,
            Signature::Even,
        ),
{
    let n = matrix.dimension();
    let mut work = matrix.duplicate();
    let mut sign = Signature::Even;
    let mut i: usize = 0;
    let mut j: usize = 0;
    while i < n && j < n
        invariant
            work.wf(),
            work.dimension == n,
            n == matrix.dimension,
            i <= n,
            j <= n,
            gauss_run_s(work@, n as nat, i as nat, j as nat, sign) == gauss_run_s(
                matrix@,
                n as nat,
                0,
                0,
                Signature::Even,
            ),
        decreases n - j,
    {
        let mut max_row: usize = i;
        let mut k: usize = i + 1;
        while k < n
            invariant
                work.wf(),
                work.dimension == n,
                i < n,
                j < n,
                i <= max_row < k,
                i + 1 <= k <= n,
                max_row as int == gauss_max_row_s(work@, i as int, j as int, k as int),
            decreases n - k,
        {
            proof {
                assert(work@[max_row as int] == work.data@[max_row as int]@);
                assert(work@[k as int] == work.data@[k as int]@);
            }
            let current = work.data[max_row][j].abs_value();
            let candidate = work.data[k][j].abs_value();
            if current.lt(&candidate) {
                max_row = k;
            }
            k += 1;
        }
        proof {
            assert(work@[max_row as int] == work.data@[max_row as int]@);
        }
        if work.data[max_row][j].is_zero() {
            proof {
                assert(gauss_run_s(work@, n as nat, i as nat, j as nat, sign) == gauss_run_s(
                    work@,
                    n as nat,
                    i as nat,
                    (j + 1) as nat,
                    sign,
                ));
            }
            j += 1;
        } else {
            let ghost g0 = work@;
            let ghost sig0 = sign;
            if max_row != i {
                work.swap_rows_in(i, max_row);
                sign.change();
            }
            let ghost g2 = work@;
            let ghost sig2 = sign;
            proof {
                assert(!g2[i as int][j as int].is_zero_s());
            }
            let ghost target = gauss_elim_s(g2, n as nat, i as int, j as int);
            proof {
                assert(work@[i as int] == work.data@[i as int]@);
            }
            let pivot = work.data[i][j];
            let mut r: usize = i + 1;
            while r < n
                invariant
                    work.wf(),
                    work.dimension == n,
                    i < n,
                    j < n,
                    i + 1 <= r <= n,
                    pivot == g2[i as int][j as int],
                    !pivot.is_zero_s(),
                    target == gauss_elim_s(g2, n as nat, i as int, j as int),
                    g2.len() == n,
                    forall|a: int| 0 <= a < n ==> (#[trigger] g2[a]).len() == n,
                    forall|a: int, b: int|
                        0 <= a < n && 0 <= b < n ==> work@[a][b] == (if a > i && a < r {
                            target[a][b]
                        } else {
                            g2[a][b]
                        }),
                decreases n - r,
            {
                proof {
                    assert(work@[r as int] == work.data@[r as int]@);
                }
                let factor = work.data[r][j].div(pivot);
                work.put(r, j, R::zero());
                let mut c: usize = j + 1;
                while c < n
                    invariant
                        work.wf(),
                        work.dimension == n,
                        i < n,
                        j < n,
                        i < r < n,
                        j + 1 <= c <= n,
                        pivot == g2[i as int][j as int],
                        !pivot.is_zero_s(),
                        factor == g2[r as int][j as int].div_s(pivot),
                        target == gauss_elim_s(g2, n as nat, i as int, j as int),
                        g2.len() == n,
                        forall|a: int| 0 <= a < n ==> (#[trigger] g2[a]).len() == n,
                        forall|a: int, b: int|
                            0 <= a < n && 0 <= b < n ==> work@[a][b] == (if a > i && (a < r || (a
                                == r && (b == j || (j < b < c)))) {
                                target[a][b]
                            } else {
                                g2[a][b]
                            }),
                    decreases n - c,
                {
                    proof {
                        assert(work@[r as int] == work.data@[r as int]@);
                        assert(work@[i as int] == work.data@[i as int]@);
                    }
                    let e = work.data[r][c].sub(work.data[i][c].mul(factor));
                    proof {
                        assert(e == target[r as int][c as int]);
                    }
                    work.put(r, c, e);
                    c += 1;
                }
                r += 1;
            }
            proof {
                assert forall|a: int| 0 <= a < n implies #[trigger] work@[a] =~= target[a] by {
                    assert(work@[a].len() == n);
                    if a <= i {
                        assert(target[a] == g2[a]);
                    } else {
                        assert(target[a].len() == n);
                    }
                }
                assert(work@ =~~= target);
                assert(gauss_run_s(g0, n as nat, i as nat, j as nat, sig0) == gauss_run_s(
                    work@,
                    n as nat,
                    (i + 1) as nat,
                    (j + 1) as nat,
                    sig2,
                ));
            }
            i += 1;
            j += 1;
        }
    }
    (work, sign)
}

/// Gaussian elimination method for calculating the determinant of a
/// matrix: reduce to row-echelon form, multiply the diagonal of the
/// result, and correct by the sign of the row swaps the partial pivoting
/// performed.
pub fn gaussian_elimination_determinant<R: Ring>(matrix: &SquareMatrix<R>) -> (r: Result<
    R,
    MatrixError,
>)
    requires
        matrix.wf(),
    ensures
        r == Ok::<R, MatrixError>(gauss_det_s(matrix@, matrix.dimension as nat)),
{
    let n = matrix.dimension();
    let (reduced, sign) = gaussian_elimination_signed(matrix);
    let mut determinant = R::one();
    let mut i: usize = 0;
    while i < n
        invariant
            reduced.wf(),
            reduced.dimension == n,
            i <= n,
            determinant == diag_prod_s(reduced@, i as nat),
        decreases n - i,
    {
        proof {
            assert(reduced@[i as int] == reduced.data@[i as int]@);
        }
        determinant = determinant.mul(reduced.data[i][i]);
        i += 1;
    }
    Ok(determinant.mul(sign.as_number::<R>()))
}

impl<R: Ring> SquareMatrix<R> {
    /// Returns a brand new matrix resulting from Gaussian elimination with
    /// partial pivoting: for each pivot column the row with the greatest
    /// absolute value is swapped into place and every row below is reduced;
    /// a column whose candidates are all zero is skipped without advancing
    /// the pivot row, which handles rank-deficient matrices. The receiver
    /// is never mutated.
    pub fn gaussian_elimination(&self) -> (r: Result<Self, MatrixError>)
        requires
            self.wf(),
        ensures
            match r {
                Ok(m) => {
                    &&& m.wf()
                    &&& m.dimension == self.dimension
                    &&& m@ == gauss_run_s(
                        self@,
                        self.dimension as nat,
                        0,
                        0,
                        Signature::Even,
                    ).0
                },
                Err(_) => false,
            },
    {
        let (reduced, _sign) = gaussian_elimination_signed(self);
        Ok(reduced)
    }

    /// Routes to the selected determinant algorithm.
    ///
    /// The [`DeterminantMethod::Optimize`] policy chooses by size: the
    /// triangle rule below dimension four, the Bareiss algorithm below
    /// dimension ten, and Laplace expansion beyond. The fallback is a
    /// heuristic, not a claim of optimality: the factorial cost of Laplace
    /// expansion makes it a poor choice for large matrices.
    pub fn determinant(&self, determinant_method: DeterminantMethod) -> (r: Result<
        R,
        MatrixError,
    >)
        requires
            self.wf(),
            determinant_method is BareissAlgorithm ==> self.dimension >= 1,
        ensures
            match determinant_method {
                DeterminantMethod::TriangleRule => match r {
                    Ok(v) => 1 <= self.dimension <= 3 && v == triangle_s(
                        self@,
                        self.dimension as nat,
                    ),
                    Err(e) => {
                        &&& e == MatrixError::InvalidDimension(self.dimension)
                        &&& (self.dimension == 0 || self.dimension > 3)
                    },
                },
                DeterminantMethod::BareissAlgorithm => r == Ok::<R, MatrixError>(
                    bareiss_s(self@, self.dimension as nat),
                ),
                DeterminantMethod::LaplaceExpansion => r == Ok::<R, MatrixError>(
                    det_s(self@, self.dimension as nat),
                ),
                DeterminantMethod::GaussianElimination => r == Ok::<R, MatrixError>(
                    gauss_det_s(self@, self.dimension as nat),
                ),
                DeterminantMethod::Optimize => if self.dimension < 4 {
                    match r {
                        Ok(v) => 1 <= self.dimension <= 3 && v == triangle_s(
                            self@,
                            self.dimension as nat,
                        ),
                        Err(e) => {
                            &&& e == MatrixError::InvalidDimension(self.dimension)
                            &&& self.dimension == 0
                        },
                    }
                } else if self.dimension < 10 {
                    r == Ok::<R, MatrixError>(bareiss_s(self@, self.dimension as nat))
                } else {
                    r == Ok::<R, MatrixError>(det_s(self@, self.dimension as nat))
                },
            },
    {
        match determinant_method {
            DeterminantMethod::TriangleRule => triangle_rule(self),
            DeterminantMethod::BareissAlgorithm => bareiss_algorithm(self),
            DeterminantMethod::LaplaceExpansion => montante_algorithm(self),
            DeterminantMethod::GaussianElimination => gaussian_elimination_determinant(self),
            DeterminantMethod::Optimize => best_determinant_method(self),
        }
    }
}

/// The size-based choice of algorithm behind
/// [`DeterminantMethod::Optimize`].
fn best_determinant_method<R: Ring>(matrix: &SquareMatrix<R>) -> (r: Result<R, MatrixError>)
    requires
        matrix.wf(),
    ensures
        if matrix.dimension < 4 {
            match r {
                Ok(v) => 1 <= matrix.dimension <= 3 && v == triangle_s(
                    matrix@,
                    matrix.dimension as nat,
                ),
                Err(e) => {
                    &&& e == MatrixError::InvalidDimension(matrix.dimension)
                    &&& matrix.dimension == 0
                },
            }
        } else if matrix.dimension < 10 {
            r == Ok::<R, MatrixError>(bareiss_s(matrix@, matrix.dimension as nat))
        } else {
            r == Ok::<R, MatrixError>(det_s(matrix@, matrix.dimension as nat))
        },
{
    if matrix.dimension() < 4 {
        return triangle_rule(matrix);
    }
    if matrix.dimension() < 10 {
        return bareiss_algorithm(matrix);
    }
    montante_algorithm(matrix)
}

/// Every cofactor term of a grid whose last two rows are equal vanishes,
/// so the partial sums are all zero.
proof fn lemma_equal_last_rows_sum<R: RingLaws>(m: Seq<Seq<R>>, n: nat, c: nat)
    requires
        is_grid(m, n),
        n >= 3,
        m[n - 2] == m[n - 1],
        c <= n,
    ensures
        laplace_sum_s(m, n, c) == R::zero_s(),
    decreases n, 0nat, c,
{
    if c == 0 {
    } else {
        lemma_equal_last_rows_sum::<R>(m, n, (c - 1) as nat);
        let mi = minor_s(m, 0, c - 1);
        lemma_minor_is_grid(m, n, 0, c - 1);
        lemma_minor_row(m, 0, c - 1, n - 3);
        lemma_minor_row(m, 0, c - 1, n - 2);
        assert(mi[n - 3] == mi[n - 2]);
        lemma_det_equal_last_rows::<R>(mi, (n - 1) as nat);
        let term = sign_s::<R>((c - 1) as nat).mul_s(m[0][c - 1]).mul_s(
            det_s(mi, (n - 1) as nat),
        );
        lemma_mul_zero_right::<R>(sign_s::<R>((c - 1) as nat).mul_s(m[0][c - 1]));
        R::add_zero(laplace_sum_s(m, n, (c - 1) as nat));
    }
}

/// A grid whose last two rows are equal has determinant zero, whatever
/// its dimension: each cofactor minor inherits the equal rows, down to the
/// two-by-two base case.
pub proof fn lemma_det_equal_last_rows<R: RingLaws>(m: Seq<Seq<R>>, n: nat)
    requires
        is_grid(m, n),
        n >= 2,
        m[n - 2] == m[n - 1],
    ensures
        det_s(m, n) == R::zero_s(),
    decreases n, 1nat, 0nat,
{
    if n == 2 {
        lemma_det_equal_rows_dim2::<R>(m);
    } else {
        lemma_equal_last_rows_sum::<R>(m, n, n);
    }
}

/// The cofactor terms of a grid with its last two rows exchanged are the
/// negations of the original terms, so the partial sums negate as well.
proof fn lemma_swap_last_rows_sum<R: RingLaws>(m: Seq<Seq<R>>, n: nat, c: nat)
    requires
        is_grid(m, n),
        n >= 3,
        c <= n,
    ensures
        laplace_sum_s(m.update(n - 2, m[n - 1]).update(n - 1, m[n - 2]), n, c) == laplace_sum_s(
            m,
            n,
            c,
        ).neg_s(),
    decreases n, 0nat, c,
{
    let w = m.update(n - 2, m[n - 1]).update(n - 1, m[n - 2]);
    assert(is_grid(w, n));
    if c == 0 {
        lemma_neg_zero::<R>();
    } else {
        lemma_swap_last_rows_sum::<R>(m, n, (c - 1) as nat);
        let mi = minor_s(m, 0, c - 1);
        let wi = minor_s(w, 0, c - 1);
        lemma_minor_is_grid(m, n, 0, c - 1);
        lemma_minor_is_grid(w, n, 0, c - 1);
        assert(wi =~~= mi.update(n - 3, mi[n - 2]).update(n - 2, mi[n - 3])) by {
            assert forall|i: int| 0 <= i < n - 1 implies #[trigger] wi[i] =~= mi.update(
                n - 3,
                mi[n - 2],
            ).update(n - 2, mi[n - 3])[i] by {
                lemma_minor_row(w, 0, c - 1, i);
                lemma_minor_row(m, 0, c - 1, i);
                if i == n - 3 {
                    lemma_minor_row(m, 0, c - 1, n - 2);
                } else if i == n - 2 {
                    lemma_minor_row(m, 0, c - 1, n - 3);
                }
            }
        }
        lemma_det_swap_last_rows::<R>(mi, (n - 1) as nat);
        assert(det_s(wi, (n - 1) as nat) == det_s(mi, (n - 1) as nat).neg_s());
        assert(w[0] == m[0]);
        let signed_entry = sign_s::<R>((c - 1) as nat).mul_s(m[0][c - 1]);
        lemma_mul_neg_right::<R>(signed_entry, det_s(mi, (n - 1) as nat));
        lemma_neg_add::<R>(
            laplace_sum_s(m, n, (c - 1) as nat),
            signed_entry.mul_s(det_s(mi, (n - 1) as nat)),
        );
    }
}

/// Exchanging the last two rows of a grid negates its determinant,
/// whatever the dimension: each cofactor minor inherits the exchange,
/// down to the two-by-two base case.
pub proof fn lemma_det_swap_last_rows<R: RingLaws>(m: Seq<Seq<R>>, n: nat)
    requires
        is_grid(m, n),
        n >= 2,
    ensures
        det_s(m.update(n - 2, m[n - 1]).update(n - 1, m[n - 2]), n) == det_s(m, n).neg_s(),
    decreases n, 1nat, 0nat,
{
    if n == 2 {
        lemma_det_swap_rows_dim2::<R>(m);
    } else {
        lemma_swap_last_rows_sum::<R>(m, n, n);
    }
}

} // verus!
