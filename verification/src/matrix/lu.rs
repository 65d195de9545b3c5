//! LU decomposition of square matrices.

use vstd::prelude::*;

use crate::identities::{One, Zero};
use crate::matrix::square::{identity_s, SquareMatrix};
use crate::matrix::MatrixError;
use crate::structures::Ring;

verus! {

/// The factors that classical LU decomposition without pivoting produces,
/// starting at pivot `k` with the current factors `l` and `u`, or nothing
/// when a pivot on the diagonal of `u` is zero.
pub open spec fn lu_run_s<R: Ring>(l: Seq<Seq<R>>, u: Seq<Seq<R>>, n: nat, k: nat) -> Option<
    (Seq<Seq<R>>, Seq<Seq<R>>),
>
    decreases n - k,
{
    if k >= n {
        Some((l, u))
    } else if u[k as int][k as int].is_zero_s() {
        None
    } else {
        lu_run_s(lu_l_step_s(l, u, n, k), lu_u_step_s(u, n, k), n, k + 1)
    }
}

/// One step of the lower factor: column `k` below the diagonal receives
/// the elimination multipliers.
pub open spec fn lu_l_step_s<R: Ring>(l: Seq<Seq<R>>, u: Seq<Seq<R>>, n: nat, k: nat) -> Seq<
    Seq<R>,
> {
    Seq::new(
        n,
        |i: int|
            Seq::new(
                n,
                |j: int|
                    if j == k && i > k {
                        u[i][k as int].div_s(u[k as int][k as int])
                    } else {
                        l[i][j]
                    },
            ),
    )
}

/// One step of the upper factor: every row below the pivot row is reduced
/// by its multiplier times the pivot row, from the pivot column onward.
pub open spec fn lu_u_step_s<R: Ring>(u: Seq<Seq<R>>, n: nat, k: nat) -> Seq<Seq<R>> {
    Seq::new(
        n,
        |i: int|
            Seq::new(
                n,
                |j: int|
                    if i > k && j >= k {
                        u[i][j].sub_s(
                            u[i][k as int].div_s(u[k as int][k as int]).mul_s(u[k as int][j]),
                        )
                    } else {
                        u[i][j]
                    },
            ),
    )
}

/// The LU factors of an `n` × `n` grid, when every pivot is nonzero.
pub open spec fn lu_s<R: Ring>(m: Seq<Seq<R>>, n: nat) -> Option<(Seq<Seq<R>>, Seq<Seq<R>>)> {
    lu_run_s(identity_s::<R>(n), m, n, 0)
}

impl<R: Ring> SquareMatrix<R> {
    /// Computes the LU decomposition of the matrix without pivoting: `L`
    /// starts as the identity and collects the elimination multipliers, `U`
    /// starts as the matrix itself and is reduced in place.
    ///
    /// ## Errors
    /// This routine has no pivoting safeguard, so a zero pivot on the
    /// diagonal of `U` stops it with [`MatrixError::MatrixError`]; on such
    /// matrices no factors are returned rather than unsound ones.
    pub fn lu(&self) -> (r: Result<(SquareMatrix<R>, SquareMatrix<R>), MatrixError>)
        requires
            self.wf(),
        ensures
            match r {
                Ok(pair) => {
                    &&& pair.0.wf()
                    &&& pair.1.wf()
                    &&& pair.0.dimension == self.dimension
                    &&& pair.1.dimension == self.dimension
                    &&& lu_s(self@, self.dimension as nat) == Some((pair.0@, pair.1@))
                },
                Err(e) => {
                    &&& lu_s(self@, self.dimension as nat) is None
                    &&& e matches MatrixError::MatrixError(msg) && msg@
                        == "Matrix has zero elements in diagonal"@
                },
            },
    {
        broadcast use vstd::string::to_string_from_display_ensures_for_str;

        let n = self.dimension();
        let mut l = SquareMatrix::<R>::identity(n);
        let mut u = self.duplicate();
        let mut k: usize = 0;
        while k < n
            invariant
                l.wf(),
                u.wf(),
                l.dimension == n,
                u.dimension == n,
                n == self.dimension,
                k <= n,
                lu_run_s(l@, u@, n as nat, k as nat) == lu_s(self@, n as nat),
            decreases n - k,
        {
            proof {
                assert(u@[k as int] == u.data@[k as int]@);
            }
            if u.data[k][k].is_zero() {
                return Err(
                    MatrixError::MatrixError("Matrix has zero elements in diagonal".to_string()),
                );
            }
            let pivot = u.data[k][k];
            let ghost l0 = l@;
            let ghost u0 = u@;
            let ghost l_target = lu_l_step_s(l0, u0, n as nat, k as nat);
            let ghost u_target = lu_u_step_s(u0, n as nat, k as nat);
            let mut i: usize = k + 1;
            while i < n
                invariant
                    l.wf(),
                    u.wf(),
                    l.dimension == n,
                    u.dimension == n,
                    k < n,
                    k + 1 <= i <= n,
                    pivot == u0[k as int][k as int],
                    !pivot.is_zero_s(),
                    l_target == lu_l_step_s(l0, u0, n as nat, k as nat),
                    u_target == lu_u_step_s(u0, n as nat, k as nat),
                    l0.len() == n,
                    u0.len() == n,
                    forall|a: int| 0 <= a < n ==> (#[trigger] l0[a]).len() == n,
                    forall|a: int| 0 <= a < n ==> (#[trigger] u0[a]).len() == n,
                    forall|a: int, b: int|
                        0 <= a < n && 0 <= b < n ==> l@[a][b] == (if b == k && k < a < i {
                            l_target[a][b]
                        } else {
                            l0[a][b]
                        }),
                    forall|a: int, b: int|
                        0 <= a < n && 0 <= b < n ==> u@[a][b] == (if k < a < i && b >= k {
                            u_target[a][b]
                        } else {
                            u0[a][b]
                        }),
                decreases n - i,
            {
                proof {
                    assert(u@[i as int] == u.data@[i as int]@);
                }
                let factor = u.data[i][k].div(pivot);
                l.put(i, k, factor);
                let mut j: usize = k;
                while j < n
                    invariant
                        u.wf(),
                        u.dimension == n,
                        k < n,
                        k < i < n,
                        k <= j <= n,
                        pivot == u0[k as int][k as int],
                        !pivot.is_zero_s(),
                        factor == u0[i as int][k as int].div_s(pivot),
                        u_target == lu_u_step_s(u0, n as nat, k as nat),
                        u0.len() == n,
                        forall|a: int| 0 <= a < n ==> (#[trigger] u0[a]).len() == n,
                        forall|a: int, b: int|
                            0 <= a < n && 0 <= b < n ==> u@[a][b] == (if (k < a < i && b >= k) || (
                            a == i && k <= b < j) {
                                u_target[a][b]
                            } else {
                                u0[a][b]
                            }),
                    decreases n - j,
                {
                    proof {
                        assert(u@[i as int] == u.data@[i as int]@);
                        assert(u@[k as int] == u.data@[k as int]@);
                    }
                    let e = u.data[i][j].sub(factor.mul(u.data[k][j]));
                    proof {
                        assert(e == u_target[i as int][j as int]);
                    }
                    u.put(i, j, e);
                    j += 1;
                }
                i += 1;
            }
            proof {
                assert forall|a: int| 0 <= a < n implies #[trigger] l@[a] =~= l_target[a] by {
                    assert(l@[a].len() == n);
                    assert(l_target[a].len() == n);
                }
                assert(l@ =~~= l_target);
                assert forall|a: int| 0 <= a < n implies #[trigger] u@[a] =~= u_target[a] by {
                    assert(u@[a].len() == n);
                    assert(u_target[a].len() == n);
                }
                assert(u@ =~~= u_target);
                assert(lu_run_s(l0, u0, n as nat, k as nat) == lu_run_s(
                    l@,
                    u@,
                    n as nat,
                    (k + 1) as nat,
                ));
            }
            k += 1;
        }
        Ok((l, u))
    }
}

} // verus!
