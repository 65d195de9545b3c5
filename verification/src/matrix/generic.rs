//! The rectangular matrix container and its arithmetic.

use vstd::prelude::*;

use crate::identities::Zero;
use crate::matrix::MatrixError;
use crate::result::MathError;
use crate::structures::Ring;

verus! {

/// A rectangular grid of ring elements: every row has the same number of
/// columns.
#[derive(Debug, Clone, PartialEq)]
pub struct Matrix<R: Ring> {
    /// The rows of the matrix.
    pub data: Vec<Vec<R>>,
}

impl<R: Ring> View for Matrix<R> {
    type V = Seq<Seq<R>>;

    open spec fn view(&self) -> Seq<Seq<R>> {
        self.data@.map_values(|row: Vec<R>| row@)
    }
}

/// The element-wise sum of two grids of the given shape.
pub open spec fn rect_add_s<R: Ring>(
    a: Seq<Seq<R>>,
    b: Seq<Seq<R>>,
    rows: nat,
    columns: nat,
) -> Seq<Seq<R>> {
    Seq::new(rows, |i: int| Seq::new(columns, |j: int| a[i][j].add_s(b[i][j])))
}

/// The element-wise difference of two grids of the given shape.
pub open spec fn rect_sub_s<R: Ring>(
    a: Seq<Seq<R>>,
    b: Seq<Seq<R>>,
    rows: nat,
    columns: nat,
) -> Seq<Seq<R>> {
    Seq::new(rows, |i: int| Seq::new(columns, |j: int| a[i][j].sub_s(b[i][j])))
}

/// The element-wise negation of a grid of the given shape.
pub open spec fn rect_neg_s<R: Ring>(a: Seq<Seq<R>>, rows: nat, columns: nat) -> Seq<Seq<R>> {
    Seq::new(rows, |i: int| Seq::new(columns, |j: int| a[i][j].neg_s()))
}

/// The sum of the first `t` products pairing row `i` of `a` with column
/// `j` of `b`.
pub open spec fn rect_dot_s<R: Ring>(a: Seq<Seq<R>>, b: Seq<Seq<R>>, i: int, j: int, t: nat) -> R
    decreases t,
{
    if t == 0 {
        R::zero_s()
    } else {
        rect_dot_s(a, b, i, j, (t - 1) as nat).add_s(a[i][t - 1].mul_s(b[t - 1][j]))
    }
}

/// The matrix product of a `rows` × `inner` grid and an `inner` ×
/// `columns` grid.
pub open spec fn rect_mul_s<R: Ring>(
    a: Seq<Seq<R>>,
    b: Seq<Seq<R>>,
    rows: nat,
    inner: nat,
    columns: nat,
) -> Seq<Seq<R>> {
    Seq::new(rows, |i: int| Seq::new(columns, |j: int| rect_dot_s(a, b, i, j, inner)))
}

/// The first position, scanning rows from `i` down within a lead column
/// and then moving one column right and restarting at row `r`, whose entry
/// is not below the tolerance.
pub open spec fn reduction_pivot_s<R: Ring>(
    m: Seq<Seq<R>>,
    rows: nat,
    columns: nat,
    tolerance: R,
    r: nat,
    i: nat,
    lead: nat,
) -> Option<(int, int)>
    decreases columns - lead, rows - i,
{
    if lead >= columns {
        None
    } else if i >= rows {
        reduction_pivot_s(m, rows, columns, tolerance, r, r, lead + 1)
    } else if !m[i as int][lead as int].lt_s(tolerance) {
        Some((i as int, lead as int))
    } else {
        reduction_pivot_s(m, rows, columns, tolerance, r, i + 1, lead)
    }
}

/// One reduction step: every row other than the pivot row `r` is reduced,
/// over every column, by its lead-column multiple of the pivot row.
pub open spec fn reduction_elim_s<R: Ring>(
    g: Seq<Seq<R>>,
    rows: nat,
    columns: nat,
    r: int,
    lead: int,
) -> Seq<Seq<R>> {
    Seq::new(
        rows,
        |a: int|
            if a == r {
                g[a]
            } else {
                Seq::new(
                    columns,
                    |b: int| g[a][b].sub_s(g[a][lead].div_s(g[r][lead]).mul_s(g[r][b])),
                )
            },
    )
}

/// The grid that Gaussian reduction produces from pivot row `r` and lead
/// column `lead` on: the pivot search scans down then right, the selected
/// row is swapped into place, and every other row is reduced unless the
/// selected pivot is zero.
pub open spec fn reduction_run_s<R: Ring>(
    g: Seq<Seq<R>>,
    rows: nat,
    columns: nat,
    tolerance: R,
    r: nat,
    lead: nat,
) -> Seq<Seq<R>>
    decreases rows - r,
{
    if r >= rows || lead >= columns {
        g
    } else {
        match reduction_pivot_s(g, rows, columns, tolerance, r, r, lead) {
            None => g,
            Some((i, l)) => {
                let g2 = g.update(i, g[r as int]).update(r as int, g[i]);
                if g2[r as int][l].is_zero_s() {
                    reduction_run_s(g2, rows, columns, tolerance, r + 1, (l + 1) as nat)
                } else {
                    reduction_run_s(
                        reduction_elim_s(g2, rows, columns, r as int, l),
                        rows,
                        columns,
                        tolerance,
                        r + 1,
                        (l + 1) as nat,
                    )
                }
            },
        }
    }
}

impl<R: Ring> Matrix<R> {
    /// The shape invariant: every row has the same number of columns.
    pub open spec fn wf(self) -> bool {
        forall|i: int| 0 <= i < self@.len() ==> (#[trigger] self@[i]).len() == self.columns_s()
    }

    /// The number of rows.
    pub open spec fn rows_s(self) -> nat {
        self@.len()
    }

    /// The number of columns: the length of the first row.
    pub open spec fn columns_s(self) -> nat {
        if self@.len() == 0 {
            0
        } else {
            self@[0].len()
        }
    }

    /// Creates a new [`Matrix`] from nested rows, validating that every
    /// row has as many elements as the first.
    ///
    /// ## Errors
    /// Returns [`MatrixError::InvalidNumberOfColumns`] when the row lengths
    /// disagree.
    pub fn try_from(value: Vec<Vec<R>>) -> (r: Result<Self, MatrixError>)
        ensures
            match r {
                Ok(m) => {
                    &&& m.wf()
                    &&& m@ == value@.map_values(|row: Vec<R>| row@)
                },
                Err(e) => {
                    &&& e == MatrixError::InvalidNumberOfColumns
                    &&& exists|i: int|
                        0 <= i < value@.len() && (#[trigger] value@[i])@.len() != value@[0]@.len()
                },
            },
    {
        if value.len() == 0 {
            return Ok(Self { data: value });
        }
        let columns = value[0].len();
        let mut row: usize = 0;
        while row < value.len()
            invariant
                row <= value@.len(),
                value@.len() > 0,
                columns == value@[0]@.len(),
                forall|i: int| 0 <= i < row ==> (#[trigger] value@[i])@.len() == columns,
            decreases value@.len() - row,
        {
            if value[row].len() != columns {
                return Err(MatrixError::InvalidNumberOfColumns);
            }
            row += 1;
        }
        let m = Self { data: value };
        proof {
            assert forall|i: int| 0 <= i < m@.len() implies (#[trigger] m@[i]).len()
                == m.columns_s() by {
                assert(m@[i] == m.data@[i]@);
                assert(m@[0] == m.data@[0]@);
            }
        }
        Ok(m)
    }

    /// Creates a matrix of the given shape filled with zeros.
    pub fn with_capacity(rows: usize, columns: usize) -> (r: Self)
        ensures
            r.wf(),
            r.rows_s() == rows,
            rows > 0 ==> r.columns_s() == columns,
            forall|i: int, j: int|
                0 <= i < rows && 0 <= j < columns ==> r@[i][j] == R::zero_s(),
    {
        let mut data: Vec<Vec<R>> = Vec::new();
        let mut i: usize = 0;
        while i < rows
            invariant
                i <= rows,
                data@.len() == i,
                forall|a: int| 0 <= a < i ==> (#[trigger] data@[a])@.len() == columns,
                forall|a: int, b: int|
                    0 <= a < i && 0 <= b < columns ==> data@[a]@[b] == R::zero_s(),
            decreases rows - i,
        {
            let mut row: Vec<R> = Vec::new();
            let mut j: usize = 0;
            while j < columns
                invariant
                    j <= columns,
                    row@.len() == j,
                    forall|b: int| 0 <= b < j ==> row@[b] == R::zero_s(),
                decreases columns - j,
            {
                row.push(R::zero());
                j += 1;
            }
            data.push(row);
            i += 1;
        }
        let m = Self { data };
        proof {
            assert forall|i2: int| 0 <= i2 < m@.len() implies (#[trigger] m@[i2]).len()
                == m.columns_s() by {
                assert(m@[i2] == m.data@[i2]@);
                if rows > 0 {
                    assert(m@[0] == m.data@[0]@);
                }
            }
        }
        m
    }

    /// Returns a reference to the rows of the matrix.
    pub fn data(&self) -> (r: &Vec<Vec<R>>)
        ensures
            r@.map_values(|row: Vec<R>| row@) == self@,
    {
        &self.data
    }

    /// Returns the number of rows of the matrix.
    pub fn rows(&self) -> (r: usize)
        ensures
            r == self.rows_s(),
    {
        self.data.len()
    }

    /// Returns the number of columns of the matrix.
    pub fn columns(&self) -> (r: usize)
        ensures
            r == self.columns_s(),
    {
        if self.data.len() == 0 {
            0
        } else {
            proof {
                assert(self@[0] == self.data@[0]@);
            }
            self.data[0].len()
        }
    }

    /// Returns whether the matrix is square.
    pub fn is_square(&self) -> (r: bool)
        ensures
            r == (self.rows_s() == self.columns_s()),
    {
        self.rows() == self.columns()
    }

    /// Returns the element at the given position.
    ///
    /// ## Errors
    /// Returns [`MatrixError::ElementNotFound`] when the position lies
    /// outside the matrix.
    pub fn get(&self, row: usize, column: usize) -> (r: Result<R, MatrixError>)
        requires
            self.wf(),
        ensures
            match r {
                Ok(v) => {
                    &&& row < self.rows_s()
                    &&& column < self.columns_s()
                    &&& v == self@[row as int][column as int]
                },
                Err(e) => {
                    &&& e == MatrixError::ElementNotFound(row, column)
                    &&& (row >= self.rows_s() || column >= self.columns_s())
                },
            },
    {
        if row >= self.data.len() {
            return Err(MatrixError::ElementNotFound(row, column));
        }
        proof {
            assert(self@[row as int] == self.data@[row as int]@);
        }
        if column >= self.data[row].len() {
            return Err(MatrixError::ElementNotFound(row, column));
        }
        Ok(self.data[row][column])
    }

    /// Overwrites the element at the given position.
    ///
    /// ## Errors
    /// Returns [`MatrixError::ElementNotFound`] when the position lies
    /// outside the matrix.
    pub fn set(&mut self, row: usize, column: usize, value: R) -> (r: Result<(), MatrixError>)
        requires
            old(self).wf(),
        ensures
            final(self).wf(),
            final(self).rows_s() == old(self).rows_s(),
            final(self).columns_s() == old(self).columns_s(),
            match r {
                Ok(()) => {
                    &&& row < old(self).rows_s()
                    &&& column < old(self).columns_s()
                    &&& final(self)@ == old(self)@.update(
                        row as int,
                        old(self)@[row as int].update(column as int, value),
                    )
                },
                Err(e) => {
                    &&& final(self)@ == old(self)@
                    &&& e == MatrixError::ElementNotFound(row, column)
                    &&& (row >= old(self).rows_s() || column >= old(self).columns_s())
                },
            },
    {
        if row >= self.data.len() {
            return Err(MatrixError::ElementNotFound(row, column));
        }
        proof {
            assert(old(self)@[row as int] == old(self).data@[row as int]@);
        }
        if column >= self.data[row].len() {
            return Err(MatrixError::ElementNotFound(row, column));
        }
        let row_vec = &mut self.data[row];
        row_vec.set(column, value);
        proof {
            assert(self@ =~= old(self)@.update(
                row as int,
                old(self)@[row as int].update(column as int, value),
            ));
            assert forall|i: int| 0 <= i < self@.len() implies (#[trigger] self@[i]).len()
                == self.columns_s() by {
                assert(old(self)@[i].len() == old(self).columns_s());
                if self@.len() > 0 {
                    assert(old(self)@[0].len() == old(self).columns_s());
                }
            }
        }
        Ok(())
    }

    /// Exchanges two rows in place; a no-op when the two indices are equal.
    ///
    /// ## Errors
    /// Returns [`MatrixError::InvalidNumberOfRows`] when either index is
    /// out of bounds.
    pub fn swap_rows(&mut self, row1: usize, row2: usize) -> (r: Result<(), MatrixError>)
        requires
            old(self).wf(),
        ensures
            final(self).wf(),
            final(self).rows_s() == old(self).rows_s(),
            final(self).columns_s() == old(self).columns_s(),
            match r {
                Ok(()) => {
                    &&& row1 < old(self).rows_s()
                    &&& row2 < old(self).rows_s()
                    &&& final(self)@ == old(self)@.update(
                        row1 as int,
                        old(self)@[row2 as int],
                    ).update(row2 as int, old(self)@[row1 as int])
                },
                Err(e) => {
                    &&& final(self)@ == old(self)@
                    &&& e == MatrixError::InvalidNumberOfRows
                    &&& (row1 >= old(self).rows_s() || row2 >= old(self).rows_s())
                },
            },
    {
        let rows = self.data.len();
        if row1 == row2 {
            if row1 >= rows {
                return Err(MatrixError::InvalidNumberOfRows);
            }
            proof {
                assert(self@ =~= self@.update(row1 as int, self@[row2 as int]).update(
                    row2 as int,
                    self@[row1 as int],
                ));
            }
            return Ok(());
        }
        if row1 >= rows || row2 >= rows {
            return Err(MatrixError::InvalidNumberOfRows);
        }
        let ghost m0 = self@;
        let ghost cols = self.columns_s();
        let n = self.columns();
        let mut j: usize = 0;
        while j < n
            invariant
                self.wf(),
                self.rows_s() == m0.len(),
                self.columns_s() == cols,
                n == cols,
                j <= n,
                row1 < m0.len(),
                row2 < m0.len(),
                row1 != row2,
                forall|a: int| 0 <= a < m0.len() ==> (#[trigger] m0[a]).len() == cols,
                forall|b: int|
                    0 <= b < j ==> self@[row1 as int][b] == m0[row2 as int][b] && self@[row2 as int][b]
                        == m0[row1 as int][b],
                forall|b: int|
                    j <= b < n ==> self@[row1 as int][b] == m0[row1 as int][b] && self@[row2 as int][b]
                        == m0[row2 as int][b],
                forall|a: int| 0 <= a < m0.len() && a != row1 && a != row2 ==> self@[a] == m0[a],
            decreases n - j,
        {
            proof {
                assert(self@[row1 as int] == self.data@[row1 as int]@);
                assert(self@[row2 as int] == self.data@[row2 as int]@);
            }
            let a = self.data[row1][j];
            let b = self.data[row2][j];
            let ghost before = self@;
            let row_vec1 = &mut self.data[row1];
            row_vec1.set(j, b);
            proof {
                assert(self@ =~= before.update(
                    row1 as int,
                    before[row1 as int].update(j as int, b),
                ));
            }
            let ghost mid = self@;
            let row_vec2 = &mut self.data[row2];
            row_vec2.set(j, a);
            proof {
                assert(self@ =~= mid.update(row2 as int, mid[row2 as int].update(j as int, a)));
                assert forall|i2: int| 0 <= i2 < self@.len() implies (#[trigger] self@[i2]).len()
                    == self.columns_s() by {
                    assert(m0[i2].len() == cols);
                    assert(m0[0].len() == cols);
                }
            }
            j += 1;
        }
        proof {
            assert forall|a: int| 0 <= a < m0.len() implies #[trigger] self@[a] == m0.update(
                row1 as int,
                m0[row2 as int],
            ).update(row2 as int, m0[row1 as int])[a] by {
                if a == row1 {
                    assert(self@[a] =~= m0[row2 as int]);
                } else if a == row2 {
                    assert(self@[a] =~= m0[row1 as int]);
                }
            }
            assert(self@ =~= m0.update(row1 as int, m0[row2 as int]).update(
                row2 as int,
                m0[row1 as int],
            ));
        }
        Ok(())
    }
}

impl<R: Ring> Matrix<R> {
    /// Returns a copy of the matrix with the same contents.
    pub fn duplicate(&self) -> (r: Self)
        requires
            self.wf(),
        ensures
            r.wf(),
            r@ == self@,
            r.rows_s() == self.rows_s(),
            r.columns_s() == self.columns_s(),
    {
        let rows = self.rows();
        let columns = self.columns();
        let mut data: Vec<Vec<R>> = Vec::new();
        let mut i: usize = 0;
        while i < rows
            invariant
                self.wf(),
                rows == self.rows_s(),
                columns == self.columns_s(),
                i <= rows,
                data@.len() == i,
                forall|a: int| 0 <= a < i ==> (#[trigger] data@[a])@ == self@[a],
            decreases rows - i,
        {
            let mut row: Vec<R> = Vec::new();
            let mut j: usize = 0;
            while j < columns
                invariant
                    self.wf(),
                    rows == self.rows_s(),
                    columns == self.columns_s(),
                    i < rows,
                    j <= columns,
                    row@.len() == j,
                    forall|b: int| 0 <= b < j ==> row@[b] == self@[i as int][b],
                decreases columns - j,
            {
                proof {
                    assert(self@[i as int] == self.data@[i as int]@);
                }
                row.push(self.data[i][j]);
                j += 1;
            }
            data.push(row);
            proof {
                assert(data@[i as int]@ =~= self@[i as int]);
            }
            i += 1;
        }
        let m = Self { data };
        proof {
            assert(m@ =~= self@);
            assert forall|a: int| 0 <= a < m@.len() implies (#[trigger] m@[a]).len()
                == m.columns_s() by {
                assert(m@[a] == self@[a]);
            }
        }
        m
    }

    /// Builds a matrix of the given shape whose cell values are given by
    /// the target grid, reading each source cell through the given
    /// function of both operands.
    fn zip_cells(a: &Self, b: &Self, target: Ghost<Seq<Seq<R>>>, use_sub: bool) -> (r: Self)
        requires
            a.wf(),
            b.wf(),
            a.rows_s() == b.rows_s(),
            a.columns_s() == b.columns_s(),
            target@ == if use_sub {
                rect_sub_s(a@, b@, a.rows_s(), a.columns_s())
            } else {
                rect_add_s(a@, b@, a.rows_s(), a.columns_s())
            },
        ensures
            r.wf(),
            r.rows_s() == a.rows_s(),
            a.rows_s() > 0 ==> r.columns_s() == a.columns_s(),
            r@ == target@,
    {
        let rows = a.rows();
        let columns = a.columns();
        let mut data: Vec<Vec<R>> = Vec::new();
        let mut i: usize = 0;
        while i < rows
            invariant
                a.wf(),
                b.wf(),
                rows == a.rows_s(),
                rows == b.rows_s(),
                columns == a.columns_s(),
                columns == b.columns_s(),
                target@ == if use_sub {
                    rect_sub_s(a@, b@, rows as nat, columns as nat)
                } else {
                    rect_add_s(a@, b@, rows as nat, columns as nat)
                },
                i <= rows,
                data@.len() == i,
                forall|x: int| 0 <= x < i ==> (#[trigger] data@[x])@ == target@[x],
            decreases rows - i,
        {
            let mut row: Vec<R> = Vec::new();
            let mut j: usize = 0;
            while j < columns
                invariant
                    a.wf(),
                    b.wf(),
                    rows == a.rows_s(),
                    rows == b.rows_s(),
                    columns == a.columns_s(),
                    columns == b.columns_s(),
                    target@ == if use_sub {
                        rect_sub_s(a@, b@, rows as nat, columns as nat)
                    } else {
                        rect_add_s(a@, b@, rows as nat, columns as nat)
                    },
                    i < rows,
                    j <= columns,
                    row@.len() == j,
                    forall|y: int| 0 <= y < j ==> row@[y] == target@[i as int][y],
                decreases columns - j,
            {
                proof {
                    assert(a@[i as int] == a.data@[i as int]@);
                    assert(b@[i as int] == b.data@[i as int]@);
                }
                let v = if use_sub {
                    a.data[i][j].sub(b.data[i][j])
                } else {
                    a.data[i][j].add(b.data[i][j])
                };
                row.push(v);
                j += 1;
            }
            data.push(row);
            proof {
                assert(data@[i as int]@ =~= target@[i as int]);
            }
            i += 1;
        }
        let m = Self { data };
        proof {
            assert(m@ =~= target@);
            assert forall|x: int| 0 <= x < m@.len() implies (#[trigger] m@[x]).len()
                == m.columns_s() by {
                assert(m@[x].len() == columns);
                assert(m@[0].len() == columns);
            }
        }
        m
    }

    /// Returns the element-wise sum of two matrices.
    ///
    /// ## Errors
    /// Returns [`MathError::MatrixError`] when the two matrices do not
    /// have the same shape.
    pub fn add(&self, rhs: &Self) -> (r: Result<Self, MathError>)
        requires
            self.wf(),
            rhs.wf(),
        ensures
            match r {
                Ok(m) => {
                    &&& self.rows_s() == rhs.rows_s()
                    &&& self.columns_s() == rhs.columns_s()
                    &&& m.wf()
                    &&& m@ == rect_add_s(self@, rhs@, self.rows_s(), self.columns_s())
                },
                Err(e) => {
                    &&& (self.rows_s() != rhs.rows_s() || self.columns_s() != rhs.columns_s())
                    &&& e matches MathError::MatrixError(msg) && msg@
                        == "Matrices must be of the same size"@
                },
            },
    {
        broadcast use vstd::string::to_string_from_display_ensures_for_str;

        if self.rows() != rhs.rows() || self.columns() != rhs.columns() {
            return Err(MathError::MatrixError("Matrices must be of the same size".to_string()));
        }
        let ghost target = rect_add_s(self@, rhs@, self.rows_s(), self.columns_s());
        Ok(Self::zip_cells(self, rhs, Ghost(target), false))
    }

    /// Returns the element-wise difference of two matrices.
    ///
    /// ## Errors
    /// Returns [`MathError::MatrixError`] when the two matrices do not
    /// have the same shape.
    pub fn sub(&self, rhs: &Self) -> (r: Result<Self, MathError>)
        requires
            self.wf(),
            rhs.wf(),
        ensures
            match r {
                Ok(m) => {
                    &&& self.rows_s() == rhs.rows_s()
                    &&& self.columns_s() == rhs.columns_s()
                    &&& m.wf()
                    &&& m@ == rect_sub_s(self@, rhs@, self.rows_s(), self.columns_s())
                },
                Err(e) => {
                    &&& (self.rows_s() != rhs.rows_s() || self.columns_s() != rhs.columns_s())
                    &&& e matches MathError::MatrixError(msg) && msg@
                        == "Matrices must be of the same size"@
                },
            },
    {
        broadcast use vstd::string::to_string_from_display_ensures_for_str;

        if self.rows() != rhs.rows() || self.columns() != rhs.columns() {
            return Err(MathError::MatrixError("Matrices must be of the same size".to_string()));
        }
        let ghost target = rect_sub_s(self@, rhs@, self.rows_s(), self.columns_s());
        Ok(Self::zip_cells(self, rhs, Ghost(target), true))
    }

    /// Returns the element-wise negation of the matrix.
    pub fn neg(&self) -> (r: Self)
        requires
            self.wf(),
        ensures
            r.wf(),
            r.rows_s() == self.rows_s(),
            r@ == rect_neg_s(self@, self.rows_s(), self.columns_s()),
    {
        let rows = self.rows();
        let columns = self.columns();
        let ghost target = rect_neg_s(self@, rows as nat, columns as nat);
        let mut data: Vec<Vec<R>> = Vec::new();
        let mut i: usize = 0;
        while i < rows
            invariant
                self.wf(),
                rows == self.rows_s(),
                columns == self.columns_s(),
                target == rect_neg_s(self@, rows as nat, columns as nat),
                i <= rows,
                data@.len() == i,
                forall|x: int| 0 <= x < i ==> (#[trigger] data@[x])@ == target[x],
            decreases rows - i,
        {
            let mut row: Vec<R> = Vec::new();
            let mut j: usize = 0;
            while j < columns
                invariant
                    self.wf(),
                    rows == self.rows_s(),
                    columns == self.columns_s(),
                    target == rect_neg_s(self@, rows as nat, columns as nat),
                    i < rows,
                    j <= columns,
                    row@.len() == j,
                    forall|y: int| 0 <= y < j ==> row@[y] == target[i as int][y],
                decreases columns - j,
            {
                proof {
                    assert(self@[i as int] == self.data@[i as int]@);
                }
                row.push(self.data[i][j].neg());
                j += 1;
            }
            data.push(row);
            proof {
                assert(data@[i as int]@ =~= target[i as int]);
            }
            i += 1;
        }
        let m = Self { data };
        proof {
            assert(m@ =~= target);
            assert forall|x: int| 0 <= x < m@.len() implies (#[trigger] m@[x]).len()
                == m.columns_s() by {
                assert(m@[x].len() == columns);
                if rows > 0 {
                    assert(m@[0].len() == columns);
                }
            }
        }
        m
    }

    /// Returns the matrix product of two matrices; the left operand must
    /// have as many columns as the right has rows.
    ///
    /// ## Errors
    /// Returns [`MathError::MatrixError`] when the shapes do not fit.
    pub fn mul(&self, rhs: &Self) -> (r: Result<Self, MathError>)
        requires
            self.wf(),
            rhs.wf(),
        ensures
            match r {
                Ok(m) => {
                    &&& self.columns_s() == rhs.rows_s()
                    &&& m.wf()
                    &&& m@ == rect_mul_s(
                        self@,
                        rhs@,
                        self.rows_s(),
                        self.columns_s(),
                        rhs.columns_s(),
                    )
                },
                Err(e) => {
                    &&& self.columns_s() != rhs.rows_s()
                    &&& e matches MathError::MatrixError(msg) && msg@
                        == "Cannot multiply matrices of these dimensions"@
                },
            },
    {
        broadcast use vstd::string::to_string_from_display_ensures_for_str;

        if self.columns() != rhs.rows() {
            return Err(
                MathError::MatrixError("Cannot multiply matrices of these dimensions".to_string()),
            );
        }
        let rows = self.rows();
        let inner = self.columns();
        let columns = rhs.columns();
        let ghost target = rect_mul_s(self@, rhs@, rows as nat, inner as nat, columns as nat);
        let mut data: Vec<Vec<R>> = Vec::new();
        let mut i: usize = 0;
        while i < rows
            invariant
                self.wf(),
                rhs.wf(),
                rows == self.rows_s(),
                inner == self.columns_s(),
                inner == rhs.rows_s(),
                columns == rhs.columns_s(),
                target == rect_mul_s(self@, rhs@, rows as nat, inner as nat, columns as nat),
                i <= rows,
                data@.len() == i,
                forall|x: int| 0 <= x < i ==> (#[trigger] data@[x])@ == target[x],
            decreases rows - i,
        {
            let mut row: Vec<R> = Vec::new();
            let mut j: usize = 0;
            while j < columns
                invariant
                    self.wf(),
                    rhs.wf(),
                    rows == self.rows_s(),
                    inner == self.columns_s(),
                    inner == rhs.rows_s(),
                    columns == rhs.columns_s(),
                    target == rect_mul_s(self@, rhs@, rows as nat, inner as nat, columns as nat),
                    i < rows,
                    j <= columns,
                    row@.len() == j,
                    forall|y: int| 0 <= y < j ==> row@[y] == target[i as int][y],
                decreases columns - j,
            {
                let mut sum = R::zero();
                let mut t: usize = 0;
                while t < inner
                    invariant
                        self.wf(),
                        rhs.wf(),
                        rows == self.rows_s(),
                        inner == self.columns_s(),
                        inner == rhs.rows_s(),
                        columns == rhs.columns_s(),
                        i < rows,
                        j < columns,
                        t <= inner,
                        sum == rect_dot_s(self@, rhs@, i as int, j as int, t as nat),
                    decreases inner - t,
                {
                    proof {
                        assert(self@[i as int] == self.data@[i as int]@);
                        assert(rhs@[t as int] == rhs.data@[t as int]@);
                    }
                    sum = sum.add(self.data[i][t].mul(rhs.data[t][j]));
                    t += 1;
                }
                row.push(sum);
                j += 1;
            }
            data.push(row);
            proof {
                assert(data@[i as int]@ =~= target[i as int]);
            }
            i += 1;
        }
        let m = Self { data };
        proof {
            assert(m@ =~= target);
            assert forall|x: int| 0 <= x < m@.len() implies (#[trigger] m@[x]).len()
                == m.columns_s() by {
                assert(m@[x].len() == columns);
                if rows > 0 {
                    assert(m@[0].len() == columns);
                }
            }
        }
        Ok(m)
    }

    /// Returns a new matrix being the transpose of the current one; the
    /// current one is kept.
    pub fn transpose(&self) -> (r: Self)
        requires
            self.wf(),
        ensures
            r.wf(),
            r.rows_s() == self.columns_s(),
            self.columns_s() > 0 ==> r.columns_s() == self.rows_s(),
            forall|i: int, j: int|
                0 <= i < self.columns_s() && 0 <= j < self.rows_s() ==> r@[i][j] == self@[j][i],
    {
        let rows = self.rows();
        let columns = self.columns();
        let mut data: Vec<Vec<R>> = Vec::new();
        let mut i: usize = 0;
        while i < columns
            invariant
                self.wf(),
                rows == self.rows_s(),
                columns == self.columns_s(),
                i <= columns,
                data@.len() == i,
                forall|x: int| 0 <= x < i ==> (#[trigger] data@[x])@.len() == rows,
                forall|x: int, y: int|
                    0 <= x < i && 0 <= y < rows ==> data@[x]@[y] == self@[y][x],
            decreases columns - i,
        {
            let mut row: Vec<R> = Vec::new();
            let mut j: usize = 0;
            while j < rows
                invariant
                    self.wf(),
                    rows == self.rows_s(),
                    columns == self.columns_s(),
                    i < columns,
                    j <= rows,
                    row@.len() == j,
                    forall|y: int| 0 <= y < j ==> row@[y] == self@[y][i as int],
                decreases rows - j,
            {
                proof {
                    assert(self@[j as int] == self.data@[j as int]@);
                }
                row.push(self.data[j][i]);
                j += 1;
            }
            data.push(row);
            i += 1;
        }
        let m = Self { data };
        proof {
            assert forall|x: int| 0 <= x < m@.len() implies (#[trigger] m@[x]).len()
                == m.columns_s() by {
                assert(m@[x] == m.data@[x]@);
                if columns > 0 {
                    assert(m@[0] == m.data@[0]@);
                }
            }
            assert forall|x: int, y: int|
                0 <= x < columns && 0 <= y < rows implies m@[x][y] == self@[y][x] by {
                assert(m@[x] == m.data@[x]@);
            }
        }
        m
    }

    /// Compares two matrices element by element, counting two elements as
    /// equal when their difference is zero.
    pub fn equals(&self, rhs: &Self) -> (r: bool)
        requires
            self.wf(),
            rhs.wf(),
        ensures
            r == (self.rows_s() == rhs.rows_s() && self.columns_s() == rhs.columns_s()
                && forall|i: int, j: int|
                0 <= i < self.rows_s() && 0 <= j < self.columns_s() ==> (#[trigger] self@[i][j]).sub_s(
                    rhs@[i][j],
                ).is_zero_s()),
    {
        if self.rows() != rhs.rows() || self.columns() != rhs.columns() {
            return false;
        }
        let rows = self.rows();
        let columns = self.columns();
        let mut i: usize = 0;
        while i < rows
            invariant
                self.wf(),
                rhs.wf(),
                rows == self.rows_s(),
                rows == rhs.rows_s(),
                columns == self.columns_s(),
                columns == rhs.columns_s(),
                i <= rows,
                forall|a: int, b: int|
                    0 <= a < i && 0 <= b < columns ==> (#[trigger] self@[a][b]).sub_s(
                        rhs@[a][b],
                    ).is_zero_s(),
            decreases rows - i,
        {
            let mut j: usize = 0;
            while j < columns
                invariant
                    self.wf(),
                    rhs.wf(),
                    rows == self.rows_s(),
                    rows == rhs.rows_s(),
                    columns == self.columns_s(),
                    columns == rhs.columns_s(),
                    i < rows,
                    j <= columns,
                    forall|a: int, b: int|
                        0 <= a < i && 0 <= b < columns ==> (#[trigger] self@[a][b]).sub_s(
                            rhs@[a][b],
                        ).is_zero_s(),
                    forall|b: int|
                        0 <= b < j ==> (#[trigger] self@[i as int][b]).sub_s(
                            rhs@[i as int][b],
                        ).is_zero_s(),
                decreases columns - j,
            {
                proof {
                    assert(self@[i as int] == self.data@[i as int]@);
                    assert(rhs@[i as int] == rhs.data@[i as int]@);
                }
                if !self.data[i][j].sub(rhs.data[i][j]).is_zero() {
                    return false;
                }
                j += 1;
            }
            i += 1;
        }
        true
    }
}

/// Finds the next reduction pivot: scans the lead column downward from the
/// pivot row, then moves one column right and restarts.
fn find_reduction_pivot<R: Ring>(m: &Matrix<R>, tolerance: &R, row: usize, lead: usize) -> (r:
    Option<(usize, usize)>)
    requires
        m.wf(),
        row < m.rows_s(),
        lead <= m.columns_s(),
    ensures
        match r {
            Some(p) => {
                &&& row <= p.0 < m.rows_s()
                &&& lead <= p.1 < m.columns_s()
                &&& reduction_pivot_s(
                    m@,
                    m.rows_s(),
                    m.columns_s(),
                    *tolerance,
                    row as nat,
                    row as nat,
                    lead as nat,
                ) == Some((p.0 as int, p.1 as int))
            },
            None => reduction_pivot_s(
                m@,
                m.rows_s(),
                m.columns_s(),
                *tolerance,
                row as nat,
                row as nat,
                lead as nat,
            ) is None,
        },
{
    let rows = m.rows();
    let columns = m.columns();
    let mut i: usize = row;
    let mut l: usize = lead;
    while l < columns
        invariant
            m.wf(),
            rows == m.rows_s(),
            columns == m.columns_s(),
            row < rows,
            row <= i <= rows,
            lead <= l <= columns,
            reduction_pivot_s(
                m@,
                rows as nat,
                columns as nat,
                *tolerance,
                row as nat,
                row as nat,
                lead as nat,
            ) == reduction_pivot_s(
                m@,
                rows as nat,
                columns as nat,
                *tolerance,
                row as nat,
                i as nat,
                l as nat,
            ),
        decreases columns - l, rows - i,
    {
        if i >= rows {
            i = row;
            l += 1;
        } else {
            proof {
                assert(m@[i as int] == m.data@[i as int]@);
            }
            if !m.data[i][l].lt(tolerance) {
                return Some((i, l));
            }
            i += 1;
        }
    }
    None
}

impl<R: Ring> Matrix<R> {
    /// Reduces the matrix by Gaussian elimination: for each pivot row in
    /// turn, the first usable entry found scanning the lead column
    /// downward (then the following columns) is swapped into place, and
    /// every other row is cleared of that column by subtracting its
    /// multiple of the pivot row. Entries strictly below the tolerance in
    /// the pivot order are passed over during the search. The receiver is
    /// never mutated.
    pub fn gaussian_reduction(&self, tolerance: R) -> (r: Result<Self, MatrixError>)
        requires
            self.wf(),
        ensures
            match r {
                Ok(m) => {
                    &&& m.wf()
                    &&& m.rows_s() == self.rows_s()
                    &&& m.columns_s() == self.columns_s()
                    &&& m@ == reduction_run_s(
                        self@,
                        self.rows_s(),
                        self.columns_s(),
                        tolerance,
                        0,
                        0,
                    )
                },
                Err(_) => false,
            },
    {
        let rows = self.rows();
        let columns = self.columns();
        let mut work = self.duplicate();
        let mut r: usize = 0;
        let mut lead: usize = 0;
        while r < rows && lead < columns
            invariant
                work.wf(),
                rows == self.rows_s(),
                columns == self.columns_s(),
                work.rows_s() == rows,
                work.columns_s() == columns,
                r <= rows,
                lead <= columns,
                reduction_run_s(
                    work@,
                    rows as nat,
                    columns as nat,
                    tolerance,
                    r as nat,
                    lead as nat,
                ) == reduction_run_s(self@, rows as nat, columns as nat, tolerance, 0, 0),
            decreases rows - r,
        {
            match find_reduction_pivot(&work, &tolerance, r, lead) {
                None => {
                    return Ok(work);
                },
                Some((i, l)) => {
                    let ghost g0 = work@;
                    let swap_result = work.swap_rows(i, r);
                    match swap_result {
                        Ok(()) => {},
                        Err(_) => {
                            proof {
                                assert(false);
                            }
                        },
                    }
                    let ghost g2 = work@;
                    proof {
                        assert(g2 == g0.update(i as int, g0[r as int]).update(
                            r as int,
                            g0[i as int],
                        ));
                    }
                    proof {
                        assert(work@[r as int] == work.data@[r as int]@);
                    }
                    if work.data[r][l].is_zero() {
                        r += 1;
                        lead = l + 1;
                    } else {
                        let pivot = work.data[r][l];
                        let ghost target = reduction_elim_s(
                            g2,
                            rows as nat,
                            columns as nat,
                            r as int,
                            l as int,
                        );
                        let mut a: usize = 0;
                        while a < rows
                            invariant
                                work.wf(),
                                work.rows_s() == rows,
                                work.columns_s() == columns,
                                r < rows,
                                l < columns,
                                a <= rows,
                                pivot == g2[r as int][l as int],
                                !pivot.is_zero_s(),
                                target == reduction_elim_s(
                                    g2,
                                    rows as nat,
                                    columns as nat,
                                    r as int,
                                    l as int,
                                ),
                                g2.len() == rows,
                                forall|x: int| 0 <= x < rows ==> (#[trigger] g2[x]).len() == columns,
                                forall|x: int, y: int|
                                    0 <= x < rows && 0 <= y < columns ==> work@[x][y] == (if x != r
                                        && x < a {
                                        target[x][y]
                                    } else {
                                        g2[x][y]
                                    }),
                            decreases rows - a,
                        {
                            if a != r {
                                proof {
                                    assert(work@[a as int] == work.data@[a as int]@);
                                }
                                let factor = work.data[a][l].div(pivot);
                                let mut b: usize = 0;
                                while b < columns
                                    invariant
                                        work.wf(),
                                        work.rows_s() == rows,
                                        work.columns_s() == columns,
                                        r < rows,
                                        l < columns,
                                        a < rows,
                                        a != r,
                                        b <= columns,
                                        pivot == g2[r as int][l as int],
                                        !pivot.is_zero_s(),
                                        factor == g2[a as int][l as int].div_s(pivot),
                                        target == reduction_elim_s(
                                            g2,
                                            rows as nat,
                                            columns as nat,
                                            r as int,
                                            l as int,
                                        ),
                                        g2.len() == rows,
                                        forall|x: int|
                                            0 <= x < rows ==> (#[trigger] g2[x]).len() == columns,
                                        forall|x: int, y: int|
                                            0 <= x < rows && 0 <= y < columns ==> work@[x][y] == (
                                            if (x != r && x < a) || (x == a && y < b) {
                                                target[x][y]
                                            } else {
                                                g2[x][y]
                                            }),
                                    decreases columns - b,
                                {
                                    proof {
                                        assert(work@[a as int] == work.data@[a as int]@);
                                        assert(work@[r as int] == work.data@[r as int]@);
                                    }
                                    let e = work.data[a][b].sub(factor.mul(work.data[r][b]));
                                    proof {
                                        assert(e == target[a as int][b as int]);
                                    }
                                    let set_result = work.set(a, b, e);
                                    match set_result {
                                        Ok(()) => {},
                                        Err(_) => {
                                            proof {
                                                assert(false);
                                            }
                                        },
                                    }
                                    b += 1;
                                }
                            }
                            a += 1;
                        }
                        proof {
                            assert forall|x: int| 0 <= x < rows implies #[trigger] work@[x]
                                =~= target[x] by {
                                assert(work@[x].len() == columns);
                                if x == r {
                                    assert(target[x] == g2[x]);
                                } else {
                                    assert(target[x].len() == columns);
                                }
                            }
                            assert(work@ =~~= target);
                            assert(reduction_run_s(
                                g0,
                                rows as nat,
                                columns as nat,
                                tolerance,
                                r as nat,
                                lead as nat,
                            ) == reduction_run_s(
                                work@,
                                rows as nat,
                                columns as nat,
                                tolerance,
                                (r + 1) as nat,
                                (l + 1) as nat,
                            ));
                        }
                        r += 1;
                        lead = l + 1;
                    }
                },
            }
        }
        Ok(work)
    }
}

} // verus!
