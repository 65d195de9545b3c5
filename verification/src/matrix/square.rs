//! The square-matrix container: a dense `dimension` × `dimension` grid of
//! ring elements, with indexed access, row swaps, minor extraction and
//! leading-principal-submatrix extraction.

use vstd::prelude::*;

use crate::identities::{One, Zero};
use crate::matrix::MatrixError;
use crate::structures::Ring;

verus! {

/// A square grid of `dimension` × `dimension` ring elements, stored
/// row-major.
#[derive(Debug, Clone, PartialEq)]
pub struct SquareMatrix<R: Ring> {
    /// The number of rows, which always equals the number of columns.
    pub dimension: usize,
    /// The rows of the matrix.
    pub data: Vec<Vec<R>>,
}

impl<R: Ring> View for SquareMatrix<R> {
    type V = Seq<Seq<R>>;

    open spec fn view(&self) -> Seq<Seq<R>> {
        self.data@.map_values(|row: Vec<R>| row@)
    }
}

/// Whether a sequence of sequences is an `n` × `n` grid.
pub open spec fn is_grid<R>(m: Seq<Seq<R>>, n: nat) -> bool {
    &&& m.len() == n
    &&& forall|i: int| 0 <= i < n ==> (#[trigger] m[i]).len() == n
}

/// The top-left `k` × `k` corner of a grid.
pub open spec fn corner_s<R>(m: Seq<Seq<R>>, k: nat) -> Seq<Seq<R>> {
    Seq::new(k, |i: int| Seq::new(k, |j: int| m[i][j]))
}

/// The grid with the given row and column removed, the relative order of
/// the remaining rows and columns kept.
pub open spec fn minor_s<R>(m: Seq<Seq<R>>, row: int, column: int) -> Seq<Seq<R>> {
    m.remove(row).map_values(|r: Seq<R>| r.remove(column))
}

/// A row of a minor grid: the rows before the removed one keep their
/// place, the rows after it move up by one, and all lose the removed
/// column.
pub proof fn lemma_minor_row<R>(m: Seq<Seq<R>>, row: int, column: int, i: int)
    requires
        0 <= row < m.len(),
        0 <= i < m.len() - 1,
    ensures
        minor_s(m, row, column)[i] == (if i < row {
            m[i]
        } else {
            m[i + 1]
        }).remove(column),
{
    if i < row {
        assert(m.remove(row)[i] == m[i]);
    } else {
        assert(m.remove(row)[i] == m[i + 1]);
    }
}

/// The minor of a square grid is itself a square grid, one dimension
/// down.
pub proof fn lemma_minor_is_grid<R>(m: Seq<Seq<R>>, n: nat, row: int, column: int)
    requires
        is_grid(m, n),
        n >= 1,
        0 <= row < n,
        0 <= column < n,
    ensures
        is_grid(minor_s(m, row, column), (n - 1) as nat),
{
    let mi = minor_s(m, row, column);
    assert(mi.len() == n - 1);
    assert forall|i: int| 0 <= i < n - 1 implies (#[trigger] mi[i]).len() == n - 1 by {
        lemma_minor_row(m, row, column, i);
    }
}

/// The identity grid of the given dimension: ones on the diagonal, zeros
/// elsewhere.
pub open spec fn identity_s<R: Ring>(n: nat) -> Seq<Seq<R>> {
    Seq::new(
        n,
        |i: int|
            Seq::new(
                n,
                |j: int|
                    if i == j {
                        R::one_s()
                    } else {
                        R::zero_s()
                    },
            ),
    )
}

/// Whether two grids of the given dimension are equal element by element,
/// where two elements count as equal when their difference is zero.
pub open spec fn equals_s<R: Ring>(a: Seq<Seq<R>>, b: Seq<Seq<R>>, n: nat) -> bool {
    forall|i: int, j: int|
        0 <= i < n && 0 <= j < n ==> (#[trigger] a[i][j]).sub_s(b[i][j]).is_zero_s()
}

impl<R: Ring> SquareMatrix<R> {
    /// The shape invariant: exactly `dimension` rows of exactly `dimension`
    /// elements each.
    pub open spec fn wf(self) -> bool {
        &&& self@.len() == self.dimension
        &&& forall|i: int| 0 <= i < self.dimension ==> (#[trigger] self@[i]).len() == self.dimension
    }

    /// Creates a new [`SquareMatrix`] from rows whose shape is already
    /// established: the caller guarantees `data` is `dimension` ×
    /// `dimension`.
    pub fn new(dimension: usize, data: Vec<Vec<R>>) -> (r: Self)
        requires
            data@.len() == dimension,
            forall|i: int| 0 <= i < dimension ==> (#[trigger] data@[i])@.len() == dimension,
        ensures
            r.wf(),
            r.dimension == dimension,
            r@ == data@.map_values(|row: Vec<R>| row@),
    {
        let r = Self { dimension, data };
        proof {
            assert forall|i: int| 0 <= i < dimension implies (#[trigger] r@[i]).len()
                == dimension by {
                assert(r@[i] == r.data@[i]@);
            }
        }
        r
    }

    /// Creates a new [`SquareMatrix`] from nested rows, validating that
    /// every row has as many elements as there are rows.
    ///
    /// ## Errors
    /// Returns [`MatrixError::NonSquareMatrix`] when some row length differs
    /// from the number of rows.
    pub fn try_from(value: Vec<Vec<R>>) -> (r: Result<Self, MatrixError>)
        ensures
            match r {
                Ok(m) => {
                    &&& m.wf()
                    &&& m.dimension == value@.len()
                    &&& m@ == value@.map_values(|row: Vec<R>| row@)
                    &&& forall|i: int|
                        0 <= i < value@.len() ==> (#[trigger] value@[i])@.len() == value@.len()
                },
                Err(e) => {
                    &&& e == MatrixError::NonSquareMatrix
                    &&& exists|i: int|
                        0 <= i < value@.len() && (#[trigger] value@[i])@.len() != value@.len()
                },
            },
    {
        let dimension = value.len();
        let mut row: usize = 0;
        while row < dimension
            invariant
                row <= dimension,
                dimension == value@.len(),
                forall|i: int| 0 <= i < row ==> (#[trigger] value@[i])@.len() == dimension,
            decreases dimension - row,
        {
            if value[row].len() != dimension {
                return Err(MatrixError::NonSquareMatrix);
            }
            row += 1;
        }
        Ok(Self::new(dimension, value))
    }

    /// Returns the dimension of the matrix.
    pub fn dimension(&self) -> (r: usize)
        ensures
            r == self.dimension,
    {
        self.dimension
    }

    /// Returns a reference to the rows of the matrix.
    pub fn data(&self) -> (r: &Vec<Vec<R>>)
        ensures
            r@.map_values(|row: Vec<R>| row@) == self@,
    {
        &self.data
    }

    /// Returns the element at the given position.
    ///
    /// ## Errors
    /// Returns [`MatrixError::RowOutOfBounds`] or
    /// [`MatrixError::ColumnOutOfBounds`] when the position lies outside the
    /// matrix.
    pub fn get(&self, row: usize, column: usize) -> (r: Result<R, MatrixError>)
        requires
            self.wf(),
        ensures
            match r {
                Ok(v) => row < self.dimension && column < self.dimension && v == self@[row as int][column as int],
                Err(e) => if row >= self.dimension {
                    e == MatrixError::RowOutOfBounds(row)
                } else {
                    column >= self.dimension && e == MatrixError::ColumnOutOfBounds(column)
                },
            },
    {
        if row >= self.dimension {
            return Err(MatrixError::RowOutOfBounds(row));
        }
        if column >= self.dimension {
            return Err(MatrixError::ColumnOutOfBounds(column));
        }
        proof {
            assert(self@[row as int] == self.data@[row as int]@);
        }
        Ok(self.data[row][column])
    }

    /// Overwrites the element at the given position.
    ///
    /// ## Errors
    /// Returns [`MatrixError::RowOutOfBounds`] or
    /// [`MatrixError::ColumnOutOfBounds`] when the position lies outside the
    /// matrix.
    pub fn set(&mut self, row: usize, column: usize, value: R) -> (r: Result<(), MatrixError>)
        requires
            old(self).wf(),
        ensures
            final(self).wf(),
            final(self).dimension == old(self).dimension,
            match r {
                Ok(()) => {
                    &&& row < old(self).dimension
                    &&& column < old(self).dimension
                    &&& final(self)@ == old(self)@.update(
                        row as int,
                        old(self)@[row as int].update(column as int, value),
                    )
                },
                Err(e) => {
                    &&& final(self)@ == old(self)@
                    &&& if row >= old(self).dimension {
                        e == MatrixError::RowOutOfBounds(row)
                    } else {
                        column >= old(self).dimension && e == MatrixError::ColumnOutOfBounds(column)
                    }
                },
            },
    {
        if row >= self.dimension {
            return Err(MatrixError::RowOutOfBounds(row));
        }
        if column >= self.dimension {
            return Err(MatrixError::ColumnOutOfBounds(column));
        }
        proof {
            assert(old(self)@[row as int] == old(self).data@[row as int]@);
        }
        let row_vec = &mut self.data[row];
        row_vec.set(column, value);
        proof {
            assert(self@ =~= old(self)@.update(
                row as int,
                old(self)@[row as int].update(column as int, value),
            ));
            assert forall|i: int| 0 <= i < self.dimension implies (#[trigger] self@[i]).len()
                == self.dimension by {
                assert(old(self)@[i].len() == self.dimension);
            }
        }
        Ok(())
    }

    /// Exchanges two rows in place; a no-op when the two indices are equal.
    ///
    /// ## Errors
    /// Returns [`MatrixError::InvalidNumberOfRows`] when either index is out
    /// of bounds.
    pub fn swap_rows(&mut self, row1: usize, row2: usize) -> (r: Result<(), MatrixError>)
        requires
            old(self).wf(),
        ensures
            final(self).wf(),
            final(self).dimension == old(self).dimension,
            match r {
                Ok(()) => {
                    &&& row1 < old(self).dimension
                    &&& row2 < old(self).dimension
                    &&& final(self)@ == old(self)@.update(row1 as int, old(self)@[row2 as int]).update(
                        row2 as int,
                        old(self)@[row1 as int],
                    )
                },
                Err(e) => {
                    &&& final(self)@ == old(self)@
                    &&& e == MatrixError::InvalidNumberOfRows
                    &&& (row1 >= old(self).dimension || row2 >= old(self).dimension)
                },
            },
    {
        if row1 == row2 {
            if row1 >= self.dimension {
                return Err(MatrixError::InvalidNumberOfRows);
            }
            proof {
                assert(self@ =~= self@.update(row1 as int, self@[row2 as int]).update(
                    row2 as int,
                    self@[row1 as int],
                ));
            }
            return Ok(());
        }
        if row1 >= self.dimension || row2 >= self.dimension {
            return Err(MatrixError::InvalidNumberOfRows);
        }
        let ghost m0 = self@;
        let n = self.dimension;
        let mut j: usize = 0;
        while j < n
            invariant
                self.wf(),
                self.dimension == n,
                j <= n,
                row1 < n,
                row2 < n,
                row1 != row2,
                m0.len() == n,
                forall|a: int| 0 <= a < n ==> (#[trigger] m0[a]).len() == n,
                forall|b: int|
                    0 <= b < j ==> self@[row1 as int][b] == m0[row2 as int][b] && self@[row2 as int][b]
                        == m0[row1 as int][b],
                forall|b: int|
                    j <= b < n ==> self@[row1 as int][b] == m0[row1 as int][b] && self@[row2 as int][b]
                        == m0[row2 as int][b],
                forall|a: int| 0 <= a < n && a != row1 && a != row2 ==> self@[a] == m0[a],
            decreases n - j,
        {
            proof {
                assert(self@[row1 as int] == self.data@[row1 as int]@);
                assert(self@[row2 as int] == self.data@[row2 as int]@);
            }
            let a = self.data[row1][j];
            let b = self.data[row2][j];
            let ghost before = self@;
            let row_vec1 = &mut self.data[row1];
            row_vec1.set(j, b);
            proof {
                assert(self@ =~= before.update(
                    row1 as int,
                    before[row1 as int].update(j as int, b),
                ));
            }
            let ghost mid = self@;
            let row_vec2 = &mut self.data[row2];
            row_vec2.set(j, a);
            proof {
                assert(self@ =~= mid.update(row2 as int, mid[row2 as int].update(j as int, a)));
            }
            j += 1;
        }
        proof {
            assert forall|a: int| 0 <= a < n implies #[trigger] self@[a] == m0.update(
                row1 as int,
                m0[row2 as int],
            ).update(row2 as int, m0[row1 as int])[a] by {
                if a == row1 {
                    assert(self@[a] =~= m0[row2 as int]);
                } else if a == row2 {
                    assert(self@[a] =~= m0[row1 as int]);
                }
            }
            assert(self@ =~= m0.update(row1 as int, m0[row2 as int]).update(
                row2 as int,
                m0[row1 as int],
            ));
        }
        Ok(())
    }

    /// Returns the matrix with the given row and column removed, keeping
    /// the relative order of the remaining rows and columns.
    ///
    /// ## Errors
    /// Returns [`MatrixError::RowOutOfBounds`] or
    /// [`MatrixError::ColumnOutOfBounds`] when the position lies outside the
    /// matrix.
    pub fn minor(&self, row: usize, column: usize) -> (r: Result<Self, MatrixError>)
        requires
            self.wf(),
        ensures
            match r {
                Ok(m) => {
                    &&& row < self.dimension
                    &&& column < self.dimension
                    &&& self.dimension >= 1
                    &&& m.wf()
                    &&& m.dimension == self.dimension - 1
                    &&& m@ == minor_s(self@, row as int, column as int)
                },
                Err(e) => if row >= self.dimension {
                    e == MatrixError::RowOutOfBounds(row)
                } else {
                    column >= self.dimension && e == MatrixError::ColumnOutOfBounds(column)
                },
            },
    {
        if row >= self.dimension {
            return Err(MatrixError::RowOutOfBounds(row));
        }
        if column >= self.dimension {
            return Err(MatrixError::ColumnOutOfBounds(column));
        }
        let n = self.dimension;
        let mut elements: Vec<Vec<R>> = Vec::new();
        let mut i: usize = 0;
        while i < n
            invariant
                self.wf(),
                n == self.dimension,
                row < n,
                column < n,
                i <= n,
                elements@.len() == if i <= row {
                    i as int
                } else {
                    i - 1
                },
                forall|a: int|
                    0 <= a < elements@.len() ==> (#[trigger] elements@[a])@ == minor_s(
                        self@,
                        row as int,
                        column as int,
                    )[a],
            decreases n - i,
        {
            if i != row {
                let mut new_row: Vec<R> = Vec::new();
                let mut j: usize = 0;
                while j < n
                    invariant
                        self.wf(),
                        n == self.dimension,
                        i < n,
                        i != row,
                        column < n,
                        j <= n,
                        new_row@.len() == if j <= column {
                            j as int
                        } else {
                            j - 1
                        },
                        forall|b: int|
                            0 <= b < new_row@.len() ==> new_row@[b] == self@[i as int].remove(
                                column as int,
                            )[b],
                    decreases n - j,
                {
                    if j != column {
                        proof {
                            assert(self@[i as int] == self.data@[i as int]@);
                        }
                        new_row.push(self.data[i][j]);
                        proof {
                            let rr = self@[i as int].remove(column as int);
                            if j < column {
                                assert(rr[j as int] == self@[i as int][j as int]);
                            } else {
                                assert(rr[j - 1] == self@[i as int][j as int]);
                            }
                        }
                    }
                    j += 1;
                }
                elements.push(new_row);
                proof {
                    let ms = minor_s(self@, row as int, column as int);
                    let a = elements@.len() - 1;
                    assert(ms[a] == self@.remove(row as int)[a].remove(column as int));
                    if i < row {
                        assert(self@.remove(row as int)[a] == self@[i as int]);
                    } else {
                        assert(self@.remove(row as int)[a] == self@[i as int]);
                    }
                    assert(elements@[a]@ =~= ms[a]);
                }
            }
            i += 1;
        }
        let m = Self::new(n - 1, elements);
        proof {
            assert(m@ =~= minor_s(self@, row as int, column as int));
        }
        Ok(m)
    }

    /// Returns the identity matrix of the given dimension.
    pub fn identity(dimension: usize) -> (r: Self)
        ensures
            r.wf(),
            r.dimension == dimension,
            r@ == identity_s::<R>(dimension as nat),
    {
        let mut data: Vec<Vec<R>> = Vec::new();
        let mut i: usize = 0;
        while i < dimension
            invariant
                i <= dimension,
                data@.len() == i,
                forall|a: int|
                    0 <= a < i ==> (#[trigger] data@[a])@ == identity_s::<R>(dimension as nat)[a],
            decreases dimension - i,
        {
            let mut row: Vec<R> = Vec::new();
            let mut j: usize = 0;
            while j < dimension
                invariant
                    i < dimension,
                    j <= dimension,
                    row@.len() == j,
                    forall|b: int|
                        0 <= b < j ==> row@[b] == identity_s::<R>(dimension as nat)[i as int][b],
                decreases dimension - j,
            {
                if i == j {
                    row.push(R::one());
                } else {
                    row.push(R::zero());
                }
                j += 1;
            }
            data.push(row);
            proof {
                assert(data@[i as int]@ =~= identity_s::<R>(dimension as nat)[i as int]);
            }
            i += 1;
        }
        let m = Self::new(dimension, data);
        proof {
            assert(m@ =~= identity_s::<R>(dimension as nat));
        }
        m
    }

    /// Creates a new [`SquareMatrix`] with the given `dimension`, filling
    /// every cell with the result of the given function applied to the row
    /// and column index, row-major order.
    pub fn from_fn<F: Fn(usize, usize) -> R>(dimension: usize, f: F) -> (r: Self)
        requires
            forall|i: usize, j: usize| i < dimension && j < dimension ==> f.requires((i, j)),
        ensures
            r.wf(),
            r.dimension == dimension,
            forall|i: usize, j: usize|
                i < dimension && j < dimension ==> f.ensures(
                    (i, j),
                    #[trigger] r@[i as int][j as int],
                ),
    {
        let mut data: Vec<Vec<R>> = Vec::new();
        let mut i: usize = 0;
        while i < dimension
            invariant
                i <= dimension,
                data@.len() == i,
                forall|a: usize, j: usize| a < dimension && j < dimension ==> f.requires((a, j)),
                forall|a: int| 0 <= a < i ==> (#[trigger] data@[a])@.len() == dimension,
                forall|a: usize, b: usize|
                    a < i && b < dimension ==> f.ensures((a, b), #[trigger] data@[a as int]@[b as int]),
            decreases dimension - i,
        {
            let mut row: Vec<R> = Vec::new();
            let mut j: usize = 0;
            while j < dimension
                invariant
                    i < dimension,
                    j <= dimension,
                    row@.len() == j,
                    forall|a: usize, b: usize| a < dimension && b < dimension ==> f.requires((a, b)),
                    forall|b: usize| b < j ==> f.ensures((i, b), #[trigger] row@[b as int]),
                decreases dimension - j,
            {
                let v = f(i, j);
                row.push(v);
                j += 1;
            }
            data.push(row);
            i += 1;
        }
        let r = Self::new(dimension, data);
        proof {
            assert forall|i2: usize, j2: usize| i2 < dimension && j2 < dimension implies f.ensures(
                (i2, j2),
                #[trigger] r@[i2 as int][j2 as int],
            ) by {
                assert(r@[i2 as int] == data@[i2 as int]@);
            }
        }
        r
    }

    /// Returns the top-left `k` × `k` submatrix.
    ///
    /// ## Errors
    /// Returns [`MatrixError::InvalidDimension`] when `k` exceeds the
    /// dimension of the matrix.
    pub fn leading_principal_minor(&self, dimension: usize) -> (r: Result<Self, MatrixError>)
        requires
            self.wf(),
        ensures
            match r {
                Ok(m) => {
                    &&& dimension <= self.dimension
                    &&& m.wf()
                    &&& m.dimension == dimension
                    &&& m@ == corner_s(self@, dimension as nat)
                },
                Err(e) => {
                    &&& e == MatrixError::InvalidDimension(dimension)
                    &&& dimension > self.dimension
                },
            },
    {
        if dimension > self.dimension {
            return Err(MatrixError::InvalidDimension(dimension));
        }
        let mut data: Vec<Vec<R>> = Vec::new();
        let mut i: usize = 0;
        while i < dimension
            invariant
                self.wf(),
                dimension <= self.dimension,
                i <= dimension,
                data@.len() == i,
                forall|a: int|
                    0 <= a < i ==> (#[trigger] data@[a])@ == corner_s(self@, dimension as nat)[a],
            decreases dimension - i,
        {
            let mut row: Vec<R> = Vec::new();
            let mut j: usize = 0;
            while j < dimension
                invariant
                    self.wf(),
                    dimension <= self.dimension,
                    i < dimension,
                    j <= dimension,
                    row@.len() == j,
                    forall|b: int| 0 <= b < j ==> row@[b] == self@[i as int][b],
                decreases dimension - j,
            {
                proof {
                    assert(self@[i as int] == self.data@[i as int]@);
                }
                row.push(self.data[i][j]);
                j += 1;
            }
            data.push(row);
            proof {
                assert(data@[i as int]@ =~= corner_s(self@, dimension as nat)[i as int]);
            }
            i += 1;
        }
        let m = Self::new(dimension, data);
        proof {
            assert(m@ =~= corner_s(self@, dimension as nat));
        }
        Ok(m)
    }

    /// Returns a copy of the matrix with the same contents; the elimination
    /// algorithms work on such a copy and never mutate their input.
    pub fn duplicate(&self) -> (r: Self)
        requires
            self.wf(),
        ensures
            r.wf(),
            r.dimension == self.dimension,
            r@ == self@,
    {
        let n = self.dimension;
        let mut data: Vec<Vec<R>> = Vec::new();
        let mut i: usize = 0;
        while i < n
            invariant
                self.wf(),
                n == self.dimension,
                i <= n,
                data@.len() == i,
                forall|a: int| 0 <= a < i ==> (#[trigger] data@[a])@ == self@[a],
            decreases n - i,
        {
            let mut row: Vec<R> = Vec::new();
            let mut j: usize = 0;
            while j < n
                invariant
                    self.wf(),
                    n == self.dimension,
                    i < n,
                    j <= n,
                    row@.len() == j,
                    forall|b: int| 0 <= b < j ==> row@[b] == self@[i as int][b],
                decreases n - j,
            {
                proof {
                    assert(self@[i as int] == self.data@[i as int]@);
                }
                row.push(self.data[i][j]);
                j += 1;
            }
            data.push(row);
            proof {
                assert(data@[i as int]@ =~= self@[i as int]);
            }
            i += 1;
        }
        let m = Self::new(n, data);
        proof {
            assert(m@ =~= self@);
        }
        m
    }

    /// Exchanges two rows whose indices are known to be inside the matrix.
    pub(crate) fn swap_rows_in(&mut self, row1: usize, row2: usize)
        requires
            old(self).wf(),
            row1 < old(self).dimension,
            row2 < old(self).dimension,
        ensures
            final(self).wf(),
            final(self).dimension == old(self).dimension,
            final(self)@ == old(self)@.update(row1 as int, old(self)@[row2 as int]).update(
                row2 as int,
                old(self)@[row1 as int],
            ),
    {
        let r = self.swap_rows(row1, row2);
        match r {
            Ok(()) => {},
            Err(_) => {
                proof {
                    assert(false);
                }
            },
        }
    }

    /// Overwrites one cell; the position is known to be inside the matrix.
    pub(crate) fn put(&mut self, row: usize, column: usize, value: R)
        requires
            old(self).wf(),
            row < old(self).dimension,
            column < old(self).dimension,
        ensures
            final(self).wf(),
            final(self).dimension == old(self).dimension,
            final(self)@ == old(self)@.update(
                row as int,
                old(self)@[row as int].update(column as int, value),
            ),
    {
        proof {
            assert(old(self)@[row as int] == old(self).data@[row as int]@);
        }
        let row_vec = &mut self.data[row];
        row_vec.set(column, value);
        proof {
            assert(self@ =~= old(self)@.update(
                row as int,
                old(self)@[row as int].update(column as int, value),
            ));
            assert forall|i: int| 0 <= i < self.dimension implies (#[trigger] self@[i]).len()
                == self.dimension by {
                assert(old(self)@[i].len() == self.dimension);
            }
        }
    }

    /// Checks whether any element of the diagonal is zero.
    pub fn diagonal_is_zero(&self) -> (r: bool)
        requires
            self.wf(),
        ensures
            r == exists|i: int|
                0 <= i < self.dimension && (#[trigger] self@[i][i]).is_zero_s(),
    {
        let n = self.dimension;
        let mut row: usize = 0;
        while row < n
            invariant
                self.wf(),
                n == self.dimension,
                row <= n,
                forall|i: int| 0 <= i < row ==> !(#[trigger] self@[i][i]).is_zero_s(),
            decreases n - row,
        {
            proof {
                assert(self@[row as int] == self.data@[row as int]@);
            }
            if self.data[row][row].is_zero() {
                return true;
            }
            row += 1;
        }
        false
    }

    /// Compares two matrices element by element, counting two elements as
    /// equal when their difference is zero.
    pub fn equals(&self, rhs: &Self) -> (r: bool)
        requires
            self.wf(),
            rhs.wf(),
        ensures
            r == (self.dimension == rhs.dimension && equals_s(
                self@,
                rhs@,
                self.dimension as nat,
            )),
    {
        if self.dimension != rhs.dimension {
            return false;
        }
        let n = self.dimension;
        let mut i: usize = 0;
        while i < n
            invariant
                self.wf(),
                rhs.wf(),
                n == self.dimension,
                n == rhs.dimension,
                i <= n,
                forall|a: int, b: int|
                    0 <= a < i && 0 <= b < n ==> (#[trigger] self@[a][b]).sub_s(
                        rhs@[a][b],
                    ).is_zero_s(),
            decreases n - i,
        {
            let mut j: usize = 0;
            while j < n
                invariant
                    self.wf(),
                    rhs.wf(),
                    n == self.dimension,
                    n == rhs.dimension,
                    i < n,
                    j <= n,
                    forall|a: int, b: int|
                        0 <= a < i && 0 <= b < n ==> (#[trigger] self@[a][b]).sub_s(
                            rhs@[a][b],
                        ).is_zero_s(),
                    forall|b: int|
                        0 <= b < j ==> (#[trigger] self@[i as int][b]).sub_s(
                            rhs@[i as int][b],
                        ).is_zero_s(),
                decreases n - j,
            {
                proof {
                    assert(self@[i as int] == self.data@[i as int]@);
                    assert(rhs@[i as int] == rhs.data@[i as int]@);
                }
                if !self.data[i][j].sub(rhs.data[i][j]).is_zero() {
                    return false;
                }
                j += 1;
            }
            i += 1;
        }
        true
    }
}

/// The element-wise sum of two grids.
pub open spec fn matrix_add_s<R: Ring>(a: Seq<Seq<R>>, b: Seq<Seq<R>>, n: nat) -> Seq<Seq<R>> {
    Seq::new(n, |i: int| Seq::new(n, |j: int| a[i][j].add_s(b[i][j])))
}

/// The sum of the first `t` products pairing row `i` of `a` with column
/// `j` of `b`.
pub open spec fn dot_s<R: Ring>(a: Seq<Seq<R>>, b: Seq<Seq<R>>, i: int, j: int, t: nat) -> R
    decreases t,
{
    if t == 0 {
        R::zero_s()
    } else {
        dot_s(a, b, i, j, (t - 1) as nat).add_s(a[i][t - 1].mul_s(b[t - 1][j]))
    }
}

/// The matrix product of two `n` × `n` grids.
pub open spec fn matrix_mul_s<R: Ring>(a: Seq<Seq<R>>, b: Seq<Seq<R>>, n: nat) -> Seq<Seq<R>> {
    Seq::new(n, |i: int| Seq::new(n, |j: int| dot_s(a, b, i, j, n)))
}

/// The grid mirrored along its main diagonal.
pub open spec fn transpose_s<R>(m: Seq<Seq<R>>, n: nat) -> Seq<Seq<R>> {
    Seq::new(n, |i: int| Seq::new(n, |j: int| m[j][i]))
}

/// The first row at or below `i` whose diagonal entry is zero, if any.
pub open spec fn first_zero_diag_s<R: Ring>(m: Seq<Seq<R>>, n: nat, i: nat) -> Option<int>
    decreases n - i,
{
    if i >= n {
        None
    } else if m[i as int][i as int].is_zero_s() {
        Some(i as int)
    } else {
        first_zero_diag_s(m, n, i + 1)
    }
}

/// The first row at or below `i` whose entry in the given column is not
/// zero, if any.
pub open spec fn first_nonzero_in_column_s<R: Ring>(
    m: Seq<Seq<R>>,
    n: nat,
    column: int,
    i: nat,
) -> Option<int>
    decreases n - i,
{
    if i >= n {
        None
    } else if !m[i as int][column].is_zero_s() {
        Some(i as int)
    } else {
        first_nonzero_in_column_s(m, n, column, i + 1)
    }
}

impl<R: Ring> SquareMatrix<R> {
    /// Returns the element-wise sum of two matrices.
    ///
    /// ## Errors
    /// Returns [`MatrixError::InvalidNumberOfRows`] when the dimensions
    /// differ.
    pub fn add(&self, rhs: &Self) -> (r: Result<Self, MatrixError>)
        requires
            self.wf(),
            rhs.wf(),
        ensures
            match r {
                Ok(m) => {
                    &&& self.dimension == rhs.dimension
                    &&& m.wf()
                    &&& m.dimension == self.dimension
                    &&& m@ == matrix_add_s(self@, rhs@, self.dimension as nat)
                },
                Err(e) => {
                    &&& e == MatrixError::InvalidNumberOfRows
                    &&& self.dimension != rhs.dimension
                },
            },
    {
        if self.dimension != rhs.dimension {
            return Err(MatrixError::InvalidNumberOfRows);
        }
        let n = self.dimension;
        let ghost target = matrix_add_s(self@, rhs@, n as nat);
        let mut data: Vec<Vec<R>> = Vec::new();
        let mut i: usize = 0;
        while i < n
            invariant
                self.wf(),
                rhs.wf(),
                n == self.dimension,
                n == rhs.dimension,
                target == matrix_add_s(self@, rhs@, n as nat),
                i <= n,
                data@.len() == i,
                forall|a: int| 0 <= a < i ==> (#[trigger] data@[a])@ == target[a],
            decreases n - i,
        {
            let mut row: Vec<R> = Vec::new();
            let mut j: usize = 0;
            while j < n
                invariant
                    self.wf(),
                    rhs.wf(),
                    n == self.dimension,
                    n == rhs.dimension,
                    target == matrix_add_s(self@, rhs@, n as nat),
                    i < n,
                    j <= n,
                    row@.len() == j,
                    forall|b: int| 0 <= b < j ==> row@[b] == target[i as int][b],
                decreases n - j,
            {
                proof {
                    assert(self@[i as int] == self.data@[i as int]@);
                    assert(rhs@[i as int] == rhs.data@[i as int]@);
                }
                row.push(self.data[i][j].add(rhs.data[i][j]));
                j += 1;
            }
            data.push(row);
            proof {
                assert(data@[i as int]@ =~= target[i as int]);
            }
            i += 1;
        }
        let m = Self::new(n, data);
        proof {
            assert(m@ =~= target);
        }
        Ok(m)
    }

    /// Returns the matrix product of two matrices of the same dimension.
    pub fn mul(&self, rhs: &Self) -> (r: Result<Self, MatrixError>)
        requires
            self.wf(),
            rhs.wf(),
            self.dimension == rhs.dimension,
        ensures
            match r {
                Ok(m) => {
                    &&& m.wf()
                    &&& m.dimension == self.dimension
                    &&& m@ == matrix_mul_s(self@, rhs@, self.dimension as nat)
                },
                Err(_) => false,
            },
    {
        let n = self.dimension;
        let ghost target = matrix_mul_s(self@, rhs@, n as nat);
        let mut data: Vec<Vec<R>> = Vec::new();
        let mut i: usize = 0;
        while i < n
            invariant
                self.wf(),
                rhs.wf(),
                n == self.dimension,
                n == rhs.dimension,
                target == matrix_mul_s(self@, rhs@, n as nat),
                i <= n,
                data@.len() == i,
                forall|a: int| 0 <= a < i ==> (#[trigger] data@[a])@ == target[a],
            decreases n - i,
        {
            let mut row: Vec<R> = Vec::new();
            let mut j: usize = 0;
            while j < n
                invariant
                    self.wf(),
                    rhs.wf(),
                    n == self.dimension,
                    n == rhs.dimension,
                    target == matrix_mul_s(self@, rhs@, n as nat),
                    i < n,
                    j <= n,
                    row@.len() == j,
                    forall|b: int| 0 <= b < j ==> row@[b] == target[i as int][b],
                decreases n - j,
            {
                let mut sum = R::zero();
                let mut t: usize = 0;
                while t < n
                    invariant
                        self.wf(),
                        rhs.wf(),
                        n == self.dimension,
                        n == rhs.dimension,
                        i < n,
                        j < n,
                        t <= n,
                        sum == dot_s(self@, rhs@, i as int, j as int, t as nat),
                    decreases n - t,
                {
                    proof {
                        assert(self@[i as int] == self.data@[i as int]@);
                        assert(rhs@[t as int] == rhs.data@[t as int]@);
                    }
                    sum = sum.add(self.data[i][t].mul(rhs.data[t][j]));
                    t += 1;
                }
                row.push(sum);
                j += 1;
            }
            data.push(row);
            proof {
                assert(data@[i as int]@ =~= target[i as int]);
            }
            i += 1;
        }
        let m = Self::new(n, data);
        proof {
            assert(m@ =~= target);
        }
        Ok(m)
    }

    /// Returns a new matrix that is the transpose of the current one; the
    /// current one is kept.
    pub fn transpose(&self) -> (r: Self)
        requires
            self.wf(),
        ensures
            r.wf(),
            r.dimension == self.dimension,
            r@ == transpose_s(self@, self.dimension as nat),
    {
        let n = self.dimension;
        let ghost target = transpose_s(self@, n as nat);
        let mut data: Vec<Vec<R>> = Vec::new();
        let mut i: usize = 0;
        while i < n
            invariant
                self.wf(),
                n == self.dimension,
                target == transpose_s(self@, n as nat),
                i <= n,
                data@.len() == i,
                forall|a: int| 0 <= a < i ==> (#[trigger] data@[a])@ == target[a],
            decreases n - i,
        {
            let mut row: Vec<R> = Vec::new();
            let mut j: usize = 0;
            while j < n
                invariant
                    self.wf(),
                    n == self.dimension,
                    target == transpose_s(self@, n as nat),
                    i < n,
                    j <= n,
                    row@.len() == j,
                    forall|b: int| 0 <= b < j ==> row@[b] == target[i as int][b],
                decreases n - j,
            {
                proof {
                    assert(self@[j as int] == self.data@[j as int]@);
                }
                row.push(self.data[j][i]);
                j += 1;
            }
            data.push(row);
            proof {
                assert(data@[i as int]@ =~= target[i as int]);
            }
            i += 1;
        }
        let m = Self::new(n, data);
        proof {
            assert(m@ =~= target);
        }
        m
    }

    /// Swaps the first row holding a zero pivot with the first row below it
    /// whose entry in that pivot column is not zero.
    ///
    /// Returns `Ok(true)` when such a swap happened. When the first
    /// zero-pivot row finds no nonzero entry below it, the matrix is
    /// singular in that column: nothing is changed and `Ok(false)` is
    /// returned, as it is when no diagonal entry is zero at all.
    pub fn swap_rows_with_0_pivot(&mut self) -> (r: Result<bool, MatrixError>)
        requires
            old(self).wf(),
        ensures
            final(self).wf(),
            final(self).dimension == old(self).dimension,
            match first_zero_diag_s(old(self)@, old(self).dimension as nat, 0) {
                None => r == Ok::<bool, MatrixError>(false) && final(self)@ == old(self)@,
                Some(row) => match first_nonzero_in_column_s(
                    old(self)@,
                    old(self).dimension as nat,
                    row,
                    (row + 1) as nat,
                ) {
                    None => r == Ok::<bool, MatrixError>(false) && final(self)@ == old(self)@,
                    Some(row2) => r == Ok::<bool, MatrixError>(true) && final(self)@ == old(
                        self,
                    )@.update(row, old(self)@[row2]).update(row2, old(self)@[row]),
                },
            },
    {
        let n = self.dimension;
        let mut row: usize = 0;
        while row < n
            invariant
                self.wf(),
                n == self.dimension,
                n == old(self).dimension,
                self@ == old(self)@,
                row <= n,
                first_zero_diag_s(self@, n as nat, 0) == first_zero_diag_s(
                    self@,
                    n as nat,
                    row as nat,
                ),
            decreases n - row,
        {
            proof {
                assert(self@[row as int] == self.data@[row as int]@);
            }
            if self.data[row][row].is_zero() {
                let mut row2: usize = row + 1;
                while row2 < n
                    invariant
                        self.wf(),
                        n == self.dimension,
                        n == old(self).dimension,
                        self@ == old(self)@,
                        row < n,
                        row + 1 <= row2 <= n,
                        self@[row as int][row as int].is_zero_s(),
                        first_zero_diag_s(self@, n as nat, 0) == Some(row as int),
                        first_nonzero_in_column_s(
                            self@,
                            n as nat,
                            row as int,
                            (row + 1) as nat,
                        ) == first_nonzero_in_column_s(self@, n as nat, row as int, row2 as nat),
                    decreases n - row2,
                {
                    proof {
                        assert(self@[row2 as int] == self.data@[row2 as int]@);
                    }
                    if !self.data[row2][row].is_zero() {
                        proof {
                            assert(first_nonzero_in_column_s(
                                self@,
                                n as nat,
                                row as int,
                                row2 as nat,
                            ) == Some(row2 as int));
                        }
                        self.swap_rows_in(row, row2);
                        return Ok(true);
                    }
                    proof {
                        assert(first_nonzero_in_column_s(self@, n as nat, row as int, row2 as nat)
                            == first_nonzero_in_column_s(
                            self@,
                            n as nat,
                            row as int,
                            (row2 + 1) as nat,
                        ));
                    }
                    row2 += 1;
                }
                proof {
                    assert(first_nonzero_in_column_s(self@, n as nat, row as int, n as nat)
                        is None);
                }
                return Ok(false);
            }
            proof {
                assert(first_zero_diag_s(self@, n as nat, row as nat) == first_zero_diag_s(
                    self@,
                    n as nat,
                    (row + 1) as nat,
                ));
            }
            row += 1;
        }
        proof {
            assert(first_zero_diag_s(self@, n as nat, n as nat) is None);
        }
        Ok(false)
    }
}

} // verus!
