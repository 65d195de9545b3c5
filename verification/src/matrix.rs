//! Matrix containers and the elimination and determinant algorithms.

pub mod determinant;
pub mod generic;
pub mod lu;
pub mod parser;
pub mod square;

use vstd::prelude::*;

use crate::traits::dec_nat_s;

verus! {

/// The failures the matrix containers and algorithms can report.
#[derive(Debug, Clone, PartialEq, Eq)]
pub enum MatrixError {
    /// The two operands do not have the same number of rows.
    InvalidNumberOfRows,
    /// The two operands do not have the same number of columns.
    InvalidNumberOfColumns,
    /// The element at the given position does not exist.
    ElementNotFound(usize, usize),
    /// The given row index exceeds the last row.
    RowOutOfBounds(usize),
    /// The given column index exceeds the last column.
    ColumnOutOfBounds(usize),
    /// An algorithm-level failure, with a human-readable description.
    MatrixError(String),
    /// A textual representation of a matrix could not be read.
    ParseError(String),
    /// The nested rows do not describe a square matrix.
    NonSquareMatrix,
    /// The requested dimension is not supported by the chosen algorithm.
    InvalidDimension(usize),
}

impl MatrixError {
    /// The human-readable description of the failure.
    pub open spec fn message_s(self) -> Seq<char> {
        match self {
            MatrixError::InvalidNumberOfRows => "Invalid number of rows"@,
            MatrixError::InvalidNumberOfColumns => "Invalid number of columns"@,
            MatrixError::ElementNotFound(row, column) => "The element ("@ + dec_nat_s(row as int)
                + ", "@ + dec_nat_s(column as int) + ") was not found"@,
            MatrixError::RowOutOfBounds(row) => "The row "@ + dec_nat_s(row as int)
                + " is out of bounds"@,
            MatrixError::ColumnOutOfBounds(column) => "The column "@ + dec_nat_s(column as int)
                + " is out of bounds"@,
            MatrixError::MatrixError(e) => "Matrix error: "@ + e@,
            MatrixError::ParseError(e) => "Parse error: "@ + e@,
            MatrixError::NonSquareMatrix => "The matrix is not square"@,
            MatrixError::InvalidDimension(dim) => "The dimension "@ + dec_nat_s(dim as int)
                + " is not supported"@,
        }
    }

    /// Returns the human-readable description of the failure.
    pub fn message(&self) -> (r: String)
        ensures
            r@ == self.message_s(),
    {
        match self {
            MatrixError::InvalidNumberOfRows => {
                let mut out = String::new();
                out.append("Invalid number of rows");
                out
            },
            MatrixError::InvalidNumberOfColumns => {
                let mut out = String::new();
                out.append("Invalid number of columns");
                out
            },
            MatrixError::ElementNotFound(row, column) => {
                let mut out = String::new();
                out.append("The element (");
                let d1 = crate::structures::integers::nat_to_string(*row as u64);
                out.append(d1.as_str());
                out.append(", ");
                let d2 = crate::structures::integers::nat_to_string(*column as u64);
                out.append(d2.as_str());
                out.append(") was not found");
                out
            },
            MatrixError::RowOutOfBounds(row) => {
                let mut out = String::new();
                out.append("The row ");
                let d = crate::structures::integers::nat_to_string(*row as u64);
                out.append(d.as_str());
                out.append(" is out of bounds");
                out
            },
            MatrixError::ColumnOutOfBounds(column) => {
                let mut out = String::new();
                out.append("The column ");
                let d = crate::structures::integers::nat_to_string(*column as u64);
                out.append(d.as_str());
                out.append(" is out of bounds");
                out
            },
            MatrixError::MatrixError(e) => {
                let mut out = String::new();
                out.append("Matrix error: ");
                out.append(e.as_str());
                out
            },
            MatrixError::ParseError(e) => {
                let mut out = String::new();
                out.append("Parse error: ");
                out.append(e.as_str());
                out
            },
            MatrixError::NonSquareMatrix => {
                let mut out = String::new();
                out.append("The matrix is not square");
                out
            },
            MatrixError::InvalidDimension(dim) => {
                let mut out = String::new();
                out.append("The dimension ");
                let d = crate::structures::integers::nat_to_string(*dim as u64);
                out.append(d.as_str());
                out.append(" is not supported");
                out
            },
        }
    }
}

} // verus!
