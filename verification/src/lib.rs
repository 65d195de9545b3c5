//! Exact linear algebra over abstract rings: square matrices, determinants
//! (triangle rule, Bareiss, Laplace/Montante, Gaussian elimination), LU
//! decomposition and row reduction, all verified against mathematical
//! specifications stated over sequence views of the matrix contents.

pub mod arithmetics;
pub mod identities;
pub mod matrix;
pub mod result;
pub mod structures;
pub mod traits;
