//! What is decided around a native sparse solve: which routine serves a matrix, the sizes
//! it is called with, and what its status means.
//!
//! The native routines take a square matrix in three-array compressed-row form and a dense
//! right-hand side of one or more columns, in 32-bit sizes, and return a status that is zero
//! on success.

use vstd::prelude::*;

verus! {

/// What is known of the structure of a sparse matrix.
#[derive(Clone, Copy, PartialEq, Eq, Structural, Debug)]
pub enum MatrixType {
    /// Symmetric; only the entries of the upper triangle are stored.
    Symmetric,
    /// The pattern of the stored entries is symmetric, their values need not be.
    StructurallySymmetric,
    /// Nothing is known.
    General,
}

/// A native routine for sparse systems.
#[derive(Clone, Copy, PartialEq, Eq, Structural, Debug)]
pub enum SparseSolver {
    /// Solves a symmetric system given by its upper triangle; it refuses an entry below the
    /// diagonal.
    SymmetricAsUpperTriangle,
    /// Solves a structurally symmetric system.
    StructurallySymmetric,
}

/// Why a system was not solved.
#[derive(Clone, Copy, PartialEq, Eq, Structural, Debug)]
pub enum SolveError {
    /// No routine serves matrices of this type.
    UnsupportedMatrixType,
    /// A size does not fit the native routines, or the solution has more entries than a
    /// machine word counts.
    SystemTooLarge,
    /// The native routine failed with this status.
    NativeStatus(i32),
}

/// How to call a native routine for one system.
#[derive(Clone, Copy, PartialEq, Eq, Structural, Debug)]
pub struct SolvePlan {
    pub solver: SparseSolver,
    /// Number of rows of the system, as the routine takes it.
    pub num_rows: i32,
    /// Number of columns of the right-hand side, as the routine takes it.
    pub num_rhs_cols: i32,
    /// Number of entries of the solution: one column per column of the right-hand side.
    pub sol_len: usize,
}

/// The routine that serves matrices of a type, if there is one.
pub open spec fn solver_for(matrix_type: MatrixType) -> Option<SparseSolver> {
    match matrix_type {
        MatrixType::Symmetric => Some(SparseSolver::SymmetricAsUpperTriangle),
        MatrixType::StructurallySymmetric => Some(SparseSolver::StructurallySymmetric),
        MatrixType::General => None,
    }
}

/// The sizes fit the native routines and the solution can be held.
pub open spec fn sizes_fit(num_rows: usize, num_rhs_cols: usize) -> bool {
    &&& num_rows <= i32::MAX
    &&& num_rhs_cols <= i32::MAX
    &&& num_rows * num_rhs_cols <= usize::MAX
}

/// Decides how a system of `num_rows` equations with `num_rhs_cols` right-hand sides is
/// solved. The type of the matrix is looked at before the sizes.
pub fn plan_sparse_solve(
    matrix_type: MatrixType,
    num_rows: usize,
    num_rhs_cols: usize,
) -> (res: Result<SolvePlan, SolveError>)
    ensures
        match res {
            Ok(plan) => {
                &&& solver_for(matrix_type) == Some(plan.solver)
                &&& sizes_fit(num_rows, num_rhs_cols)
                &&& plan.num_rows == num_rows
                &&& plan.num_rhs_cols == num_rhs_cols
                &&& plan.sol_len == num_rows * num_rhs_cols
            },
            Err(SolveError::UnsupportedMatrixType) => solver_for(matrix_type).is_none(),
            Err(SolveError::SystemTooLarge) => solver_for(matrix_type).is_some() && !sizes_fit(
                num_rows,
                num_rhs_cols,
            ),
            Err(SolveError::NativeStatus(_)) => false,
        },
{
    let solver = match matrix_type {
        MatrixType::Symmetric => SparseSolver::SymmetricAsUpperTriangle,
        MatrixType::StructurallySymmetric => SparseSolver::StructurallySymmetric,
        MatrixType::General => {
            return Err(SolveError::UnsupportedMatrixType);
        },
    };
    if num_rows > i32::MAX as usize || num_rhs_cols > i32::MAX as usize {
        return Err(SolveError::SystemTooLarge);
    }
    match num_rows.checked_mul(num_rhs_cols) {
        Some(sol_len) => Ok(
            SolvePlan {
                solver,
                num_rows: num_rows as i32,
                num_rhs_cols: num_rhs_cols as i32,
                sol_len,
            },
        ),
        None => Err(SolveError::SystemTooLarge),
    }
}

/// Reads the status that a native routine returned: zero is success, anything else is
/// handed on as the failure it reports.
pub fn solve_outcome(stat: i32) -> (res: Result<(), SolveError>)
    ensures
        res == if stat == 0 {
            Ok::<(), SolveError>(())
        } else {
            Err::<(), SolveError>(SolveError::NativeStatus(stat))
        },
{
    if stat != 0 {
        Err(SolveError::NativeStatus(stat))
    } else {
        Ok(())
    }
}

} // verus!
