//! A choice between two expressions of the same SQL type.

use vstd::prelude::*;

verus! {

/// One of two values.
#[derive(Debug, Clone, Copy, PartialEq, Eq, Structural)]
pub enum Either<L, R> {
    Left(L),
    Right(R),
}

} // verus!
