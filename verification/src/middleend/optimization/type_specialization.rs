//! Placeholder types of type specialisation.

use vstd::prelude::*;

verus! {

/// A type identifier of the specialiser.
#[derive(Debug, Clone, Copy, PartialEq, Eq, Structural)]
pub struct TypeId;

/// A dependent type expression of the specialiser.
#[derive(Debug, Clone, Copy, PartialEq, Eq, Structural)]
pub struct DependentTypeExpression;

} // verus!
