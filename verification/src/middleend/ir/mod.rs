//! The intermediate representation.

pub mod representation;

use vstd::prelude::*;

verus! {

/// Identifier of an IR type.
pub type TypeId = usize;

/// Identifier of an IR function.
pub type FunctionId = usize;

/// Identifier of an IR value.
pub type ValueId = usize;

/// Identifier of an IR instruction.
pub type InstructionId = usize;

} // verus!
