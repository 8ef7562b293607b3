//! The middle end: the IR, its optimisation, and the concurrency runtime.

pub mod concurrent;
pub mod ir;
pub mod optimization;

use vstd::prelude::*;

verus! {

/// Optimisation level of the middle end.
#[derive(Debug, Clone, Copy, PartialEq, Eq, Structural)]
pub enum OptimizationLevel {
    /// No optimisation (debug builds); `None` in the language's own naming.
    Disabled,
    /// Basic optimisation.
    Basic,
    /// Standard optimisation.
    Standard,
    /// Aggressive optimisation.
    Aggressive,
}

impl Default for OptimizationLevel {
    fn default() -> (r: Self)
        ensures
            r == OptimizationLevel::Standard,
    {
        OptimizationLevel::Standard
    }
}

} // verus!
