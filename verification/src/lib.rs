//! Verified core of the SwiftLight compiler: module identifiers and the module
//! dependency graph, the optimisation pipeline configuration, the IR type
//! system, and the runtime bookkeeping of channels and futures.

pub mod module;
pub mod name_table;
pub mod optimization;
pub mod middleend;
