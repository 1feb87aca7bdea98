//! Declarative system-state convergence: generations of desired items,
//! the differences between them, and the steps that reconcile a system.

pub mod cli;
pub mod generation;
pub mod git;
pub mod library;
pub mod lock;
pub mod management;
pub mod text;
