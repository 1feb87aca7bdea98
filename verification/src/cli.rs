//! The commands that the tool understands.

use vstd::prelude::*;

verus! {

#[derive(Debug)]
pub enum ManagerCommands {
    /// Sync managers
    Sync,
    /// Upgrade managers
    Upgrade {
        /// Sync before upgrading
        sync: bool,
    },
    /// List all installed items that are not declared
    ListOthers {
        /// Remove all items that are not declared
        remove: bool,
    },
}

#[derive(Debug)]
pub enum ConfigCommands {
    /// Create a default configuration
    Init,
    /// Check the configuration for warnings and errors
    Check,
}

#[derive(Debug)]
pub enum GenCommands {
    /// Confirm the declared generation, and make it the current one
    Commit(Commit),
    /// List all generations
    List,
    /// Show the declared generation
    Info,
    /// Show the number of the latest generation
    Latest,
    /// The difference between two generations
    Diff {
        /// Generation to act as base
        old: usize,
        /// Generation to act as changes
        new: usize,
    },
    /// A command on the current generation
    Current { command: CurrentCommands },
}

#[derive(Debug)]
pub enum CurrentCommands {
    /// Build the current generation
    Build,
    /// Go back to an earlier generation
    Rollback(Rollback),
    /// Make the latest generation the current one
    ToLatest,
    /// Make a given generation the current one
    SetCurrent(SetCurrent),
}

/// A yes or a no on the command line.
#[derive(Debug, Clone, Copy, PartialEq, Eq, Structural)]
pub enum CLIBoolean {
    Yes,
    No,
}

impl CLIBoolean {
    /// The answer as a `bool`: `Yes` is `true`.
    #[inline(always)]
    pub fn bool(&self) -> (value: bool)
        ensures
            value == (*self == CLIBoolean::Yes),
    {
        match self {
            Self::Yes => true,
            Self::No => false,
        }
    }
}

#[derive(Debug)]
pub struct Commit {
    /// The commit message shows up in the list of generations
    pub msg: String,
}

#[derive(Debug)]
pub struct SetCurrent {
    /// Generation to jump to
    pub to: usize,
}

#[derive(Debug)]
pub struct Rollback {
    /// How many generations to go back by
    pub by: isize,
}

} // verus!
