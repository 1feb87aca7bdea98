//! The first form of a generation: three flat lists.

use vstd::prelude::*;
use crate::generation::legacy::{migrated, spec_migrated, Migrate};
use crate::library::strs;

verus! {

#[derive(Debug)]
pub struct Generation {
    pub imports: Vec<String>,
    pub pkgs: Vec<String>,
    pub flatpaks: Vec<String>,
    pub crates: Vec<String>,
}

impl Default for Generation {
    fn default() -> (generation: Self)
        ensures
            generation.imports@.len() == 0,
            generation.pkgs@.len() == 0,
            generation.flatpaks@.len() == 0,
            generation.crates@.len() == 0,
    {
        Self { imports: Vec::new(), pkgs: Vec::new(), flatpaks: Vec::new(), crates: Vec::new() }
    }
}

impl Migrate<crate::generation::Generation> for Generation {
    fn migrate(self) -> (generation: crate::generation::Generation)
        ensures
            generation@ == spec_migrated(
                strs(self.imports@),
                strs(self.pkgs@),
                strs(self.flatpaks@),
                strs(self.crates@),
            ),
    {
        migrated(self.imports, self.pkgs, self.flatpaks, self.crates)
    }
}

} // verus!
