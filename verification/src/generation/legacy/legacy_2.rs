//! The second form of a generation: package lists, and groups, scripts,
//! services and hooks that no longer have a place.

use vstd::prelude::*;
use crate::generation::legacy::{migrated, spec_migrated, Hook, Migrate, Packages, Script, Service};
use crate::library::strs;

verus! {

#[derive(Debug)]
pub struct Generation {
    pub imports: Vec<String>,
    pub packages: Packages,
    pub flatpak: Packages,
    pub crates: Packages,
    pub groups: Vec<String>,
    pub scripts: Vec<Script>,
    pub services: Vec<Service>,
    pub hooks: Vec<Hook>,
}

impl Default for Generation {
    fn default() -> (generation: Self)
        ensures
            generation.imports@.len() == 0,
            generation.packages.pkgs@.len() == 0,
            generation.flatpak.pkgs@.len() == 0,
            generation.crates.pkgs@.len() == 0,
            generation.groups@.len() == 0,
            generation.scripts@.len() == 0,
            generation.services@.len() == 0,
            generation.hooks@.len() == 0,
    {
        Self {
            imports: Vec::new(),
            packages: Packages { pkgs: Vec::new() },
            flatpak: Packages { pkgs: Vec::new() },
            crates: Packages { pkgs: Vec::new() },
            groups: Vec::new(),
            scripts: Vec::new(),
            services: Vec::new(),
            hooks: Vec::new(),
        }
    }
}

impl Migrate<crate::generation::Generation> for Generation {
    fn migrate(self) -> (generation: crate::generation::Generation)
        ensures
            generation@ == spec_migrated(
                strs(self.imports@),
                strs(self.packages.pkgs@),
                strs(self.flatpak.pkgs@),
                strs(self.crates.pkgs@),
            ),
    {
        migrated(self.imports, self.packages.pkgs, self.flatpak.pkgs, self.crates.pkgs)
    }
}

} // verus!
