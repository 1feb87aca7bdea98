//! Generations as earlier versions of the tool wrote them, and how each
//! becomes a generation of today.

pub mod legacy_1;
pub mod legacy_2;

use vstd::prelude::*;
use crate::generation::model::GenerationView;
use crate::generation::{Generation, Items};
use crate::library::strs;

verus! {

#[derive(Debug)]
pub struct Packages {
    pub pkgs: Vec<String>,
}

impl Default for Packages {
    fn default() -> (packages: Self)
        ensures
            packages.pkgs@.len() == 0,
    {
        Self { pkgs: Vec::new() }
    }
}

#[derive(Debug)]
pub struct Script {
    pub name: String,
    pub pre: String,
    pub run: String,
}

impl Default for Script {
    fn default() -> (script: Self)
        ensures
            script.name@.len() == 0,
            script.pre@.len() == 0,
            script.run@.len() == 0,
    {
        Self { name: String::new(), pre: String::new(), run: String::new() }
    }
}

#[derive(Debug)]
pub struct Service {
    pub name: String,
    pub enabled: bool,
}

impl Default for Service {
    fn default() -> (service: Self)
        ensures
            service.name@.len() == 0,
            !service.enabled,
    {
        Self { name: String::new(), enabled: false }
    }
}

#[derive(Debug)]
pub struct Hook {
    pub pre: String,
    pub post: String,
}

impl Default for Hook {
    fn default() -> (hook: Self)
        ensures
            hook.pre@.len() == 0,
            hook.post@.len() == 0,
    {
        Self { pre: String::new(), post: String::new() }
    }
}

/// What a generation of an earlier version becomes: its imports, and its
/// three lists as the items of the managers `system`, `flatpak` and `cargo`.
pub open spec fn spec_migrated(
    imports: Seq<Seq<char>>,
    system: Seq<Seq<char>>,
    flatpak: Seq<Seq<char>>,
    cargo: Seq<Seq<char>>,
) -> GenerationView {
    GenerationView {
        imports,
        managers: seq![
            (seq!['s', 'y', 's', 't', 'e', 'm'], system),
            (seq!['f', 'l', 'a', 't', 'p', 'a', 'k'], flatpak),
            (seq!['c', 'a', 'r', 'g', 'o'], cargo),
        ],
    }
}

/// The generation with the three lists as the items of the managers
/// `system`, `flatpak` and `cargo`.
pub fn migrated(
    imports: Vec<String>,
    system: Vec<String>,
    flatpak: Vec<String>,
    cargo: Vec<String>,
) -> (generation: Generation)
    ensures
        generation@ == spec_migrated(strs(imports@), strs(system@), strs(flatpak@), strs(cargo@)),
        generation.wf(),
{
    proof {
        reveal_strlit("system");
        reveal_strlit("flatpak");
        reveal_strlit("cargo");
        assert("system"@ =~= seq!['s', 'y', 's', 't', 'e', 'm']);
        assert("flatpak"@ =~= seq!['f', 'l', 'a', 't', 'p', 'a', 'k']);
        assert("cargo"@ =~= seq!['c', 'a', 'r', 'g', 'o']);
    }
    let mut managers: Vec<(String, Items)> = Vec::new();
    managers.push(("system".to_owned(), Items { items: system }));
    managers.push(("flatpak".to_owned(), Items { items: flatpak }));
    managers.push(("cargo".to_owned(), Items { items: cargo }));
    let generation = Generation { imports, managers };
    proof {
        let want = spec_migrated(strs(imports@), strs(system@), strs(flatpak@), strs(cargo@));
        assert(generation@.managers =~= want.managers);
        let names = crate::generation::model::model_names(generation@.managers);
        assert(names[0][0] == 's' && names[1][0] == 'f' && names[2][0] == 'c');
    }
    generation
}

/// A generation of an earlier version that can be brought up to date.
pub trait Migrate<T> {
    fn migrate(self) -> T;
}

} // verus!
