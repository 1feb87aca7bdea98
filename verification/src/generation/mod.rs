//! Generations: the declared state of a system, as imports and one list of
//! items for each manager.

pub mod converge;
pub mod import_order;
pub mod imports;
pub mod legacy;
pub mod model;
pub mod order;
pub mod plan;
pub mod store;

use vstd::prelude::*;
use crate::library::strs;
use crate::generation::model::{
    model_extend, model_find, model_items, model_merge_one, model_names, GenerationView,
};

verus! {

/// Which managers come first and which come last when a generation is applied.
#[derive(Debug)]
pub struct ManagerOrder {
    pub begin: Vec<String>,
    pub end: Vec<String>,
}

impl Default for ManagerOrder {
    fn default() -> (order: Self)
        ensures
            order.begin@.len() == 0,
            order.end@.len() == 0,
    {
        Self { begin: Vec::new(), end: Vec::new() }
    }
}

/// The items declared for one manager.
#[derive(Debug)]
pub struct Items {
    pub items: Vec<String>,
}

impl View for Items {
    type V = Seq<Seq<char>>;

    open spec fn view(&self) -> Seq<Seq<char>> {
        strs(self.items@)
    }
}

impl Default for Items {
    fn default() -> (items: Self)
        ensures
            items@ == Seq::<Seq<char>>::empty(),
    {
        let items = Self { items: Vec::new() };
        assert(items@ =~= Seq::<Seq<char>>::empty());
        items
    }
}

/// A generation. The managers are kept in a list, in the order in which
/// they were declared, so that they are always walked in the same order.
/// No manager should stand in it twice (`wf`): `default`, `merge_items`,
/// `extend` and `absorb_imports` see to that, and `has_distinct_managers`
/// tests it. Where a name stands twice all the same, its first entry is
/// the one that counts.
#[derive(Debug)]
pub struct Generation {
    pub imports: Vec<String>,
    pub managers: Vec<(String, Items)>,
}

/// The managers of a generation as names with their items.
pub open spec fn managers_view(managers: Seq<(String, Items)>) -> Seq<(Seq<char>, Seq<Seq<char>>)> {
    managers.map_values(|e: (String, Items)| (e.0@, e.1@))
}

impl View for Generation {
    type V = GenerationView;

    open spec fn view(&self) -> GenerationView {
        GenerationView { imports: strs(self.imports@), managers: managers_view(self.managers@) }
    }
}

impl Default for Generation {
    fn default() -> (generation: Generation)
        ensures
            generation@ == GenerationView::empty(),
            generation.wf(),
    {
        let generation = Generation { imports: Vec::new(), managers: Vec::new() };
        assert(generation@.imports =~= Seq::empty());
        assert(generation@.managers =~= Seq::empty());
        generation
    }
}

/// Appends copies of the strings of `src` to `dst`.
pub fn append_strings(dst: &mut Vec<String>, src: &Vec<String>)
    ensures
        strs(final(dst)@) == strs(old(dst)@) + strs(src@),
{
    let ghost start = strs(dst@);
    let mut i: usize = 0;
    assert(strs(dst@) =~= start + strs(src@).take(0));
    while i < src.len()
        invariant
            0 <= i <= src.len(),
            strs(dst@) == start + strs(src@).take(i as int),
        decreases src.len() - i,
    {
        let ghost before = dst@;
        dst.push(src[i].clone());
        assert(strs(dst@) =~= strs(before).push(src@[i as int]@));
        assert(strs(dst@) =~= start + strs(src@).take(i + 1));
        i += 1;
    }
    assert(strs(src@).take(src@.len() as int) =~= strs(src@));
}

/// A copy of a list of strings.
pub fn clone_strings(src: &Vec<String>) -> (copy: Vec<String>)
    ensures
        strs(copy@) == strs(src@),
{
    let mut copy: Vec<String> = Vec::new();
    assert(strs(copy@) =~= Seq::<Seq<char>>::empty());
    append_strings(&mut copy, src);
    assert(strs(copy@) =~= strs(src@));
    copy
}

/// Whether a list of strings holds the given one.
pub fn contains_string(list: &Vec<String>, value: &str) -> (found: bool)
    ensures
        found == strs(list@).contains(value@),
{
    let mut i: usize = 0;
    while i < list.len()
        invariant
            0 <= i <= list.len(),
            forall|j: int| 0 <= j < i ==> strs(list@)[j] != value@,
        decreases list.len() - i,
    {
        if list[i].as_str().eq(value) {
            assert(strs(list@)[i as int] == value@);
            return true;
        }
        i += 1;
    }
    false
}

impl Generation {
    /// A copy of this generation.
    pub fn duplicate(&self) -> (copy: Generation)
        ensures
            copy@ == self@,
    {
        let mut copy = Generation::default();
        let mut i: usize = 0;
        assert(copy@.managers =~= self@.managers.take(0));
        while i < self.managers.len()
            invariant
                0 <= i <= self.managers.len(),
                copy@.managers == self@.managers.take(i as int),
            decreases self.managers.len() - i,
        {
            let ghost before = copy.managers@;
            let items = Items { items: clone_strings(&self.managers[i].1.items) };
            copy.managers.push((self.managers[i].0.clone(), items));
            assert(copy@.managers =~= managers_view(before).push(self@.managers[i as int]));
            assert(copy@.managers =~= self@.managers.take(i + 1));
            i += 1;
        }
        assert(self@.managers.take(self.managers@.len() as int) =~= self@.managers);
        copy.imports = clone_strings(&self.imports);
        assert(copy@.managers =~= self@.managers);
        copy
    }

    /// No manager is declared twice.
    pub open spec fn wf(&self) -> bool {
        model_names(self@.managers).no_duplicates()
    }

    /// Whether no manager is declared twice.
    pub fn has_distinct_managers(&self) -> (distinct: bool)
        ensures
            distinct == self.wf(),
    {
        let ghost names = model_names(self@.managers);
        let mut i: usize = 0;
        while i < self.managers.len()
            invariant
                0 <= i <= self.managers.len(),
                names == model_names(self@.managers),
                forall|a: int, b: int| 0 <= a < b < i ==> names[a] != names[b],
            decreases self.managers.len() - i,
        {
            let place = self.position(self.managers[i].0.as_str());
            proof {
                names.index_of_first_ensures(names[i as int]);
                assert(names[i as int] == self.managers@[i as int].0@);
                assert(names.contains(names[i as int]));
            }
            match place {
                Some(k) => {
                    if k != i {
                        assert(names[k as int] == names[i as int]);
                        return false;
                    }
                },
                None => {
                    return false;
                },
            }
            i += 1;
        }
        assert forall|a: int, b: int|
            0 <= a < names.len() && 0 <= b < names.len() && a != b implies names[a] != names[b] by {
            if a < b {
                assert(names[a] != names[b]);
            } else {
                assert(names[b] != names[a]);
            }
        }
        true
    }

    /// The place of the first entry for the named manager.
    pub fn position(&self, name: &str) -> (place: Option<usize>)
        ensures
            match place {
                Some(i) => model_find(self@.managers, name@) == Some(i as int) && i
                    < self.managers@.len() && self.managers@[i as int].0@ == name@,
                None => model_find(self@.managers, name@).is_none(),
            },
            place.is_some() == model_names(self@.managers).contains(name@),
    {
        let ghost names = model_names(self@.managers);
        let mut i: usize = 0;
        while i < self.managers.len()
            invariant
                0 <= i <= self.managers.len(),
                names == model_names(self@.managers),
                forall|j: int| 0 <= j < i ==> names[j] != name@,
            decreases self.managers.len() - i,
        {
            if self.managers[i].0.as_str().eq(name) {
                proof {
                    assert(names[i as int] == name@);
                    names.index_of_first_ensures(name@);
                }
                return Some(i);
            }
            i += 1;
        }
        proof {
            names.index_of_first_ensures(name@);
        }
        None
    }

    /// The items declared for the named manager, if it is declared.
    pub fn get(&self, name: &str) -> (items: Option<&Items>)
        ensures
            match items {
                Some(found) => model_items(self@.managers, name@) == Some(found@),
                None => model_items(self@.managers, name@).is_none(),
            },
            items.is_some() == model_names(self@.managers).contains(name@),
    {
        match self.position(name) {
            Some(i) => Some(&self.managers[i].1),
            None => None,
        }
    }

    /// Whether the named manager is declared.
    pub fn contains_manager(&self, name: &str) -> (found: bool)
        ensures
            found == model_names(self@.managers).contains(name@),
    {
        self.position(name).is_some()
    }

    /// The names of the declared managers, in order.
    pub fn manager_names(&self) -> (names: Vec<String>)
        ensures
            strs(names@) == model_names(self@.managers),
    {
        let mut names: Vec<String> = Vec::new();
        let mut i: usize = 0;
        assert(strs(names@) =~= model_names(self@.managers).take(0));
        while i < self.managers.len()
            invariant
                0 <= i <= self.managers.len(),
                strs(names@) == model_names(self@.managers).take(i as int),
            decreases self.managers.len() - i,
        {
            let ghost before = names@;
            names.push(self.managers[i].0.clone());
            assert(strs(names@) =~= strs(before).push(self.managers@[i as int].0@));
            assert(strs(names@) =~= model_names(self@.managers).take(i + 1));
            i += 1;
        }
        assert(model_names(self@.managers).take(self.managers@.len() as int) =~= model_names(
            self@.managers,
        ));
        names
    }

    /// Appends the items to those of the named manager, which is declared
    /// at the end if it was not declared yet.
    pub fn merge_items(&mut self, name: &str, items: &Vec<String>)
        ensures
            final(self)@.imports == old(self)@.imports,
            final(self)@.managers == model_merge_one(old(self)@.managers, name@, strs(items@)),
            old(self).wf() ==> final(self).wf(),
    {
        proof {
            crate::generation::model::lemma_merge_one(
                old(self)@.managers,
                name@,
                strs(items@),
                name@,
            );
            if old(self).wf() && !model_names(old(self)@.managers).contains(name@) {
                crate::library::lemma_push_no_duplicates(model_names(old(self)@.managers), name@);
            }
        }
        let ghost before = self.managers@;
        match self.position(name) {
            Some(i) => {
                let mut merged = clone_strings(&self.managers[i].1.items);
                append_strings(&mut merged, items);
                let entry_name = self.managers[i].0.clone();
                self.managers.set(i, (entry_name, Items { items: merged }));
                assert(managers_view(self.managers@) =~= model_merge_one(
                    managers_view(before),
                    name@,
                    strs(items@),
                ));
            },
            None => {
                self.managers.push((name.to_owned(), Items { items: clone_strings(items) }));
                assert(managers_view(self.managers@) =~= model_merge_one(
                    managers_view(before),
                    name@,
                    strs(items@),
                ));
            },
        }
    }
}

pub trait GenerationUtils {
    /// Takes over everything that the other generation declares.
    fn extend(&mut self, other_gen: Generation);
}

impl GenerationUtils for Generation {
    /// The imports of the other generation are appended, and so are the
    /// items of each of its managers; a manager that was not declared yet
    /// is declared at the end.
    fn extend(&mut self, other_gen: Generation)
        ensures
            final(self)@.imports == old(self)@.imports + other_gen@.imports,
            final(self)@.managers == model_extend(old(self)@.managers, other_gen@.managers),
            final(self)@ == old(self)@.extend(other_gen@),
            old(self).wf() ==> final(self).wf(),
    {
        self.extend_from(&other_gen);
    }
}

impl Generation {
    /// Takes over everything that the other generation declares, as
    /// `extend` does, and leaves the other generation as it is.
    pub fn extend_from(&mut self, other_gen: &Generation)
        ensures
            final(self)@ == old(self)@.extend(other_gen@),
            old(self).wf() ==> final(self).wf(),
    {
        proof {
            if old(self).wf() {
                crate::generation::model::law_extend_keeps_managers_distinct(
                    old(self)@,
                    other_gen@,
                );
            }
        }
        append_strings(&mut self.imports, &other_gen.imports);
        let ghost start = self@.managers;
        let mut j: usize = 0;
        assert(other_gen@.managers.take(0) =~= Seq::empty());
        while j < other_gen.managers.len()
            invariant
                0 <= j <= other_gen.managers.len(),
                self@.imports == old(self)@.imports + other_gen@.imports,
                start == old(self)@.managers,
                self@.managers == model_extend(start, other_gen@.managers.take(j as int)),
            decreases other_gen.managers.len() - j,
        {
            self.merge_items(other_gen.managers[j].0.as_str(), &other_gen.managers[j].1.items);
            proof {
                let next = other_gen@.managers.take(j + 1);
                assert(next.drop_last() =~= other_gen@.managers.take(j as int));
                assert(next.last() == other_gen@.managers[j as int]);
            }
            j += 1;
        }
        assert(other_gen@.managers.take(other_gen.managers@.len() as int) =~= other_gen@.managers);
    }
}

} // verus!
