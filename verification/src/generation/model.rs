//! The mathematical model of a generation.

use vstd::prelude::*;

verus! {

/// What a generation declares: its imports, and its managers in order, each
/// a name with its items.
pub struct GenerationView {
    pub imports: Seq<Seq<char>>,
    pub managers: Seq<(Seq<char>, Seq<Seq<char>>)>,
}

/// The names of the managers, in order.
pub open spec fn model_names(m: Seq<(Seq<char>, Seq<Seq<char>>)>) -> Seq<Seq<char>> {
    m.map_values(|e: (Seq<char>, Seq<Seq<char>>)| e.0)
}

/// The place of the first entry with the given name.
pub open spec fn model_find(m: Seq<(Seq<char>, Seq<Seq<char>>)>, name: Seq<char>) -> Option<int> {
    model_names(m).index_of_first(name)
}

/// The items of the first entry with the given name.
pub open spec fn model_items(m: Seq<(Seq<char>, Seq<Seq<char>>)>, name: Seq<char>) -> Option<
    Seq<Seq<char>>,
> {
    match model_find(m, name) {
        Some(i) => Some(m[i].1),
        None => None,
    }
}

/// The managers after the items were appended to those of the named one,
/// which is put at the end if it was not there.
pub open spec fn model_merge_one(
    m: Seq<(Seq<char>, Seq<Seq<char>>)>,
    name: Seq<char>,
    items: Seq<Seq<char>>,
) -> Seq<(Seq<char>, Seq<Seq<char>>)> {
    match model_find(m, name) {
        Some(i) => m.update(i, (m[i].0, m[i].1 + items)),
        None => m.push((name, items)),
    }
}

/// The managers after each entry of `other` was merged in, in order.
pub open spec fn model_extend(
    m: Seq<(Seq<char>, Seq<Seq<char>>)>,
    other: Seq<(Seq<char>, Seq<Seq<char>>)>,
) -> Seq<(Seq<char>, Seq<Seq<char>>)>
    decreases other.len(),
{
    if other.len() == 0 {
        m
    } else {
        model_merge_one(model_extend(m, other.drop_last()), other.last().0, other.last().1)
    }
}

impl GenerationView {
    pub open spec fn empty() -> GenerationView {
        GenerationView { imports: Seq::empty(), managers: Seq::empty() }
    }

    /// This generation after it took over what `other` declares.
    pub open spec fn extend(self, other: GenerationView) -> GenerationView {
        GenerationView {
            imports: self.imports + other.imports,
            managers: model_extend(self.managers, other.managers),
        }
    }

    /// Whether the named manager is declared.
    pub open spec fn declares(self, name: Seq<char>) -> bool {
        model_names(self.managers).contains(name)
    }

    /// The items of the named manager; none if it is not declared.
    pub open spec fn items(self, name: Seq<char>) -> Seq<Seq<char>> {
        model_items_or_none(self.managers, name)
    }
}

/// The items of the named manager; none if it is not there.
pub open spec fn model_items_or_none(m: Seq<(Seq<char>, Seq<Seq<char>>)>, name: Seq<char>) -> Seq<
    Seq<char>,
> {
    match model_items(m, name) {
        Some(items) => items,
        None => Seq::empty(),
    }
}

/// The items of all entries with the given name, one list after the other.
pub open spec fn model_gathered(o: Seq<(Seq<char>, Seq<Seq<char>>)>, name: Seq<char>) -> Seq<
    Seq<char>,
>
    decreases o.len(),
{
    if o.len() == 0 {
        Seq::empty()
    } else if o.last().0 == name {
        model_gathered(o.drop_last(), name) + o.last().1
    } else {
        model_gathered(o.drop_last(), name)
    }
}

/// Merging items into a manager changes the items of that manager alone,
/// and adds its name at the end where it was not there.
pub proof fn lemma_merge_one(
    m: Seq<(Seq<char>, Seq<Seq<char>>)>,
    n: Seq<char>,
    items: Seq<Seq<char>>,
    name: Seq<char>,
)
    ensures
        model_names(model_merge_one(m, n, items)) == if model_names(m).contains(n) {
            model_names(m)
        } else {
            model_names(m).push(n)
        },
        model_items(model_merge_one(m, n, items), name) == if name == n {
            Some(model_items_or_none(m, n) + items)
        } else {
            model_items(m, name)
        },
{
    let names = model_names(m);
    let merged = model_merge_one(m, n, items);
    let names2 = model_names(merged);
    names.index_of_first_ensures(n);
    names.index_of_first_ensures(name);
    match names.index_of_first(n) {
        Some(i) => {
            assert(names[i] == m[i].0);
            assert(names2 =~= names);
            if name != n {
                match names.index_of_first(name) {
                    Some(k) => {
                        assert(names[k] == name);
                        assert(k != i);
                    },
                    None => {},
                }
            }
        },
        None => {
            assert(names2 =~= names.push(n));
            names2.index_of_first_ensures(name);
            if name == n {
                let k = names2.index_of_first(n);
                assert(names2[names.len() as int] == n);
                assert(names2.contains(n));
                let kk = k.unwrap();
                if kk < names.len() {
                    assert(names[kk] == n);
                    assert(names.contains(n));
                }
                assert(kk == names.len());
                assert(Seq::<Seq<char>>::empty() + items =~= items);
            } else {
                match names.index_of_first(name) {
                    Some(k) => {
                        assert(names2[k] == name);
                        assert(names2.contains(name));
                        let k2 = names2.index_of_first(name).unwrap();
                        if k2 < k {
                            assert(names[k2] == name);
                        }
                        if k < k2 {
                            assert(names2[k] == name);
                        }
                        assert(k2 == k);
                    },
                    None => {
                        if names2.contains(name) {
                            let j = choose|j: int| 0 <= j < names2.len() && names2[j] == name;
                            assert(names[j] == name);
                            assert(names.contains(name));
                        }
                    },
                }
            }
        },
    }
}

/// After taking over `o`, a manager is declared if it was or if `o`
/// declares it, and it has the items that it had, followed by those that
/// `o` declares for it.
pub proof fn lemma_extend(
    m: Seq<(Seq<char>, Seq<Seq<char>>)>,
    o: Seq<(Seq<char>, Seq<Seq<char>>)>,
    name: Seq<char>,
)
    ensures
        model_names(model_extend(m, o)).contains(name) <==> (model_names(m).contains(name)
            || model_names(o).contains(name)),
        model_items_or_none(model_extend(m, o), name) == model_items_or_none(m, name)
            + model_gathered(o, name),
        model_names(m).no_duplicates() ==> model_names(model_extend(m, o)).no_duplicates(),
    decreases o.len(),
{
    if o.len() == 0 {
        assert(model_items_or_none(m, name) + Seq::<Seq<char>>::empty() =~= model_items_or_none(
            m,
            name,
        ));
        assert(!model_names(o).contains(name));
    } else {
        let init = o.drop_last();
        let last = o.last();
        let mid = model_extend(m, init);
        lemma_extend(m, init, name);
        lemma_extend(m, init, last.0);
        lemma_merge_one(mid, last.0, last.1, name);
        assert(model_names(o) =~= model_names(init).push(last.0));
        crate::library::lemma_push_contains(model_names(init), last.0, name);
        crate::library::lemma_push_contains(model_names(mid), last.0, name);
        model_names(mid).index_of_first_ensures(name);
        model_names(model_extend(m, o)).index_of_first_ensures(name);
        if name == last.0 {
            assert(model_items_or_none(m, name) + model_gathered(init, name) + last.1
                =~= model_items_or_none(m, name) + (model_gathered(init, name) + last.1));
        }
        if model_names(m).no_duplicates() && !model_names(mid).contains(last.0) {
            crate::library::lemma_push_no_duplicates(model_names(mid), last.0);
        }
    }
}

impl GenerationView {
    /// No manager is declared twice.
    pub open spec fn wf(self) -> bool {
        model_names(self.managers).no_duplicates()
    }
}

/// A generation in which no manager is declared twice stays so when it
/// takes over another.
pub proof fn law_extend_keeps_managers_distinct(g: GenerationView, other: GenerationView)
    requires
        g.wf(),
    ensures
        g.extend(other).wf(),
{
    lemma_extend(g.managers, other.managers, Seq::empty());
}

/// Taking over two generations declares the same managers with the same
/// items, whichever of the two comes first; only the order of the items
/// within a manager depends on it.
pub proof fn law_extend_order_is_irrelevant(
    g: GenerationView,
    x: GenerationView,
    y: GenerationView,
    name: Seq<char>,
)
    ensures
        g.extend(x).extend(y).declares(name) == g.extend(y).extend(x).declares(name),
        g.extend(x).extend(y).items(name).to_multiset() == g.extend(y).extend(x).items(
            name,
        ).to_multiset(),
{
    lemma_extend(g.managers, x.managers, name);
    lemma_extend(g.managers, y.managers, name);
    lemma_extend(g.extend(x).managers, y.managers, name);
    lemma_extend(g.extend(y).managers, x.managers, name);
    let base = model_items_or_none(g.managers, name);
    let gx = model_gathered(x.managers, name);
    let gy = model_gathered(y.managers, name);
    vstd::seq_lib::lemma_multiset_commutative(base + gx, gy);
    vstd::seq_lib::lemma_multiset_commutative(base + gy, gx);
    vstd::seq_lib::lemma_multiset_commutative(base, gx);
    vstd::seq_lib::lemma_multiset_commutative(base, gy);
    assert((base + gx + gy).to_multiset() =~= (base + gy + gx).to_multiset());
}

} // verus!
