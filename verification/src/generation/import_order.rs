//! Resolving imports does not depend on the order in which they are listed.

use vstd::prelude::*;
use vstd::seq_lib::{lemma_multiset_commutative, to_multiset_build, to_multiset_len, to_multiset_remove};
use crate::generation::imports::{
    extend_all, lemma_round_progress, spec_all_imports, spec_corpus_imports, spec_load,
    spec_load_all, spec_resolve, spec_round, still_pending,
};
use crate::generation::model::{lemma_extend, model_gathered, model_names, GenerationView};

verus! {

/// What `f` gives for each value of the list, one result after the other.
pub open spec fn concat_map<A, B>(s: Seq<A>, f: spec_fn(A) -> Seq<B>) -> Seq<B>
    decreases s.len(),
{
    if s.len() == 0 {
        Seq::empty()
    } else {
        concat_map(s.drop_last(), f) + f(s.last())
    }
}

/// Taking one value out of the list takes its result out of the whole.
pub proof fn lemma_concat_map_remove<A, B>(s: Seq<A>, f: spec_fn(A) -> Seq<B>, j: int)
    requires
        0 <= j < s.len(),
    ensures
        concat_map(s, f).to_multiset() == concat_map(s.remove(j), f).to_multiset().add(
            f(s[j]).to_multiset(),
        ),
    decreases s.len(),
{
    let init = s.drop_last();
    lemma_multiset_commutative(concat_map(init, f), f(s.last()));
    if j == s.len() - 1 {
        assert(s.remove(j) =~= init);
    } else {
        lemma_concat_map_remove(init, f, j);
        let r = s.remove(j);
        assert(r.drop_last() =~= init.remove(j));
        assert(r.last() == s.last());
        lemma_multiset_commutative(concat_map(init.remove(j), f), f(s.last()));
        assert(concat_map(s, f).to_multiset() =~= concat_map(r, f).to_multiset().add(
            f(s[j]).to_multiset(),
        ));
    }
}

/// Lists with the same values give the same results, whatever their order.
pub proof fn lemma_concat_map_order<A, B>(s: Seq<A>, t: Seq<A>, f: spec_fn(A) -> Seq<B>)
    requires
        s.to_multiset() == t.to_multiset(),
    ensures
        concat_map(s, f).to_multiset() == concat_map(t, f).to_multiset(),
    decreases s.len(),
{
    to_multiset_len(s);
    to_multiset_len(t);
    if s.len() == 0 {
        assert(t.len() == 0);
    } else {
        let init = s.drop_last();
        let x = s.last();
        assert(s =~= init.push(x));
        to_multiset_build(init, x);
        s.to_multiset_ensures();
        t.to_multiset_ensures();
        assert(s.contains(x)) by {
            assert(s[s.len() - 1] == x);
        }
        assert(t.to_multiset().count(x) > 0);
        assert(t.contains(x));
        let j = choose|j: int| 0 <= j < t.len() && t[j] == x;
        to_multiset_remove(t, j);
        assert(t.remove(j).to_multiset() =~= init.to_multiset());
        lemma_concat_map_order(init, t.remove(j), f);
        lemma_concat_map_remove(t, f, j);
        lemma_multiset_commutative(concat_map(init, f), f(x));
    }
}

/// Functions that agree on every value give the same results.
pub proof fn lemma_concat_map_same<A, B>(s: Seq<A>, f: spec_fn(A) -> Seq<B>, g: spec_fn(A) -> Seq<B>)
    requires
        forall|x: A| s.contains(x) ==> #[trigger] f(x) == g(x),
    ensures
        concat_map(s, f) == concat_map(s, g),
    decreases s.len(),
{
    if s.len() > 0 {
        assert forall|x: A| s.drop_last().contains(x) implies #[trigger] f(x) == g(x) by {
            let i = choose|i: int| 0 <= i < s.drop_last().len() && s.drop_last()[i] == x;
            assert(s[i] == x);
        }
        lemma_concat_map_same(s.drop_last(), f, g);
        assert(s.contains(s.last())) by {
            assert(s[s.len() - 1] == s.last());
        }
    }
}

/// A value is among the results exactly when it is in the result for one
/// value of the list.
pub proof fn lemma_concat_map_contains<A, B>(s: Seq<A>, f: spec_fn(A) -> Seq<B>, x: B)
    ensures
        concat_map(s, f).contains(x) <==> exists|i: int| 0 <= i < s.len() && f(s[i]).contains(x),
    decreases s.len(),
{
    if s.len() > 0 {
        let init = s.drop_last();
        lemma_concat_map_contains(init, f, x);
        crate::library::lemma_concat_contains(concat_map(init, f), f(s.last()), x);
        if concat_map(init, f).contains(x) {
            let i = choose|i: int| 0 <= i < init.len() && f(init[i]).contains(x);
            assert(f(s[i]).contains(x));
        }
        if f(s.last()).contains(x) {
            assert(f(s[s.len() - 1]).contains(x));
        }
        if exists|i: int| 0 <= i < s.len() && f(s[i]).contains(x) {
            let i = choose|i: int| 0 <= i < s.len() && f(s[i]).contains(x);
            if i < init.len() {
                assert(f(init[i]).contains(x));
            }
        }
    }
}

/// The imports that stay open are those that are not empty and not
/// resolved.
pub proof fn lemma_still_pending_contains(
    after: Seq<Seq<char>>,
    resolved: Seq<Seq<char>>,
    x: Seq<char>,
)
    ensures
        still_pending(after, resolved).contains(x) <==> (after.contains(x) && !resolved.contains(x)
            && x.len() != 0),
    decreases after.len(),
{
    if after.len() > 0 {
        let init = after.drop_last();
        lemma_still_pending_contains(init, resolved, x);
        assert(after =~= init.push(after.last()));
        crate::library::lemma_push_contains(init, after.last(), x);
        crate::library::lemma_push_contains(still_pending(init, resolved), after.last(), x);
    }
}

/// The imports that the named generation of the corpus brings.
pub open spec fn imports_from(corpus: Seq<(Seq<char>, GenerationView)>) -> spec_fn(Seq<char>) -> Seq<
    Seq<char>,
> {
    |name: Seq<char>| spec_load(corpus, name).imports
}

/// The items that the named generation of the corpus brings for a manager.
pub open spec fn items_from(corpus: Seq<(Seq<char>, GenerationView)>, manager: Seq<char>) -> spec_fn(
    Seq<char>,
) -> Seq<Seq<char>> {
    |name: Seq<char>| model_gathered(spec_load(corpus, name).managers, manager)
}

/// The import itself where it stays open after a round, else nothing.
pub open spec fn pending_from(resolved: Seq<Seq<char>>) -> spec_fn(Seq<char>) -> Seq<Seq<char>> {
    |name: Seq<char>|
        if resolved.contains(name) || name.len() == 0 {
            Seq::empty()
        } else {
            seq![name]
        }
}

/// Whether one of the named generations of the corpus declares the manager.
pub open spec fn declared_by(
    corpus: Seq<(Seq<char>, GenerationView)>,
    names: Seq<Seq<char>>,
    manager: Seq<char>,
) -> bool {
    exists|name: Seq<char>|
        names.contains(name) && #[trigger] model_names(spec_load(corpus, name).managers).contains(
            manager,
        )
}

/// What a generation holds after it took over the generations that its
/// imports name.
pub proof fn lemma_extend_all(
    g: GenerationView,
    corpus: Seq<(Seq<char>, GenerationView)>,
    names: Seq<Seq<char>>,
    manager: Seq<char>,
)
    ensures
        extend_all(g, spec_load_all(corpus, names)).imports == g.imports + concat_map(
            names,
            imports_from(corpus),
        ),
        extend_all(g, spec_load_all(corpus, names)).items(manager) == g.items(manager) + concat_map(
            names,
            items_from(corpus, manager),
        ),
        extend_all(g, spec_load_all(corpus, names)).declares(manager) <==> (g.declares(manager)
            || declared_by(corpus, names, manager)),
    decreases names.len(),
{
    let loaded = spec_load_all(corpus, names);
    if names.len() == 0 {
        assert(g.imports + Seq::<Seq<char>>::empty() =~= g.imports);
        assert(g.items(manager) + Seq::<Seq<char>>::empty() =~= g.items(manager));
        assert(!declared_by(corpus, names, manager));
    } else {
        let init = names.drop_last();
        let last = names.last();
        lemma_extend_all(g, corpus, init, manager);
        assert(loaded.drop_last() =~= spec_load_all(corpus, init));
        assert(loaded.last() == spec_load(corpus, last));
        let mid = extend_all(g, spec_load_all(corpus, init));
        let other = spec_load(corpus, last);
        lemma_extend(mid.managers, other.managers, manager);
        assert(extend_all(g, loaded).imports =~= g.imports + concat_map(
            names,
            imports_from(corpus),
        ));
        assert(extend_all(g, loaded).items(manager) =~= g.items(manager) + concat_map(
            names,
            items_from(corpus, manager),
        ));
        if declared_by(corpus, init, manager) {
            let w = choose|name: Seq<char>|
                init.contains(name) && #[trigger] model_names(
                    spec_load(corpus, name).managers,
                ).contains(manager);
            let i = choose|i: int| 0 <= i < init.len() && init[i] == w;
            assert(names[i] == w);
            assert(names.contains(w));
        }
        if model_names(other.managers).contains(manager) {
            assert(names[names.len() - 1] == last);
            assert(names.contains(last));
        }
        if declared_by(corpus, names, manager) {
            let w = choose|name: Seq<char>|
                names.contains(name) && #[trigger] model_names(
                    spec_load(corpus, name).managers,
                ).contains(manager);
            let i = choose|i: int| 0 <= i < names.len() && names[i] == w;
            if i < init.len() {
                assert(init[i] == w);
                assert(init.contains(w));
            }
        }
    }
}

/// The imports that stay open, as what each import leaves.
pub proof fn lemma_still_pending(after: Seq<Seq<char>>, resolved: Seq<Seq<char>>)
    ensures
        still_pending(after, resolved) == concat_map(after, pending_from(resolved)),
    decreases after.len(),
{
    if after.len() > 0 {
        lemma_still_pending(after.drop_last(), resolved);
        let prev = still_pending(after.drop_last(), resolved);
        assert(prev + Seq::<Seq<char>>::empty() =~= prev);
        assert(prev + seq![after.last()] =~= prev.push(after.last()));
    }
}

/// Two generations hold the same: the same imports as often, the same
/// managers, and for each manager the same items as often. Only the order
/// of imports, of managers and of items may differ.
pub open spec fn same_content(a: GenerationView, b: GenerationView) -> bool {
    &&& a.imports.to_multiset() == b.imports.to_multiset()
    &&& forall|manager: Seq<char>| #[trigger] a.declares(manager) == b.declares(manager)
    &&& forall|manager: Seq<char>|
        (#[trigger] a.items(manager)).to_multiset() == b.items(manager).to_multiset()
}

/// Lists with the same values hold the same values.
pub proof fn lemma_same_values<A>(s: Seq<A>, t: Seq<A>)
    requires
        s.to_multiset() == t.to_multiset(),
    ensures
        forall|x: A| s.contains(x) <==> t.contains(x),
{
    s.to_multiset_ensures();
    t.to_multiset_ensures();
    assert forall|x: A| s.contains(x) <==> t.contains(x) by {
        assert(s.contains(x) <==> s.to_multiset().count(x) > 0);
        assert(t.contains(x) <==> t.to_multiset().count(x) > 0);
    }
}

/// One round of resolving imports gives the same for generations that
/// hold the same, where the same names were resolved before.
pub proof fn lemma_round_order(
    g: GenerationView,
    h: GenerationView,
    resolved_g: Seq<Seq<char>>,
    resolved_h: Seq<Seq<char>>,
    corpus: Seq<(Seq<char>, GenerationView)>,
)
    requires
        same_content(g, h),
        forall|x: Seq<char>| resolved_g.contains(x) <==> resolved_h.contains(x),
    ensures
        same_content(
            spec_round(g, resolved_g, spec_load_all(corpus, g.imports)),
            spec_round(h, resolved_h, spec_load_all(corpus, h.imports)),
        ),
        forall|x: Seq<char>|
            (resolved_g + g.imports).contains(x) <==> (resolved_h + h.imports).contains(x),
{
    let rg = spec_round(g, resolved_g, spec_load_all(corpus, g.imports));
    let rh = spec_round(h, resolved_h, spec_load_all(corpus, h.imports));
    let mg = extend_all(g, spec_load_all(corpus, g.imports));
    let mh = extend_all(h, spec_load_all(corpus, h.imports));
    let dg = resolved_g + g.imports;
    let dh = resolved_h + h.imports;
    lemma_same_values(g.imports, h.imports);
    assert forall|x: Seq<char>| dg.contains(x) <==> dh.contains(x) by {
        crate::library::lemma_concat_contains(resolved_g, g.imports, x);
        crate::library::lemma_concat_contains(resolved_h, h.imports, x);
    }
    // the imports
    lemma_extend_all(g, corpus, g.imports, Seq::empty());
    lemma_extend_all(h, corpus, h.imports, Seq::empty());
    let bg = concat_map(g.imports, imports_from(corpus));
    let bh = concat_map(h.imports, imports_from(corpus));
    lemma_concat_map_order(g.imports, h.imports, imports_from(corpus));
    lemma_multiset_commutative(g.imports, bg);
    lemma_multiset_commutative(h.imports, bh);
    assert(mg.imports.to_multiset() =~= mh.imports.to_multiset());
    lemma_still_pending(mg.imports, dg);
    lemma_still_pending(mh.imports, dh);
    lemma_concat_map_order(mg.imports, mh.imports, pending_from(dg));
    assert forall|x: Seq<char>| mh.imports.contains(x) implies #[trigger] pending_from(dg)(x)
        == pending_from(dh)(x) by {
        assert(dg.contains(x) <==> dh.contains(x));
    }
    lemma_concat_map_same(mh.imports, pending_from(dg), pending_from(dh));
    assert(rg.imports.to_multiset() == rh.imports.to_multiset());
    // the managers
    assert forall|manager: Seq<char>| #[trigger] rg.declares(manager) == rh.declares(manager) by {
        lemma_extend_all(g, corpus, g.imports, manager);
        lemma_extend_all(h, corpus, h.imports, manager);
        assert(g.declares(manager) == h.declares(manager));
        if declared_by(corpus, g.imports, manager) {
            let w = choose|name: Seq<char>|
                g.imports.contains(name) && #[trigger] model_names(
                    spec_load(corpus, name).managers,
                ).contains(manager);
            assert(h.imports.contains(w));
        }
        if declared_by(corpus, h.imports, manager) {
            let w = choose|name: Seq<char>|
                h.imports.contains(name) && #[trigger] model_names(
                    spec_load(corpus, name).managers,
                ).contains(manager);
            assert(g.imports.contains(w));
        }
    }
    assert forall|manager: Seq<char>|
        (#[trigger] rg.items(manager)).to_multiset() == rh.items(manager).to_multiset() by {
        lemma_extend_all(g, corpus, g.imports, manager);
        lemma_extend_all(h, corpus, h.imports, manager);
        let ig = concat_map(g.imports, items_from(corpus, manager));
        let ih = concat_map(h.imports, items_from(corpus, manager));
        lemma_concat_map_order(g.imports, h.imports, items_from(corpus, manager));
        lemma_multiset_commutative(g.items(manager), ig);
        lemma_multiset_commutative(h.items(manager), ih);
        assert(g.items(manager).to_multiset() == h.items(manager).to_multiset());
    }
}

/// Resolving the same from the same state gives the same.
pub proof fn lemma_resolve_order(
    g: GenerationView,
    h: GenerationView,
    resolved_g: Seq<Seq<char>>,
    resolved_h: Seq<Seq<char>>,
    corpus: Seq<(Seq<char>, GenerationView)>,
    rounds: nat,
)
    requires
        same_content(g, h),
        forall|x: Seq<char>| resolved_g.contains(x) <==> resolved_h.contains(x),
    ensures
        match (
            spec_resolve(g, resolved_g, corpus, rounds),
            spec_resolve(h, resolved_h, corpus, rounds),
        ) {
            (Some(a), Some(b)) => same_content(a, b),
            (None, None) => true,
            _ => false,
        },
    decreases rounds,
{
    to_multiset_len(g.imports);
    to_multiset_len(h.imports);
    if g.imports.len() != 0 && rounds != 0 {
        lemma_round_order(g, h, resolved_g, resolved_h, corpus);
        lemma_resolve_order(
            spec_round(g, resolved_g, spec_load_all(corpus, g.imports)),
            spec_round(h, resolved_h, spec_load_all(corpus, h.imports)),
            resolved_g + g.imports,
            resolved_h + h.imports,
            corpus,
            (rounds - 1) as nat,
        );
    }
}

/// Resolving imports does not depend on the order in which a generation
/// lists its imports, its managers or its items: two generations that hold
/// the same resolve to generations that hold the same.
pub proof fn law_resolve_order_is_irrelevant(
    g: GenerationView,
    h: GenerationView,
    corpus: Seq<(Seq<char>, GenerationView)>,
    rounds: nat,
)
    requires
        same_content(g, h),
    ensures
        match (
            spec_resolve(g, Seq::empty(), corpus, rounds),
            spec_resolve(h, Seq::empty(), corpus, rounds),
        ) {
            (Some(a), Some(b)) => same_content(a, b),
            (None, None) => true,
            _ => false,
        },
{
    lemma_resolve_order(g, h, Seq::empty(), Seq::empty(), corpus, rounds);
}

/// Resolution comes to an end. Say the open imports are all in sight and
/// none of them is resolved yet. Then as many rounds as names in sight are
/// unresolved give a generation, and it has no import left.
pub proof fn lemma_resolve_ends(
    g: GenerationView,
    resolved: Seq<Seq<char>>,
    corpus: Seq<(Seq<char>, GenerationView)>,
    sight: Seq<Seq<char>>,
    rounds: nat,
)
    requires
        forall|x: Seq<char>| g.imports.contains(x) ==> sight.contains(x) && !resolved.contains(x),
        forall|x: Seq<char>| spec_corpus_imports(corpus).contains(x) ==> sight.contains(x),
        rounds >= sight.to_set().difference(resolved.to_set()).len(),
    ensures
        spec_resolve(g, resolved, corpus, rounds).is_some(),
        spec_resolve(g, resolved, corpus, rounds).unwrap().imports.len() == 0,
    decreases rounds,
{
    if g.imports.len() != 0 {
        lemma_round_progress(g, resolved, corpus, sight);
        lemma_resolve_ends(
            spec_round(g, resolved, spec_load_all(corpus, g.imports)),
            resolved + g.imports,
            corpus,
            sight,
            (rounds - 1) as nat,
        );
    }
}

/// Resolution always gives a generation, whatever the corpus holds, also
/// where imports name each other in a circle: as many rounds as there are
/// import names in sight are enough, and the result has no import left.
pub proof fn law_resolve_ends(g: GenerationView, corpus: Seq<(Seq<char>, GenerationView)>)
    ensures
        spec_resolve(g, Seq::empty(), corpus, spec_all_imports(g, corpus).len()).is_some(),
        spec_resolve(
            g,
            Seq::empty(),
            corpus,
            spec_all_imports(g, corpus).len(),
        ).unwrap().imports.len() == 0,
{
    let sight = spec_all_imports(g, corpus);
    let none = Seq::<Seq<char>>::empty();
    sight.lemma_cardinality_of_set();
    assert(sight.to_set().difference(none.to_set()) =~= sight.to_set());
    assert forall|x: Seq<char>| g.imports.contains(x) implies sight.contains(x) && !none.contains(
        x,
    ) by {
        crate::library::lemma_concat_contains(g.imports, spec_corpus_imports(corpus), x);
    }
    assert forall|x: Seq<char>| spec_corpus_imports(corpus).contains(x) implies sight.contains(
        x,
    ) by {
        crate::library::lemma_concat_contains(g.imports, spec_corpus_imports(corpus), x);
    }
    lemma_resolve_ends(g, none, corpus, sight, sight.len());
}

/// More rounds than needed change nothing: where some number of rounds
/// gives a generation, every greater number gives the same.
pub proof fn law_resolve_needs_no_more_rounds(
    g: GenerationView,
    resolved: Seq<Seq<char>>,
    corpus: Seq<(Seq<char>, GenerationView)>,
    rounds: nat,
    more: nat,
)
    requires
        spec_resolve(g, resolved, corpus, rounds).is_some(),
        more >= rounds,
    ensures
        spec_resolve(g, resolved, corpus, more) == spec_resolve(g, resolved, corpus, rounds),
    decreases rounds,
{
    if g.imports.len() != 0 && rounds != 0 {
        law_resolve_needs_no_more_rounds(
            spec_round(g, resolved, spec_load_all(corpus, g.imports)),
            resolved + g.imports,
            corpus,
            (rounds - 1) as nat,
            (more - 1) as nat,
        );
    }
}

/// A resolved generation has no imports left, and resolving it again
/// gives the same generation.
pub proof fn law_resolve_is_idempotent(
    g: GenerationView,
    resolved: Seq<Seq<char>>,
    corpus: Seq<(Seq<char>, GenerationView)>,
    rounds: nat,
    again: nat,
)
    requires
        spec_resolve(g, resolved, corpus, rounds).is_some(),
    ensures
        spec_resolve(g, resolved, corpus, rounds).unwrap().imports.len() == 0,
        spec_resolve(
            spec_resolve(g, resolved, corpus, rounds).unwrap(),
            Seq::empty(),
            corpus,
            again,
        ) == spec_resolve(g, resolved, corpus, rounds),
    decreases rounds,
{
    if g.imports.len() != 0 && rounds != 0 {
        law_resolve_is_idempotent(
            spec_round(g, resolved, spec_load_all(corpus, g.imports)),
            resolved + g.imports,
            corpus,
            (rounds - 1) as nat,
            again,
        );
    }
}

} // verus!
