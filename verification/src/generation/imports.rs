//! Resolving the imports of a generation, round by round.

use vstd::prelude::*;
use crate::generation::import_order::{
    imports_from, lemma_concat_map_contains, lemma_extend_all, lemma_still_pending_contains,
};
use crate::generation::model::GenerationView;
use crate::generation::{append_strings, clone_strings, contains_string, Generation};
use crate::library::{lemma_concat_contains, strs};

verus! {

/// The contents of a list of generations.
pub open spec fn generations(v: Seq<Generation>) -> Seq<GenerationView> {
    v.map_values(|g: Generation| g@)
}

/// The contents of a list of named generations.
pub open spec fn corpus_view(v: Seq<(String, Generation)>) -> Seq<(Seq<char>, GenerationView)> {
    v.map_values(|e: (String, Generation)| (e.0@, e.1@))
}

/// The generation after it took over each of `loaded`, in order.
pub open spec fn extend_all(g: GenerationView, loaded: Seq<GenerationView>) -> GenerationView
    decreases loaded.len(),
{
    if loaded.len() == 0 {
        g
    } else {
        extend_all(g, loaded.drop_last()).extend(loaded.last())
    }
}

/// The imports that a round leaves open: those of `after` that are not
/// empty and are not among the resolved ones.
pub open spec fn still_pending(after: Seq<Seq<char>>, resolved: Seq<Seq<char>>) -> Seq<Seq<char>>
    decreases after.len(),
{
    if after.len() == 0 {
        Seq::empty()
    } else if resolved.contains(after.last()) || after.last().len() == 0 {
        still_pending(after.drop_last(), resolved)
    } else {
        still_pending(after.drop_last(), resolved).push(after.last())
    }
}

/// One round: the generation takes over what its imports declare (`loaded`
/// holds them, in the order of the imports), and keeps as imports only the
/// names that came in with them and were resolved neither in an earlier
/// round (`resolved`) nor in this one.
pub open spec fn spec_round(
    g: GenerationView,
    resolved: Seq<Seq<char>>,
    loaded: Seq<GenerationView>,
) -> GenerationView {
    let merged = extend_all(g, loaded);
    GenerationView {
        imports: still_pending(merged.imports, resolved + g.imports),
        managers: merged.managers,
    }
}

/// The generation filed under the name: the first of that name, or the
/// empty one where there is none.
pub open spec fn spec_load(corpus: Seq<(Seq<char>, GenerationView)>, name: Seq<char>) -> GenerationView {
    match corpus.map_values(|e: (Seq<char>, GenerationView)| e.0).index_of_first(name) {
        Some(i) => corpus[i].1,
        None => GenerationView::empty(),
    }
}

/// The generations filed under the names, in order.
pub open spec fn spec_load_all(corpus: Seq<(Seq<char>, GenerationView)>, names: Seq<Seq<char>>) -> Seq<
    GenerationView,
> {
    names.map_values(|n: Seq<char>| spec_load(corpus, n))
}

/// The generation with all its imports resolved against the corpus, where
/// that takes at most `rounds` rounds. `resolved` holds the names that
/// earlier rounds resolved; each round adds the imports that it resolves.
pub open spec fn spec_resolve(
    g: GenerationView,
    resolved: Seq<Seq<char>>,
    corpus: Seq<(Seq<char>, GenerationView)>,
    rounds: nat,
) -> Option<GenerationView>
    decreases rounds,
{
    if g.imports.len() == 0 {
        Some(g)
    } else if rounds == 0 {
        None
    } else {
        spec_resolve(
            spec_round(g, resolved, spec_load_all(corpus, g.imports)),
            resolved + g.imports,
            corpus,
            (rounds - 1) as nat,
        )
    }
}

/// The import names of all generations of the corpus, one list after the
/// other.
pub open spec fn spec_corpus_imports(corpus: Seq<(Seq<char>, GenerationView)>) -> Seq<Seq<char>>
    decreases corpus.len(),
{
    if corpus.len() == 0 {
        Seq::empty()
    } else {
        spec_corpus_imports(corpus.drop_last()) + corpus.last().1.imports
    }
}

/// Every import name in sight: those of the generation and those of the
/// generations of the corpus. No resolution meets another name, so it
/// ends within as many rounds as this list is long.
pub open spec fn spec_all_imports(g: GenerationView, corpus: Seq<(Seq<char>, GenerationView)>) -> Seq<
    Seq<char>,
> {
    g.imports + spec_corpus_imports(corpus)
}

/// The imports of each generation of the corpus are among the corpus's.
pub proof fn lemma_corpus_imports(corpus: Seq<(Seq<char>, GenerationView)>, i: int, x: Seq<char>)
    requires
        0 <= i < corpus.len(),
        corpus[i].1.imports.contains(x),
    ensures
        spec_corpus_imports(corpus).contains(x),
    decreases corpus.len(),
{
    lemma_concat_contains(spec_corpus_imports(corpus.drop_last()), corpus.last().1.imports, x);
    if i < corpus.len() - 1 {
        lemma_corpus_imports(corpus.drop_last(), i, x);
    }
}

/// A round makes progress. Say the open imports are all in sight and none
/// of them is resolved yet. Then the same holds after the round, and fewer
/// names in sight are left unresolved.
pub proof fn lemma_round_progress(
    g: GenerationView,
    resolved: Seq<Seq<char>>,
    corpus: Seq<(Seq<char>, GenerationView)>,
    sight: Seq<Seq<char>>,
)
    requires
        g.imports.len() > 0,
        forall|x: Seq<char>| g.imports.contains(x) ==> sight.contains(x) && !resolved.contains(x),
        forall|x: Seq<char>| spec_corpus_imports(corpus).contains(x) ==> sight.contains(x),
    ensures
        forall|x: Seq<char>|
            spec_round(g, resolved, spec_load_all(corpus, g.imports)).imports.contains(x)
                ==> sight.contains(x) && !(resolved + g.imports).contains(x),
        sight.to_set().difference((resolved + g.imports).to_set()).len() < sight.to_set().difference(
            resolved.to_set(),
        ).len(),
{
    let next = spec_round(g, resolved, spec_load_all(corpus, g.imports));
    let merged = extend_all(g, spec_load_all(corpus, g.imports));
    let done = resolved + g.imports;
    lemma_extend_all(g, corpus, g.imports, Seq::empty());
    let brought = crate::generation::import_order::concat_map(g.imports, imports_from(corpus));
    assert forall|x: Seq<char>| next.imports.contains(x) implies sight.contains(x)
        && !done.contains(x) by {
        lemma_still_pending_contains(merged.imports, done, x);
        lemma_concat_contains(g.imports, brought, x);
        if brought.contains(x) {
            lemma_concat_map_contains(g.imports, imports_from(corpus), x);
            let i = choose|i: int|
                0 <= i < g.imports.len() && imports_from(corpus)(g.imports[i]).contains(x);
            let names = corpus.map_values(|e: (Seq<char>, GenerationView)| e.0);
            names.index_of_first_ensures(g.imports[i]);
            match names.index_of_first(g.imports[i]) {
                Some(k) => {
                    lemma_corpus_imports(corpus, k, x);
                },
                None => {},
            }
        }
    }
    let before = sight.to_set().difference(resolved.to_set());
    let after = sight.to_set().difference(done.to_set());
    let first = g.imports[0];
    assert(g.imports.contains(first));
    assert(done.contains(first)) by {
        lemma_concat_contains(resolved, g.imports, first);
    }
    assert(before.contains(first));
    assert(!after.contains(first));
    vstd::seq_lib::seq_to_set_is_finite(sight);
    assert(before.finite());
    assert forall|x: Seq<char>| after.insert(first).contains(x) implies before.contains(x) by {
        if resolved.contains(x) {
            lemma_concat_contains(resolved, g.imports, x);
        }
    }
    vstd::set_lib::lemma_len_subset(after.insert(first), before);
    vstd::set_lib::lemma_len_subset(after, before);
    assert(after.insert(first).len() == after.len() + 1);
}

/// The imports that a round leaves open.
fn pending_after(after: &Vec<String>, resolved: &Vec<String>) -> (pending: Vec<String>)
    ensures
        strs(pending@) == still_pending(strs(after@), strs(resolved@)),
{
    let mut pending: Vec<String> = Vec::new();
    let mut i: usize = 0;
    assert(strs(pending@) =~= still_pending(strs(after@).take(0), strs(resolved@)));
    while i < after.len()
        invariant
            0 <= i <= after.len(),
            strs(pending@) == still_pending(strs(after@).take(i as int), strs(resolved@)),
        decreases after.len() - i,
    {
        let ghost before = pending@;
        proof {
            crate::library::lemma_strs_take_push(after@, i as int);
        }
        let done = contains_string(resolved, after[i].as_str());
        if !done && !after[i].as_str().is_empty() {
            pending.push(after[i].clone());
            assert(strs(pending@) =~= strs(before).push(after@[i as int]@));
        }
        i += 1;
    }
    proof {
        crate::library::lemma_strs_take_push_all(after@);
    }
    pending
}

/// The generation filed under the name in the corpus, if there is one.
fn find_import<'a>(corpus: &'a Vec<(String, Generation)>, name: &str) -> (found: Option<
    &'a Generation,
>)
    ensures
        match found {
            Some(g) => g@ == spec_load(corpus_view(corpus@), name@),
            None => spec_load(corpus_view(corpus@), name@) == GenerationView::empty(),
        },
{
    let ghost names = corpus_view(corpus@).map_values(|e: (Seq<char>, GenerationView)| e.0);
    let mut i: usize = 0;
    while i < corpus.len()
        invariant
            0 <= i <= corpus.len(),
            names == corpus_view(corpus@).map_values(|e: (Seq<char>, GenerationView)| e.0),
            forall|j: int| 0 <= j < i ==> names[j] != name@,
        decreases corpus.len() - i,
    {
        if corpus[i].0.as_str().eq(name) {
            proof {
                assert(names[i as int] == name@);
                names.index_of_first_ensures(name@);
            }
            return Some(&corpus[i].1);
        }
        i += 1;
    }
    proof {
        names.index_of_first_ensures(name@);
    }
    None
}

impl Generation {
    /// One round of resolving imports. `loaded` holds the generation of
    /// each import of this generation, in the order of the imports, and
    /// `resolved` the names that earlier rounds resolved. This generation
    /// takes the loaded ones over, one after the other, and its imports
    /// join the resolved names. Of the import names it then holds, those
    /// stay that are not empty and not resolved. No name is so resolved in
    /// two rounds, and a circle of imports comes to an end.
    pub fn absorb_imports(&mut self, resolved: &mut Vec<String>, loaded: &Vec<Generation>)
        ensures
            final(self)@ == spec_round(old(self)@, strs(old(resolved)@), generations(loaded@)),
            strs(final(resolved)@) == strs(old(resolved)@) + old(self)@.imports,
            old(self).wf() ==> final(self).wf(),
    {
        let pending = clone_strings(&self.imports);
        let mut i: usize = 0;
        assert(generations(loaded@).take(0) =~= Seq::empty());
        while i < loaded.len()
            invariant
                0 <= i <= loaded.len(),
                strs(pending@) == old(self)@.imports,
                *resolved == *old(resolved),
                old(self).wf() ==> self.wf(),
                self@ == extend_all(old(self)@, generations(loaded@).take(i as int)),
            decreases loaded.len() - i,
        {
            self.extend_from(&loaded[i]);
            proof {
                let next = generations(loaded@).take(i + 1);
                assert(next.drop_last() =~= generations(loaded@).take(i as int));
                assert(next.last() == loaded@[i as int]@);
            }
            i += 1;
        }
        assert(generations(loaded@).take(loaded@.len() as int) =~= generations(loaded@));
        append_strings(resolved, &pending);
        self.imports = pending_after(&self.imports, resolved);
    }

    /// Resolves the imports of this generation against the named
    /// generations of `corpus`, in rounds, until none is left; a name that
    /// the corpus does not hold stands for an empty generation. This always
    /// comes to an end, also where imports name each other in a circle: it
    /// takes no more rounds than there are import names in sight.
    pub fn resolve(self, corpus: &Vec<(String, Generation)>) -> (resolved: Generation)
        ensures
            spec_resolve(
                self@,
                Seq::empty(),
                corpus_view(corpus@),
                spec_all_imports(self@, corpus_view(corpus@)).len(),
            ) == Some(resolved@),
            resolved@.imports.len() == 0,
            self.wf() ==> resolved.wf(),
    {
        let ghost sight = spec_all_imports(self@, corpus_view(corpus@));
        let ghost mut left: nat = sight.len();
        let mut current = self;
        let mut done: Vec<String> = Vec::new();
        proof {
            sight.lemma_cardinality_of_set();
            assert(strs(done@) =~= Seq::<Seq<char>>::empty());
            assert(sight.to_set().difference(strs(done@).to_set()) =~= sight.to_set());
            assert forall|x: Seq<char>| current@.imports.contains(x) implies sight.contains(x) by {
                lemma_concat_contains(self@.imports, spec_corpus_imports(corpus_view(corpus@)), x);
            }
            assert forall|x: Seq<char>|
                spec_corpus_imports(corpus_view(corpus@)).contains(x) implies sight.contains(x) by {
                lemma_concat_contains(self@.imports, spec_corpus_imports(corpus_view(corpus@)), x);
            }
        }
        while current.imports.len() > 0
            invariant
                sight == spec_all_imports(self@, corpus_view(corpus@)),
                forall|x: Seq<char>|
                    current@.imports.contains(x) ==> sight.contains(x) && !strs(done@).contains(x),
                forall|x: Seq<char>|
                    spec_corpus_imports(corpus_view(corpus@)).contains(x) ==> sight.contains(x),
                self.wf() ==> current.wf(),
                left >= sight.to_set().difference(strs(done@).to_set()).len(),
                spec_resolve(current@, strs(done@), corpus_view(corpus@), left) == spec_resolve(
                    self@,
                    Seq::empty(),
                    corpus_view(corpus@),
                    sight.len(),
                ),
            decreases left,
        {
            let ghost before = current@;
            let ghost resolved_before = strs(done@);
            let mut loaded: Vec<Generation> = Vec::new();
            let mut i: usize = 0;
            while i < current.imports.len()
                invariant
                    0 <= i <= current.imports.len(),
                    self.wf() ==> current.wf(),
                    current@ == before,
                    loaded@.len() == i,
                    forall|j: int|
                        0 <= j < i ==> (#[trigger] loaded@[j])@ == spec_load(
                            corpus_view(corpus@),
                            before.imports[j],
                        ),
                decreases current.imports.len() - i,
            {
                let g = match find_import(corpus, current.imports[i].as_str()) {
                    Some(found) => found.duplicate(),
                    None => Generation::default(),
                };
                loaded.push(g);
                i += 1;
            }
            assert(generations(loaded@) =~= spec_load_all(corpus_view(corpus@), before.imports));
            current.absorb_imports(&mut done, &loaded);
            proof {
                lemma_round_progress(before, resolved_before, corpus_view(corpus@), sight);
                let next = spec_round(
                    before,
                    resolved_before,
                    spec_load_all(corpus_view(corpus@), before.imports),
                );
                assert(current@ == next);
                assert(strs(done@) == resolved_before + before.imports);
                assert forall|x: Seq<char>| current@.imports.contains(x) implies sight.contains(x)
                    && !strs(done@).contains(x) by {
                    assert(next.imports.contains(x));
                }
                left = (left - 1) as nat;
            }
        }
        current
    }
}

} // verus!
