//! The diff engine: what has to be added and removed to get from one list
//! of items to another.

use vstd::prelude::*;
use vstd::hash_set::StringHashSet;
use crate::generation::model::{model_names, GenerationView};
use crate::generation::Generation;
use crate::text::{is_blank, spec_is_blank};

verus! {

#[derive(Clone, Copy, Debug, PartialEq, Eq, Structural)]
pub enum HistoryMode {
    Remove,
    Add,
}

/// One entry of a diff: an item and whether it is added or removed.
#[derive(Debug)]
pub struct History {
    pub mode: HistoryMode,
    pub line: String,
}

impl View for History {
    type V = (HistoryMode, Seq<char>);

    open spec fn view(&self) -> (HistoryMode, Seq<char>) {
        (self.mode, self.line@)
    }
}

/// The contents of a list of strings.
pub open spec fn strs(v: Seq<String>) -> Seq<Seq<char>> {
    v.map_values(|s: String| s@)
}

/// The contents of a list of diff entries.
pub open spec fn entries(v: Seq<History>) -> Seq<(HistoryMode, Seq<char>)> {
    v.map_values(|h: History| h@)
}

/// The values of `xs` without repetitions, each at its first place.
pub open spec fn dedup(xs: Seq<Seq<char>>) -> Seq<Seq<char>>
    decreases xs.len(),
{
    if xs.len() == 0 {
        Seq::empty()
    } else if xs.drop_last().contains(xs.last()) {
        dedup(xs.drop_last())
    } else {
        dedup(xs.drop_last()).push(xs.last())
    }
}

/// The values of `xs` that are not blank and do not occur in `other`, without
/// repetitions, each at its first place.
pub open spec fn only_in(xs: Seq<Seq<char>>, other: Seq<Seq<char>>) -> Seq<Seq<char>>
    decreases xs.len(),
{
    if xs.len() == 0 {
        Seq::empty()
    } else {
        let x = xs.last();
        let rest = only_in(xs.drop_last(), other);
        if spec_is_blank(x) || other.contains(x) || xs.drop_last().contains(x) {
            rest
        } else {
            rest.push(x)
        }
    }
}

/// Each line paired with the given mode.
pub open spec fn tagged(mode: HistoryMode, lines: Seq<Seq<char>>) -> Seq<(HistoryMode, Seq<char>)> {
    lines.map_values(|l: Seq<char>| (mode, l))
}

/// The diff from `old` to `new`: a removal for each value only in `old`,
/// then an addition for each value only in `new`.
pub open spec fn spec_history(old: Seq<Seq<char>>, new: Seq<Seq<char>>) -> Seq<
    (HistoryMode, Seq<char>),
> {
    tagged(HistoryMode::Remove, only_in(old, new)) + tagged(HistoryMode::Add, only_in(new, old))
}

/// The set reached from `start` by adding every addition of `h` and
/// removing every removal of it.
pub open spec fn apply_history(start: Set<Seq<char>>, h: Seq<(HistoryMode, Seq<char>)>) -> Set<
    Seq<char>,
> {
    Set::new(
        |v: Seq<char>|
            (start.contains(v) || h.contains((HistoryMode::Add, v))) && !h.contains(
                (HistoryMode::Remove, v),
            ),
    )
}

pub open spec fn flip(mode: HistoryMode) -> HistoryMode {
    match mode {
        HistoryMode::Remove => HistoryMode::Add,
        HistoryMode::Add => HistoryMode::Remove,
    }
}

/// The diff with additions and removals exchanged.
pub open spec fn mirror(h: Seq<(HistoryMode, Seq<char>)>) -> Seq<(HistoryMode, Seq<char>)> {
    h.map_values(|e: (HistoryMode, Seq<char>)| (flip(e.0), e.1))
}

/// `dedup` keeps exactly the values of the list, each once.
pub proof fn lemma_dedup(xs: Seq<Seq<char>>)
    ensures
        dedup(xs).no_duplicates(),
        forall|v: Seq<char>| #[trigger] dedup(xs).contains(v) <==> xs.contains(v),
    decreases xs.len(),
{
    if xs.len() > 0 {
        let init = xs.drop_last();
        let x = xs.last();
        lemma_dedup(init);
        if !init.contains(x) {
            assert(dedup(init).contains(x) <==> init.contains(x));
            lemma_push_no_duplicates(dedup(init), x);
        }
        assert forall|v: Seq<char>| #[trigger] dedup(xs).contains(v) <==> xs.contains(v) by {
            assert(dedup(init).contains(v) <==> init.contains(v));
            if xs.contains(v) {
                let i = choose|i: int| 0 <= i < xs.len() && xs[i] == v;
                if i < xs.len() - 1 {
                    assert(init[i] == v);
                    assert(init.contains(v));
                }
                if !init.contains(x) {
                    lemma_push_contains(dedup(init), x, v);
                }
            }
            if dedup(xs).contains(v) {
                if !init.contains(x) {
                    lemma_push_contains(dedup(init), x, v);
                }
                if init.contains(v) {
                    let i = choose|i: int| 0 <= i < init.len() && init[i] == v;
                    assert(xs[i] == v);
                } else {
                    assert(xs[xs.len() - 1] == v);
                }
            }
        }
    }
}

/// Pushing a new value onto a list without repetitions leaves it without.
pub proof fn lemma_push_no_duplicates<A>(s: Seq<A>, x: A)
    requires
        s.no_duplicates(),
        !s.contains(x),
    ensures
        s.push(x).no_duplicates(),
{
    let t = s.push(x);
    assert forall|i: int, j: int| 0 <= i < t.len() && 0 <= j < t.len() && i != j implies t[i]
        != t[j] by {
        if i < s.len() {
            assert(s.contains(s[i]));
        }
        if j < s.len() {
            assert(s.contains(s[j]));
        }
    }
}

/// What a pushed list contains.
pub proof fn lemma_push_contains<A>(s: Seq<A>, x: A, v: A)
    ensures
        s.push(x).contains(v) <==> (s.contains(v) || v == x),
{
    if s.contains(v) {
        let i = choose|i: int| 0 <= i < s.len() && s[i] == v;
        assert(s.push(x)[i] == v);
    }
    if v == x {
        assert(s.push(x)[s.len() as int] == v);
    }
}

/// `only_in` holds exactly the values of `xs` that are not blank and not in
/// `other`, each once.
pub proof fn lemma_only_in(xs: Seq<Seq<char>>, other: Seq<Seq<char>>)
    ensures
        only_in(xs, other).no_duplicates(),
        forall|v: Seq<char>|
            #[trigger] only_in(xs, other).contains(v) <==> (xs.contains(v) && !other.contains(v)
                && !spec_is_blank(v)),
    decreases xs.len(),
{
    if xs.len() > 0 {
        let init = xs.drop_last();
        let x = xs.last();
        lemma_only_in(init, other);
        let keep = !(spec_is_blank(x) || other.contains(x) || init.contains(x));
        if keep {
            assert(only_in(init, other).contains(x) <==> (init.contains(x) && !other.contains(x)
                && !spec_is_blank(x)));
            lemma_push_no_duplicates(only_in(init, other), x);
        }
        assert forall|v: Seq<char>|
            #[trigger] only_in(xs, other).contains(v) <==> (xs.contains(v) && !other.contains(v)
                && !spec_is_blank(v)) by {
            assert(only_in(init, other).contains(v) <==> (init.contains(v) && !other.contains(v)
                && !spec_is_blank(v)));
            if keep {
                lemma_push_contains(only_in(init, other), x, v);
            }
            if xs.contains(v) {
                let i = choose|i: int| 0 <= i < xs.len() && xs[i] == v;
                if i < xs.len() - 1 {
                    assert(init[i] == v);
                    assert(init.contains(v));
                }
            }
            if init.contains(v) {
                let i = choose|i: int| 0 <= i < init.len() && init[i] == v;
                assert(xs[i] == v);
            }
            if v == x {
                assert(xs[xs.len() - 1] == v);
            }
        }
    }
}

/// What a tagged list contains.
pub proof fn lemma_tagged_contains(mode: HistoryMode, lines: Seq<Seq<char>>, e: (HistoryMode, Seq<char>))
    ensures
        tagged(mode, lines).contains(e) <==> (e.0 == mode && lines.contains(e.1)),
{
    let t = tagged(mode, lines);
    if t.contains(e) {
        let i = choose|i: int| 0 <= i < t.len() && t[i] == e;
        assert(lines[i] == e.1);
    }
    if e.0 == mode && lines.contains(e.1) {
        let i = choose|i: int| 0 <= i < lines.len() && lines[i] == e.1;
        assert(t[i] == e);
    }
}

/// A diff holds a removal for exactly the values that are not blank and only
/// in `old`, an addition for exactly those that are not blank and only in
/// `new`, and nothing twice.
pub proof fn lemma_history_contents(old: Seq<Seq<char>>, new: Seq<Seq<char>>)
    ensures
        spec_history(old, new).no_duplicates(),
        forall|v: Seq<char>|
            #[trigger] spec_history(old, new).contains((HistoryMode::Remove, v)) <==> (old.contains(v)
                && !new.contains(v) && !spec_is_blank(v)),
        forall|v: Seq<char>|
            #[trigger] spec_history(old, new).contains((HistoryMode::Add, v)) <==> (new.contains(v)
                && !old.contains(v) && !spec_is_blank(v)),
{
    let r = tagged(HistoryMode::Remove, only_in(old, new));
    let a = tagged(HistoryMode::Add, only_in(new, old));
    lemma_only_in(old, new);
    lemma_only_in(new, old);
    assert forall|v: Seq<char>|
        #[trigger] spec_history(old, new).contains((HistoryMode::Remove, v)) <==> (old.contains(v)
            && !new.contains(v) && !spec_is_blank(v)) by {
        assert(only_in(old, new).contains(v) <==> (old.contains(v) && !new.contains(v)
            && !spec_is_blank(v)));
        lemma_concat_contains(r, a, (HistoryMode::Remove, v));
        lemma_tagged_contains(HistoryMode::Remove, only_in(old, new), (HistoryMode::Remove, v));
        lemma_tagged_contains(HistoryMode::Add, only_in(new, old), (HistoryMode::Remove, v));
    }
    assert forall|v: Seq<char>|
        #[trigger] spec_history(old, new).contains((HistoryMode::Add, v)) <==> (new.contains(v)
            && !old.contains(v) && !spec_is_blank(v)) by {
        assert(only_in(new, old).contains(v) <==> (new.contains(v) && !old.contains(v)
            && !spec_is_blank(v)));
        lemma_concat_contains(r, a, (HistoryMode::Add, v));
        lemma_tagged_contains(HistoryMode::Remove, only_in(old, new), (HistoryMode::Add, v));
        lemma_tagged_contains(HistoryMode::Add, only_in(new, old), (HistoryMode::Add, v));
    }
    let h = spec_history(old, new);
    assert forall|i: int, j: int| 0 <= i < h.len() && 0 <= j < h.len() && i != j implies h[i]
        != h[j] by {
        if i < r.len() && j < r.len() {
            assert(only_in(old, new)[i] != only_in(old, new)[j]);
        } else if i >= r.len() && j >= r.len() {
            assert(only_in(new, old)[i - r.len()] != only_in(new, old)[j - r.len()]);
        } else {
            assert(h[i].0 != h[j].0);
        }
    }
}

/// What a concatenation contains.
pub proof fn lemma_concat_contains<A>(s: Seq<A>, t: Seq<A>, v: A)
    ensures
        (s + t).contains(v) <==> (s.contains(v) || t.contains(v)),
{
    if (s + t).contains(v) {
        let i = choose|i: int| 0 <= i < (s + t).len() && (s + t)[i] == v;
        if i < s.len() {
            assert(s[i] == v);
        } else {
            assert(t[i - s.len()] == v);
        }
    }
    if s.contains(v) {
        let i = choose|i: int| 0 <= i < s.len() && s[i] == v;
        assert((s + t)[i] == v);
    }
    if t.contains(v) {
        let i = choose|i: int| 0 <= i < t.len() && t[i] == v;
        assert((s + t)[i + s.len()] == v);
    }
}

/// Applying the diff from `a` to `b` to the values of `a` gives the values
/// of `b`, whenever the two lists hold the same blank values (blank values
/// never enter a diff).
pub proof fn law_history_converges(a: Seq<Seq<char>>, b: Seq<Seq<char>>)
    requires
        forall|v: Seq<char>| spec_is_blank(v) ==> (a.contains(v) <==> b.contains(v)),
    ensures
        apply_history(a.to_set(), spec_history(a, b)) == b.to_set(),
        apply_history(a.to_set(), spec_history(a, b)) == dedup(b).to_set(),
{
    lemma_history_contents(a, b);
    lemma_dedup(b);
    let got = apply_history(a.to_set(), spec_history(a, b));
    assert forall|v: Seq<char>| got.contains(v) <==> b.to_set().contains(v) by {
        assert(a.to_set().contains(v) <==> a.contains(v));
        assert(b.to_set().contains(v) <==> b.contains(v));
        assert(spec_history(a, b).contains((HistoryMode::Add, v)) <==> (b.contains(v)
            && !a.contains(v) && !spec_is_blank(v)));
        assert(spec_history(a, b).contains((HistoryMode::Remove, v)) <==> (a.contains(v)
            && !b.contains(v) && !spec_is_blank(v)));
    }
    assert forall|v: Seq<char>| dedup(b).to_set().contains(v) <==> b.to_set().contains(v) by {
        assert(dedup(b).contains(v) <==> b.contains(v));
    }
    assert(got =~= b.to_set());
    assert(dedup(b).to_set() =~= b.to_set());
}

/// The diff from a list to itself is empty.
pub proof fn law_history_of_equal_lists(a: Seq<Seq<char>>)
    ensures
        spec_history(a, a) == Seq::<(HistoryMode, Seq<char>)>::empty(),
{
    lemma_only_in(a, a);
    let o = only_in(a, a);
    if o.len() > 0 {
        assert(o.contains(o[0]));
        assert(only_in(a, a).contains(o[0]));
    }
    assert(spec_history(a, a) =~= Seq::<(HistoryMode, Seq<char>)>::empty());
}

/// The diff from `b` to `a` holds the entries of the diff from `a` to `b`
/// with additions and removals exchanged.
pub proof fn law_history_mirror(a: Seq<Seq<char>>, b: Seq<Seq<char>>)
    ensures
        spec_history(b, a).to_multiset() == mirror(spec_history(a, b)).to_multiset(),
        spec_history(b, a).len() == spec_history(a, b).len(),
{
    let x = tagged(HistoryMode::Remove, only_in(b, a));
    let y = tagged(HistoryMode::Add, only_in(a, b));
    assert(mirror(spec_history(a, b)) =~= y + x);
    vstd::seq_lib::lemma_seq_union_to_multiset_commutative(x, y);
    assert((x + y).to_multiset() =~= (y + x).to_multiset());
}

/// A prefix extended by one element.
pub proof fn lemma_strs_take_push(v: Seq<String>, i: int)
    requires
        0 <= i < v.len(),
    ensures
        strs(v).take(i + 1) == strs(v).take(i).push(v[i]@),
        strs(v).take(i + 1).drop_last() == strs(v).take(i),
        strs(v).take(i + 1).last() == v[i]@,
{
    assert(strs(v).take(i + 1) =~= strs(v).take(i).push(v[i]@));
    assert(strs(v).take(i + 1).drop_last() =~= strs(v).take(i));
}

/// The set of the strings of a list.
pub fn set_of(xs: &[String]) -> (s: StringHashSet)
    ensures
        forall|v: Seq<char>| s@.contains(v) <==> #[trigger] strs(xs@).contains(v),
{
    let mut s = StringHashSet::new();
    let mut i: usize = 0;
    while i < xs.len()
        invariant
            0 <= i <= xs.len(),
            forall|v: Seq<char>| s@.contains(v) <==> #[trigger] strs(xs@).take(i as int).contains(v),
        decreases xs.len() - i,
    {
        let ghost before = s@;
        s.insert(xs[i].clone());
        proof {
            lemma_strs_take_push(xs@, i as int);
            assert forall|v: Seq<char>|
                s@.contains(v) <==> #[trigger] strs(xs@).take(i + 1).contains(v) by {
                lemma_push_contains(strs(xs@).take(i as int), xs@[i as int]@, v);
                assert(before.contains(v) <==> strs(xs@).take(i as int).contains(v));
            }
        }
        i += 1;
    }
    proof {
        lemma_strs_take_push_all(xs@);
    }
    s
}

/// The whole list is its longest prefix.
pub proof fn lemma_strs_take_push_all(v: Seq<String>)
    ensures
        strs(v).take(v.len() as int) == strs(v),
{
    assert(strs(v).take(v.len() as int) =~= strs(v));
}

/// Appends to `out`, under the given mode, the values of `xs` that are not
/// blank and not in `other`, each once.
fn push_only_in(
    xs: &[String],
    other: &StringHashSet,
    other_list: Ghost<Seq<Seq<char>>>,
    mode: HistoryMode,
    out: &mut Vec<History>,
)
    requires
        forall|v: Seq<char>| other@.contains(v) <==> #[trigger] other_list@.contains(v),
    ensures
        entries(final(out)@) == entries(old(out)@) + tagged(
            mode,
            only_in(strs(xs@), other_list@),
        ),
{
    let ghost start = entries(out@);
    let mut seen = StringHashSet::new();
    let mut i: usize = 0;
    assert(entries(out@) =~= start + tagged(mode, only_in(strs(xs@).take(0), other_list@)));
    while i < xs.len()
        invariant
            0 <= i <= xs.len(),
            forall|v: Seq<char>| other@.contains(v) <==> #[trigger] other_list@.contains(v),
            forall|v: Seq<char>|
                seen@.contains(v) <==> #[trigger] strs(xs@).take(i as int).contains(v),
            entries(out@) == start + tagged(mode, only_in(strs(xs@).take(i as int), other_list@)),
        decreases xs.len() - i,
    {
        let item = &xs[i];
        let ghost seen_before = seen@;
        let ghost done = only_in(strs(xs@).take(i as int), other_list@);
        let ghost out_before = out@;
        proof {
            lemma_strs_take_push(xs@, i as int);
        }
        let blank = is_blank(item.as_str());
        let elsewhere = other.contains(item.as_str());
        let fresh = seen.insert(item.clone());
        if !blank && !elsewhere && fresh {
            out.push(History { mode, line: item.clone() });
            proof {
                assert(out@ =~= out_before.push(out@[out_before.len() as int]));
                assert(entries(out@) =~= entries(out_before).push((mode, item@)));
                assert(tagged(mode, done.push(item@)) =~= tagged(mode, done).push((mode, item@)));
                assert(entries(out@) =~= start + tagged(mode, done.push(item@)));
            }
        }
        proof {
            assert(fresh == !strs(xs@).take(i as int).contains(item@));
            assert(elsewhere == other_list@.contains(item@));
            assert forall|v: Seq<char>|
                seen@.contains(v) <==> #[trigger] strs(xs@).take(i + 1).contains(v) by {
                lemma_push_contains(strs(xs@).take(i as int), item@, v);
                assert(seen_before.contains(v) <==> strs(xs@).take(i as int).contains(v));
            }
        }
        i += 1;
    }
    proof {
        lemma_strs_take_push_all(xs@);
    }
}

/// The diff between two lists of items. Repetitions and blank values are
/// ignored; a value in both lists gives no entry. The removals come first,
/// then the additions, each in the order of first occurrence.
pub fn history(array_1: &[String], array_2: &[String]) -> (history_vec: Vec<History>)
    ensures
        entries(history_vec@) == spec_history(strs(array_1@), strs(array_2@)),
        entries(history_vec@).no_duplicates(),
        forall|v: Seq<char>|
            #[trigger] entries(history_vec@).contains((HistoryMode::Remove, v)) <==> (strs(
                array_1@,
            ).contains(v) && !strs(array_2@).contains(v) && !spec_is_blank(v)),
        forall|v: Seq<char>|
            #[trigger] entries(history_vec@).contains((HistoryMode::Add, v)) <==> (strs(
                array_2@,
            ).contains(v) && !strs(array_1@).contains(v) && !spec_is_blank(v)),
{
    let set_1 = set_of(array_1);
    let set_2 = set_of(array_2);
    let mut history_vec: Vec<History> = Vec::new();
    assert(entries(history_vec@) =~= Seq::empty());
    push_only_in(array_1, &set_2, Ghost(strs(array_2@)), HistoryMode::Remove, &mut history_vec);
    push_only_in(array_2, &set_1, Ghost(strs(array_1@)), HistoryMode::Add, &mut history_vec);
    proof {
        lemma_history_contents(strs(array_1@), strs(array_2@));
        assert(entries(history_vec@) =~= spec_history(strs(array_1@), strs(array_2@)));
    }
    history_vec
}

/// The list without its repetitions: each value stays at its first place.
pub fn remove_array_duplicates(dup_vec: &[String]) -> (unique: Vec<String>)
    ensures
        strs(unique@) == dedup(strs(dup_vec@)),
        strs(unique@).no_duplicates(),
        forall|v: Seq<char>| #[trigger] strs(unique@).contains(v) <==> strs(dup_vec@).contains(v),
{
    let mut seen = StringHashSet::new();
    let mut unique: Vec<String> = Vec::new();
    let mut i: usize = 0;
    assert(strs(unique@) =~= dedup(strs(dup_vec@).take(0)));
    while i < dup_vec.len()
        invariant
            0 <= i <= dup_vec.len(),
            forall|v: Seq<char>|
                seen@.contains(v) <==> #[trigger] strs(dup_vec@).take(i as int).contains(v),
            strs(unique@) == dedup(strs(dup_vec@).take(i as int)),
        decreases dup_vec.len() - i,
    {
        let item = &dup_vec[i];
        let ghost seen_before = seen@;
        let ghost before = unique@;
        proof {
            lemma_strs_take_push(dup_vec@, i as int);
        }
        if seen.insert(item.clone()) {
            unique.push(item.clone());
            assert(strs(unique@) =~= strs(before).push(item@));
        }
        proof {
            assert forall|v: Seq<char>|
                seen@.contains(v) <==> #[trigger] strs(dup_vec@).take(i + 1).contains(v) by {
                lemma_push_contains(strs(dup_vec@).take(i as int), item@, v);
                assert(seen_before.contains(v) <==> strs(dup_vec@).take(i as int).contains(v));
            }
        }
        i += 1;
    }
    proof {
        lemma_strs_take_push_all(dup_vec@);
        lemma_dedup(strs(dup_vec@));
    }
    unique
}

/// The contents of a list of diffs, one for each manager.
pub open spec fn manager_entries(v: Seq<(String, Vec<History>)>) -> Seq<
    (Seq<char>, Seq<(HistoryMode, Seq<char>)>),
> {
    v.map_values(|e: (String, Vec<History>)| (e.0@, entries(e.1@)))
}

/// The diff of one manager: from its items in the old generation to its
/// items in the new one. A generation that does not declare the manager
/// counts as one that declares it without items.
pub open spec fn spec_manager_history(old: GenerationView, new: GenerationView, name: Seq<char>) -> Seq<
    (HistoryMode, Seq<char>),
> {
    spec_history(old.items(name), new.items(name))
}

/// The diffs of the managers `names` of the new generation, in order.
pub open spec fn spec_history_current(
    old: GenerationView,
    new: GenerationView,
    names: Seq<Seq<char>>,
) -> Seq<(Seq<char>, Seq<(HistoryMode, Seq<char>)>)>
    decreases names.len(),
{
    if names.len() == 0 {
        Seq::empty()
    } else {
        spec_history_current(old, new, names.drop_last()).push(
            (names.last(), spec_manager_history(old, new, names.last())),
        )
    }
}

/// The diffs of those of the managers `names` that only the old generation
/// declares, in order.
pub open spec fn spec_history_dropped(
    old: GenerationView,
    new: GenerationView,
    names: Seq<Seq<char>>,
) -> Seq<(Seq<char>, Seq<(HistoryMode, Seq<char>)>)>
    decreases names.len(),
{
    if names.len() == 0 {
        Seq::empty()
    } else if new.declares(names.last()) {
        spec_history_dropped(old, new, names.drop_last())
    } else {
        spec_history_dropped(old, new, names.drop_last()).push(
            (names.last(), spec_manager_history(old, new, names.last())),
        )
    }
}

/// The diff between two generations: one list for each manager of the new
/// generation, then one for each manager that only the old one declares.
pub open spec fn spec_history_gen(old: GenerationView, new: GenerationView) -> Seq<
    (Seq<char>, Seq<(HistoryMode, Seq<char>)>),
> {
    spec_history_current(old, new, model_names(new.managers)) + spec_history_dropped(
        old,
        new,
        model_names(old.managers),
    )
}

/// The diff between two generations, manager by manager: for each manager
/// of either generation, the diff from its items in `gen_1` to its items in
/// `gen_2`. A manager that only `gen_2` declares so gets an addition of each
/// of its values that is not blank, once; one that only `gen_1` declares a
/// removal of each. The managers of `gen_2` come first, then those that only
/// `gen_1` declares, each group as its generation declares them.
pub fn history_gen(gen_1: &Generation, gen_2: &Generation) -> (history_map: Vec<
    (String, Vec<History>),
>)
    ensures
        manager_entries(history_map@) == spec_history_gen(gen_1@, gen_2@),
{
    let mut history_map: Vec<(String, Vec<History>)> = Vec::new();
    let ghost names_2 = model_names(gen_2@.managers);
    let ghost names_1 = model_names(gen_1@.managers);
    let mut i: usize = 0;
    assert(manager_entries(history_map@) =~= spec_history_current(
        gen_1@,
        gen_2@,
        names_2.take(0),
    ));
    while i < gen_2.managers.len()
        invariant
            0 <= i <= gen_2.managers.len(),
            names_2 == model_names(gen_2@.managers),
            manager_entries(history_map@) == spec_history_current(
                gen_1@,
                gen_2@,
                names_2.take(i as int),
            ),
        decreases gen_2.managers.len() - i,
    {
        let ghost before = history_map@;
        let name = &gen_2.managers[i].0;
        proof {
            assert(names_2.take(i + 1).drop_last() =~= names_2.take(i as int));
            assert(names_2.take(i + 1).last() == name@);
        }
        let items_2 = match gen_2.get(name.as_str()) {
            Some(found) => crate::generation::clone_strings(&found.items),
            None => Vec::new(),
        };
        assert(strs(items_2@) =~= gen_2@.items(name@));
        let items_1 = match gen_1.get(name.as_str()) {
            Some(found) => crate::generation::clone_strings(&found.items),
            None => Vec::new(),
        };
        assert(strs(items_1@) =~= gen_1@.items(name@));
        let diff = history(items_1.as_slice(), items_2.as_slice());
        history_map.push((name.clone(), diff));
        assert(manager_entries(history_map@) =~= manager_entries(before).push(
            (name@, spec_manager_history(gen_1@, gen_2@, name@)),
        ));
        i += 1;
    }
    assert(names_2.take(names_2.len() as int) =~= names_2);
    let ghost first = manager_entries(history_map@);
    let mut j: usize = 0;
    assert(manager_entries(history_map@) =~= first + spec_history_dropped(
        gen_1@,
        gen_2@,
        names_1.take(0),
    ));
    while j < gen_1.managers.len()
        invariant
            0 <= j <= gen_1.managers.len(),
            names_1 == model_names(gen_1@.managers),
            manager_entries(history_map@) == first + spec_history_dropped(
                gen_1@,
                gen_2@,
                names_1.take(j as int),
            ),
        decreases gen_1.managers.len() - j,
    {
        let ghost before = history_map@;
        let name = &gen_1.managers[j].0;
        proof {
            assert(names_1.take(j + 1).drop_last() =~= names_1.take(j as int));
            assert(names_1.take(j + 1).last() == name@);
        }
        if !gen_2.contains_manager(name.as_str()) {
            let items_1 = match gen_1.get(name.as_str()) {
                Some(found) => crate::generation::clone_strings(&found.items),
                None => Vec::new(),
            };
            assert(strs(items_1@) =~= gen_1@.items(name@));
            let none: Vec<String> = Vec::new();
            assert(strs(none@) =~= gen_2@.items(name@)) by {
                model_names(gen_2@.managers).index_of_first_ensures(name@);
            }
            history_map.push((name.clone(), history(items_1.as_slice(), none.as_slice())));
            assert(manager_entries(history_map@) =~= manager_entries(before).push(
                (name@, spec_manager_history(gen_1@, gen_2@, name@)),
            ));
            assert(manager_entries(history_map@) =~= first + spec_history_dropped(
                gen_1@,
                gen_2@,
                names_1.take(j + 1),
            ));
        }
        j += 1;
    }
    assert(names_1.take(names_1.len() as int) =~= names_1);
    history_map
}

/// The last part of a path: what follows its last `/`.
pub open spec fn spec_name_from_path(path: Seq<char>) -> Seq<char>
    decreases path.len(),
{
    if path.len() == 0 {
        path
    } else if path.last() == '/' {
        Seq::empty()
    } else {
        spec_name_from_path(path.drop_last()).push(path.last())
    }
}

/// The file name in a path: what follows the last `/`, or the whole path
/// where it holds none.
pub fn name_from_path(path: &str) -> (name: String)
    ensures
        name@ == spec_name_from_path(path@),
        !name@.contains('/'),
{
    let chars = crate::text::to_chars(path);
    let mut out: Vec<char> = Vec::new();
    let mut i: usize = 0;
    assert(chars@.take(0) =~= Seq::<char>::empty());
    while i < chars.len()
        invariant
            0 <= i <= chars.len(),
            out@ == spec_name_from_path(chars@.take(i as int)),
            forall|k: int| 0 <= k < out@.len() ==> out@[k] != '/',
        decreases chars.len() - i,
    {
        proof {
            assert(chars@.take(i + 1).drop_last() =~= chars@.take(i as int));
        }
        if chars[i] == '/' {
            out = Vec::new();
        } else {
            out.push(chars[i]);
        }
        i += 1;
    }
    assert(chars@.take(chars@.len() as int) =~= chars@);
    crate::text::from_chars(&out)
}

} // verus!
