//! The order in which the managers of a generation are attended to.

use vstd::prelude::*;
use crate::generation::model::model_names;
use crate::generation::{append_strings, clone_strings, contains_string, Generation, ManagerOrder};
use crate::library::strs;

verus! {

/// The values of `xs` that occur in `keep`, in order.
pub open spec fn kept(xs: Seq<Seq<char>>, keep: Seq<Seq<char>>) -> Seq<Seq<char>>
    decreases xs.len(),
{
    if xs.len() == 0 {
        Seq::empty()
    } else if keep.contains(xs.last()) {
        kept(xs.drop_last(), keep).push(xs.last())
    } else {
        kept(xs.drop_last(), keep)
    }
}

/// The values of `xs` that occur neither in `a` nor in `b`, in order.
pub open spec fn unlisted(xs: Seq<Seq<char>>, a: Seq<Seq<char>>, b: Seq<Seq<char>>) -> Seq<
    Seq<char>,
>
    decreases xs.len(),
{
    if xs.len() == 0 {
        Seq::empty()
    } else if a.contains(xs.last()) || b.contains(xs.last()) {
        unlisted(xs.drop_last(), a, b)
    } else {
        unlisted(xs.drop_last(), a, b).push(xs.last())
    }
}

/// The names of `begin`, then the managers that neither `begin` nor `end`
/// lists, then the names of `end`.
pub open spec fn spec_listed_order(
    names: Seq<Seq<char>>,
    begin: Seq<Seq<char>>,
    end: Seq<Seq<char>>,
) -> Seq<Seq<char>> {
    begin + unlisted(names, begin, end) + end
}

/// The order of the managers `names` under the rules `begin` and `end`:
/// the listed order, without the names that are no manager.
pub open spec fn spec_order(
    names: Seq<Seq<char>>,
    begin: Seq<Seq<char>>,
    end: Seq<Seq<char>>,
) -> Seq<Seq<char>> {
    kept(spec_listed_order(names, begin, end), names)
}

/// The order of the managers `names` with or without rules.
pub open spec fn spec_get_order(names: Seq<Seq<char>>, rules: Option<&ManagerOrder>) -> Seq<
    Seq<char>,
> {
    match rules {
        Some(r) => spec_order(names, strs(r.begin@), strs(r.end@)),
        None => names,
    }
}

/// Every value that `kept` keeps occurs in `keep`.
pub proof fn lemma_kept_within(xs: Seq<Seq<char>>, keep: Seq<Seq<char>>)
    ensures
        forall|i: int| 0 <= i < kept(xs, keep).len() ==> keep.contains(#[trigger] kept(xs, keep)[i]),
    decreases xs.len(),
{
    if xs.len() > 0 {
        lemma_kept_within(xs.drop_last(), keep);
        let prev = kept(xs.drop_last(), keep);
        assert forall|i: int| 0 <= i < kept(xs, keep).len() implies keep.contains(
            #[trigger] kept(xs, keep)[i],
        ) by {
            if i < prev.len() {
                assert(kept(xs, keep)[i] == prev[i]);
            }
        }
    }
}

/// The values of `xs` that `keep` holds, in order.
pub fn keep_listed(xs: &Vec<String>, keep: &Vec<String>) -> (out: Vec<String>)
    ensures
        strs(out@) == kept(strs(xs@), strs(keep@)),
{
    let mut out: Vec<String> = Vec::new();
    let mut i: usize = 0;
    assert(strs(out@) =~= kept(strs(xs@).take(0), strs(keep@)));
    while i < xs.len()
        invariant
            0 <= i <= xs.len(),
            strs(out@) == kept(strs(xs@).take(i as int), strs(keep@)),
        decreases xs.len() - i,
    {
        let ghost before = out@;
        proof {
            crate::library::lemma_strs_take_push(xs@, i as int);
        }
        if contains_string(keep, xs[i].as_str()) {
            out.push(xs[i].clone());
            assert(strs(out@) =~= strs(before).push(xs@[i as int]@));
        }
        i += 1;
    }
    proof {
        crate::library::lemma_strs_take_push_all(xs@);
    }
    out
}

/// The order that the rules list for the managers of the generation: the
/// names that the rules put first, the managers that the rules do not name,
/// the names that the rules put last. Names that are no manager, and names
/// that the rules repeat, are still in it.
pub fn listed_order(gen: &Generation, r: &ManagerOrder) -> (listed: Vec<String>)
    ensures
        strs(listed@) == spec_listed_order(
            model_names(gen@.managers),
            strs(r.begin@),
            strs(r.end@),
        ),
{
    let names = gen.manager_names();
    let mut listed = clone_strings(&r.begin);
    let ghost start = strs(listed@);
    let mut i: usize = 0;
    assert(strs(listed@) =~= start + unlisted(strs(names@).take(0), strs(r.begin@), strs(r.end@)));
    while i < names.len()
        invariant
            0 <= i <= names.len(),
            start == strs(r.begin@),
            strs(listed@) == start + unlisted(
                strs(names@).take(i as int),
                strs(r.begin@),
                strs(r.end@),
            ),
        decreases names.len() - i,
    {
        let ghost before = listed@;
        proof {
            crate::library::lemma_strs_take_push(names@, i as int);
        }
        let in_begin = contains_string(&r.begin, names[i].as_str());
        let in_end = contains_string(&r.end, names[i].as_str());
        if !in_begin && !in_end {
            listed.push(names[i].clone());
            assert(strs(listed@) =~= strs(before).push(names@[i as int]@));
            assert(strs(listed@) =~= start + unlisted(
                strs(names@).take(i + 1),
                strs(r.begin@),
                strs(r.end@),
            ));
        }
        i += 1;
    }
    proof {
        crate::library::lemma_strs_take_push_all(names@);
    }
    append_strings(&mut listed, &r.end);
    listed
}

/// How often the value stands in the list.
pub open spec fn spec_count(xs: Seq<Seq<char>>, v: Seq<char>) -> nat
    decreases xs.len(),
{
    if xs.len() == 0 {
        0
    } else {
        spec_count(xs.drop_last(), v) + if xs.last() == v {
            1nat
        } else {
            0nat
        }
    }
}

/// The values that stand in `all` more than once, each with the number of
/// its places there, in the order in which `prefix` first names them.
pub open spec fn spec_repeated(prefix: Seq<Seq<char>>, all: Seq<Seq<char>>) -> Seq<
    (Seq<char>, nat),
>
    decreases prefix.len(),
{
    if prefix.len() == 0 {
        Seq::empty()
    } else {
        let x = prefix.last();
        let before = spec_repeated(prefix.drop_last(), all);
        if prefix.drop_last().contains(x) || spec_count(all, x) <= 1 {
            before
        } else {
            before.push((x, spec_count(all, x)))
        }
    }
}

/// The contents of a list of names with numbers.
pub open spec fn counted(v: Seq<(String, usize)>) -> Seq<(Seq<char>, nat)> {
    v.map_values(|e: (String, usize)| (e.0@, e.1 as nat))
}

/// How often the value stands in the list.
pub fn count_of(xs: &Vec<String>, value: &str) -> (n: usize)
    ensures
        n == spec_count(strs(xs@), value@),
        n <= xs@.len(),
{
    let mut n: usize = 0;
    let mut i: usize = 0;
    assert(strs(xs@).take(0) =~= Seq::<Seq<char>>::empty());
    while i < xs.len()
        invariant
            0 <= i <= xs.len(),
            n <= i,
            n == spec_count(strs(xs@).take(i as int), value@),
        decreases xs.len() - i,
    {
        proof {
            crate::library::lemma_strs_take_push(xs@, i as int);
        }
        if xs[i].as_str().eq(value) {
            n += 1;
        }
        i += 1;
    }
    proof {
        crate::library::lemma_strs_take_push_all(xs@);
    }
    n
}

/// The names that the rules bring into the order more than once, each
/// with the number of its places in the listed order. Such rules are
/// accepted; the caller may warn of them.
pub fn order_duplicates(gen: &Generation, rules: &ManagerOrder) -> (repeated: Vec<(String, usize)>)
    ensures
        counted(repeated@) == spec_repeated(
            spec_listed_order(model_names(gen@.managers), strs(rules.begin@), strs(rules.end@)),
            spec_listed_order(model_names(gen@.managers), strs(rules.begin@), strs(rules.end@)),
        ),
{
    let listed = listed_order(gen, rules);
    let mut seen = vstd::hash_set::StringHashSet::new();
    let mut repeated: Vec<(String, usize)> = Vec::new();
    let mut i: usize = 0;
    assert(counted(repeated@) =~= spec_repeated(strs(listed@).take(0), strs(listed@)));
    while i < listed.len()
        invariant
            0 <= i <= listed.len(),
            forall|v: Seq<char>|
                seen@.contains(v) <==> #[trigger] strs(listed@).take(i as int).contains(v),
            counted(repeated@) == spec_repeated(strs(listed@).take(i as int), strs(listed@)),
        decreases listed.len() - i,
    {
        let ghost before = repeated@;
        let ghost seen_before = seen@;
        proof {
            crate::library::lemma_strs_take_push(listed@, i as int);
        }
        let fresh = seen.insert(listed[i].clone());
        if fresh {
            let n = count_of(&listed, listed[i].as_str());
            if n > 1 {
                repeated.push((listed[i].clone(), n));
                assert(counted(repeated@) =~= counted(before).push(
                    (listed@[i as int]@, n as nat),
                ));
            }
        }
        proof {
            assert forall|v: Seq<char>|
                seen@.contains(v) <==> #[trigger] strs(listed@).take(i + 1).contains(v) by {
                crate::library::lemma_push_contains(
                    strs(listed@).take(i as int),
                    listed@[i as int]@,
                    v,
                );
                assert(seen_before.contains(v) <==> strs(listed@).take(i as int).contains(v));
            }
        }
        i += 1;
    }
    proof {
        crate::library::lemma_strs_take_push_all(listed@);
    }
    repeated
}

/// The managers in the order in which they are attended to: those that the
/// rules put first, then those that the rules do not name, as the
/// generation declares them, then those that the rules put last. A name of
/// the rules that is no manager of the generation is left out. Without
/// rules the managers come as the generation declares them.
pub fn get_order(gen: &Generation, rules: Option<&ManagerOrder>) -> (order: Vec<String>)
    ensures
        strs(order@) == spec_get_order(model_names(gen@.managers), rules),
        forall|i: int| 0 <= i < order@.len() ==> gen@.declares(#[trigger] strs(order@)[i]),
{
    let names = gen.manager_names();
    match rules {
        None => {
            assert forall|i: int| 0 <= i < names@.len() implies gen@.declares(
                #[trigger] strs(names@)[i],
            ) by {
                assert(model_names(gen@.managers)[i] == strs(names@)[i]);
            }
            names
        },
        Some(r) => {
            let listed = listed_order(gen, r);
            let order = keep_listed(&listed, &names);
            proof {
                lemma_kept_within(strs(listed@), strs(names@));
            }
            order
        },
    }
}

} // verus!
