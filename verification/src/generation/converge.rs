//! A build brings every manager to the items that the current generation
//! declares for it.

use vstd::prelude::*;
use crate::generation::model::{model_items, model_names, GenerationView};
use crate::generation::order::{kept, spec_count, spec_get_order, spec_listed_order, unlisted};
use crate::generation::plan::{
    spec_apply_diffs, spec_apply_full, spec_build, spec_current_steps, spec_dropped_steps,
    spec_manager_steps,
};
use crate::generation::ManagerOrder;
use crate::library::{lemma_concat_contains, lemma_only_in, lemma_push_contains, only_in, HistoryMode};
use crate::text::spec_is_blank;

verus! {

/// The items of a list that are not blank.
pub open spec fn item_set(items: Seq<Seq<char>>) -> Set<Seq<char>> {
    Set::new(|x: Seq<char>| items.contains(x) && !spec_is_blank(x))
}

/// What a manager holds after a step: a step for another manager changes
/// nothing, an addition brings its items, a removal takes its items away.
pub open spec fn step_effect(
    installed: Set<Seq<char>>,
    manager: Seq<char>,
    step: (Seq<char>, HistoryMode, Seq<Seq<char>>),
) -> Set<Seq<char>> {
    if step.0 != manager {
        installed
    } else {
        match step.1 {
            HistoryMode::Add => installed.union(item_set(step.2)),
            HistoryMode::Remove => installed.difference(item_set(step.2)),
        }
    }
}

/// What a manager holds after the steps of a plan, taken in order.
pub open spec fn plan_effect(
    installed: Set<Seq<char>>,
    manager: Seq<char>,
    plan: Seq<(Seq<char>, HistoryMode, Seq<Seq<char>>)>,
) -> Set<Seq<char>>
    decreases plan.len(),
{
    if plan.len() == 0 {
        installed
    } else {
        step_effect(plan_effect(installed, manager, plan.drop_last()), manager, plan.last())
    }
}

/// The steps of two plans, one after the other, have the effect of the
/// first plan followed by that of the second.
pub proof fn lemma_plan_effect_concat(
    installed: Set<Seq<char>>,
    manager: Seq<char>,
    first: Seq<(Seq<char>, HistoryMode, Seq<Seq<char>>)>,
    second: Seq<(Seq<char>, HistoryMode, Seq<Seq<char>>)>,
)
    ensures
        plan_effect(installed, manager, first + second) == plan_effect(
            plan_effect(installed, manager, first),
            manager,
            second,
        ),
    decreases second.len(),
{
    if second.len() == 0 {
        assert(first + second =~= first);
    } else {
        lemma_plan_effect_concat(installed, manager, first, second.drop_last());
        assert((first + second).drop_last() =~= first + second.drop_last());
        assert((first + second).last() == second.last());
    }
}

/// What `kept` holds.
pub proof fn lemma_kept_contains(xs: Seq<Seq<char>>, keep: Seq<Seq<char>>, v: Seq<char>)
    ensures
        kept(xs, keep).contains(v) <==> (xs.contains(v) && keep.contains(v)),
    decreases xs.len(),
{
    if xs.len() > 0 {
        let init = xs.drop_last();
        lemma_kept_contains(init, keep, v);
        assert(xs =~= init.push(xs.last()));
        lemma_push_contains(init, xs.last(), v);
        lemma_push_contains(kept(init, keep), xs.last(), v);
    }
}

/// What `unlisted` holds.
pub proof fn lemma_unlisted_contains(
    xs: Seq<Seq<char>>,
    a: Seq<Seq<char>>,
    b: Seq<Seq<char>>,
    v: Seq<char>,
)
    ensures
        unlisted(xs, a, b).contains(v) <==> (xs.contains(v) && !a.contains(v) && !b.contains(v)),
    decreases xs.len(),
{
    if xs.len() > 0 {
        let init = xs.drop_last();
        lemma_unlisted_contains(init, a, b, v);
        assert(xs =~= init.push(xs.last()));
        lemma_push_contains(init, xs.last(), v);
        lemma_push_contains(unlisted(init, a, b), xs.last(), v);
    }
}

/// The order of the managers holds exactly the managers, whatever the
/// rules say.
pub proof fn law_order_holds_the_managers(
    names: Seq<Seq<char>>,
    rules: Option<&ManagerOrder>,
    manager: Seq<char>,
)
    ensures
        spec_get_order(names, rules).contains(manager) <==> names.contains(manager),
{
    match rules {
        Some(r) => {
            let begin = crate::library::strs(r.begin@);
            let end = crate::library::strs(r.end@);
            let middle = unlisted(names, begin, end);
            lemma_kept_contains(spec_listed_order(names, begin, end), names, manager);
            lemma_unlisted_contains(names, begin, end, manager);
            lemma_concat_contains(begin, middle, manager);
            lemma_concat_contains(begin + middle, end, manager);
        },
        None => {},
    }
}

/// The steps for one manager bring that manager from the items of the
/// built generation, or from those of the current one, to the items of
/// the current one. They change no other manager.
pub proof fn lemma_manager_steps_effect(
    built: GenerationView,
    curr: GenerationView,
    name: Seq<char>,
    manager: Seq<char>,
    installed: Set<Seq<char>>,
)
    ensures
        name != manager ==> plan_effect(
            installed,
            manager,
            spec_manager_steps(built, curr, name),
        ) == installed,
        (name == manager && (installed == item_set(built.items(manager)) || installed == item_set(
            curr.items(manager),
        ))) ==> plan_effect(installed, manager, spec_manager_steps(built, curr, name)) == item_set(
            curr.items(manager),
        ),
{
    let plan = spec_manager_steps(built, curr, name);
    let c = curr.items(name);
    let none = Seq::<(Seq<char>, HistoryMode, Seq<Seq<char>>)>::empty();
    assert(plan_effect(installed, manager, none) == installed);
    match model_items(built.managers, name) {
        Some(b) => {
            let first = seq![(name, HistoryMode::Remove, only_in(b, c))];
            assert(plan.drop_last() =~= first);
            assert(first.drop_last() =~= none);
            assert(plan.last() == (name, HistoryMode::Add, only_in(c, b)));
            assert(first.last() == (name, HistoryMode::Remove, only_in(b, c)));
            let middle = plan_effect(installed, manager, first);
            assert(middle == step_effect(installed, manager, first.last()));
            let after = plan_effect(installed, manager, plan);
            assert(after == step_effect(middle, manager, plan.last()));
            if name == manager {
                lemma_only_in(b, c);
                lemma_only_in(c, b);
                assert(built.items(manager) == b);
                if installed == item_set(b) || installed == item_set(c) {
                    assert forall|x: Seq<char>| after.contains(x) <==> item_set(c).contains(x) by {
                        assert(only_in(b, c).contains(x) <==> (b.contains(x) && !c.contains(x)
                            && !spec_is_blank(x)));
                        assert(only_in(c, b).contains(x) <==> (c.contains(x) && !b.contains(x)
                            && !spec_is_blank(x)));
                    }
                    assert(after =~= item_set(c));
                }
            }
        },
        None => {
            assert(plan.drop_last() =~= none);
            assert(plan.last() == (name, HistoryMode::Add, c));
            assert(plan_effect(installed, manager, plan) == step_effect(
                installed,
                manager,
                plan.last(),
            ));
            if name == manager {
                assert(built.items(manager) =~= Seq::<Seq<char>>::empty());
                assert(item_set(built.items(manager)) =~= Set::<Seq<char>>::empty());
                let after = plan_effect(installed, manager, plan);
                if installed == item_set(built.items(manager)) || installed == item_set(c) {
                    assert(after =~= item_set(c));
                }
            }
        },
    }
}

/// The steps for the managers of the current generation bring each manager
/// of the order to its current items and leave the others as they were.
pub proof fn lemma_current_steps_effect(
    built: GenerationView,
    curr: GenerationView,
    order: Seq<Seq<char>>,
    manager: Seq<char>,
)
    ensures
        plan_effect(
            item_set(built.items(manager)),
            manager,
            spec_current_steps(built, curr, order),
        ) == if order.contains(manager) {
            item_set(curr.items(manager))
        } else {
            item_set(built.items(manager))
        },
    decreases order.len(),
{
    let start = item_set(built.items(manager));
    if order.len() > 0 {
        let init = order.drop_last();
        let name = order.last();
        lemma_current_steps_effect(built, curr, init, manager);
        let mid = plan_effect(start, manager, spec_current_steps(built, curr, init));
        lemma_plan_effect_concat(
            start,
            manager,
            spec_current_steps(built, curr, init),
            spec_manager_steps(built, curr, name),
        );
        lemma_manager_steps_effect(built, curr, name, manager, mid);
        assert(order =~= init.push(name));
        lemma_push_contains(init, name, manager);
    }
}

/// The steps for the managers that the current generation no longer
/// declares take from each of them, if it is in the order, the items that
/// the built generation declares for it, and leave the others as they were.
pub proof fn lemma_dropped_steps_effect(
    built: GenerationView,
    curr: GenerationView,
    order: Seq<Seq<char>>,
    manager: Seq<char>,
    installed: Set<Seq<char>>,
)
    ensures
        plan_effect(installed, manager, spec_dropped_steps(built, curr, order)) == if order.contains(
            manager,
        ) && !curr.declares(manager) {
            installed.difference(item_set(built.items(manager)))
        } else {
            installed
        },
    decreases order.len(),
{
    if order.len() > 0 {
        let init = order.drop_last();
        let name = order.last();
        lemma_dropped_steps_effect(built, curr, init, manager, installed);
        assert(order =~= init.push(name));
        lemma_push_contains(init, name, manager);
        let before = spec_dropped_steps(built, curr, init);
        if !curr.declares(name) {
            let plan = spec_dropped_steps(built, curr, order);
            assert(plan.drop_last() =~= before);
            assert(plan.last() == (name, HistoryMode::Remove, built.items(name)));
            if name == manager {
                let gone = item_set(built.items(manager));
                assert(installed.difference(gone).difference(gone) =~= installed.difference(gone));
            }
        }
    }
}

/// The steps of a first build bring each manager of the order to its
/// current items and leave the others as they were.
pub proof fn lemma_apply_full_effect(
    curr: GenerationView,
    order: Seq<Seq<char>>,
    manager: Seq<char>,
)
    ensures
        plan_effect(Set::empty(), manager, spec_apply_full(curr, order)) == if order.contains(
            manager,
        ) {
            item_set(curr.items(manager))
        } else {
            Set::empty()
        },
    decreases order.len(),
{
    if order.len() > 0 {
        let init = order.drop_last();
        let name = order.last();
        lemma_apply_full_effect(curr, init, manager);
        assert(order =~= init.push(name));
        lemma_push_contains(init, name, manager);
        let plan = spec_apply_full(curr, order);
        assert(plan.drop_last() =~= spec_apply_full(curr, init));
        assert(plan.last() == (name, HistoryMode::Add, curr.items(name)));
        if name == manager {
            let target = item_set(curr.items(manager));
            assert(Set::<Seq<char>>::empty().union(target) =~= target);
            assert(target.union(target) =~= target);
        }
    }
}

/// A build converges. Take any manager. Before the build it holds the
/// items, blank ones apart, that the built generation declares for it;
/// nothing where nothing was built or the built generation does not
/// declare it. After the steps of the build, taken in order, it holds the
/// items, blank ones apart, that the current generation declares for it;
/// nothing where the current generation does not declare it. This is so
/// whatever the order rules are.
pub proof fn law_build_converges(
    built: Option<GenerationView>,
    curr: GenerationView,
    rules: Option<&ManagerOrder>,
    manager: Seq<char>,
)
    ensures
        plan_effect(
            match built {
                Some(b) => item_set(b.items(manager)),
                None => Set::empty(),
            },
            manager,
            spec_build(built, curr, rules),
        ) == item_set(curr.items(manager)),
{
    let curr_order = spec_get_order(model_names(curr.managers), rules);
    law_order_holds_the_managers(model_names(curr.managers), rules, manager);
    if !curr.declares(manager) {
        model_names(curr.managers).index_of_first_ensures(manager);
        assert(curr.items(manager) =~= Seq::<Seq<char>>::empty());
        assert(item_set(curr.items(manager)) =~= Set::<Seq<char>>::empty());
    }
    match built {
        Some(b) => {
            let built_order = spec_get_order(model_names(b.managers), rules);
            law_order_holds_the_managers(model_names(b.managers), rules, manager);
            let start = item_set(b.items(manager));
            lemma_plan_effect_concat(
                start,
                manager,
                spec_current_steps(b, curr, curr_order),
                spec_dropped_steps(b, curr, built_order),
            );
            lemma_current_steps_effect(b, curr, curr_order, manager);
            let mid = plan_effect(start, manager, spec_current_steps(b, curr, curr_order));
            lemma_dropped_steps_effect(b, curr, built_order, manager, mid);
            if !curr.declares(manager) {
                if b.declares(manager) {
                    assert(start.difference(start) =~= Set::<Seq<char>>::empty());
                } else {
                    model_names(b.managers).index_of_first_ensures(manager);
                    assert(b.items(manager) =~= Seq::<Seq<char>>::empty());
                    assert(start =~= Set::<Seq<char>>::empty());
                }
            }
        },
        None => {
            lemma_apply_full_effect(curr, curr_order, manager);
        },
    }
}

/// The steps of a plan that are for the manager, in order.
pub open spec fn steps_for(
    plan: Seq<(Seq<char>, HistoryMode, Seq<Seq<char>>)>,
    manager: Seq<char>,
) -> Seq<(Seq<char>, HistoryMode, Seq<Seq<char>>)>
    decreases plan.len(),
{
    if plan.len() == 0 {
        Seq::empty()
    } else if plan.last().0 == manager {
        steps_for(plan.drop_last(), manager).push(plan.last())
    } else {
        steps_for(plan.drop_last(), manager)
    }
}

/// The steps for a manager in two plans, one after the other.
pub proof fn lemma_steps_for_concat(
    first: Seq<(Seq<char>, HistoryMode, Seq<Seq<char>>)>,
    second: Seq<(Seq<char>, HistoryMode, Seq<Seq<char>>)>,
    manager: Seq<char>,
)
    ensures
        steps_for(first + second, manager) == steps_for(first, manager) + steps_for(
            second,
            manager,
        ),
    decreases second.len(),
{
    if second.len() == 0 {
        assert(first + second =~= first);
        assert(steps_for(first, manager) + steps_for(second, manager) =~= steps_for(
            first,
            manager,
        ));
    } else {
        lemma_steps_for_concat(first, second.drop_last(), manager);
        assert((first + second).drop_last() =~= first + second.drop_last());
        assert((first + second).last() == second.last());
        assert(steps_for(first + second, manager) =~= steps_for(first, manager) + steps_for(
            second,
            manager,
        ));
    }
}

/// The steps that are worked out for one manager are all for that manager.
pub proof fn lemma_manager_steps_for(
    built: GenerationView,
    curr: GenerationView,
    name: Seq<char>,
    manager: Seq<char>,
)
    ensures
        steps_for(spec_manager_steps(built, curr, name), manager) == if name == manager {
            spec_manager_steps(built, curr, name)
        } else {
            Seq::empty()
        },
{
    let plan = spec_manager_steps(built, curr, name);
    let none = Seq::<(Seq<char>, HistoryMode, Seq<Seq<char>>)>::empty();
    assert(steps_for(none, manager) == none);
    match model_items(built.managers, name) {
        Some(b) => {
            let first = plan.drop_last();
            assert(first.drop_last() =~= none);
            assert(first.last().0 == name);
            assert(plan.last().0 == name);
            assert(steps_for(first, manager) =~= if name == manager {
                first
            } else {
                none
            });
            assert(steps_for(plan, manager) =~= if name == manager {
                plan
            } else {
                none
            });
        },
        None => {
            assert(plan.drop_last() =~= none);
            assert(plan.last().0 == name);
            assert(steps_for(plan, manager) =~= if name == manager {
                plan
            } else {
                none
            });
        },
    }
}

/// The steps for a manager among those for the managers of the current
/// generation: none where the order does not hold it, its own where the
/// order holds it once.
pub proof fn lemma_current_steps_for(
    built: GenerationView,
    curr: GenerationView,
    order: Seq<Seq<char>>,
    manager: Seq<char>,
)
    ensures
        spec_count(order, manager) == 0 ==> steps_for(
            spec_current_steps(built, curr, order),
            manager,
        ) == Seq::<(Seq<char>, HistoryMode, Seq<Seq<char>>)>::empty(),
        spec_count(order, manager) == 1 ==> steps_for(
            spec_current_steps(built, curr, order),
            manager,
        ) == spec_manager_steps(built, curr, manager),
    decreases order.len(),
{
    if order.len() > 0 {
        let init = order.drop_last();
        let name = order.last();
        lemma_current_steps_for(built, curr, init, manager);
        lemma_manager_steps_for(built, curr, name, manager);
        lemma_steps_for_concat(
            spec_current_steps(built, curr, init),
            spec_manager_steps(built, curr, name),
            manager,
        );
        let none = Seq::<(Seq<char>, HistoryMode, Seq<Seq<char>>)>::empty();
        let own = spec_manager_steps(built, curr, manager);
        assert(none + none =~= none);
        assert(none + own =~= own);
        assert(own + none =~= own);
    }
}

/// No step for a manager of the current generation is among those for the
/// managers that it no longer declares.
pub proof fn lemma_dropped_steps_for(
    built: GenerationView,
    curr: GenerationView,
    order: Seq<Seq<char>>,
    manager: Seq<char>,
)
    requires
        curr.declares(manager),
    ensures
        steps_for(spec_dropped_steps(built, curr, order), manager) == Seq::<
            (Seq<char>, HistoryMode, Seq<Seq<char>>),
        >::empty(),
    decreases order.len(),
{
    if order.len() > 0 {
        lemma_dropped_steps_for(built, curr, order.drop_last(), manager);
        if !curr.declares(order.last()) {
            let plan = spec_dropped_steps(built, curr, order);
            assert(plan.drop_last() =~= spec_dropped_steps(built, curr, order.drop_last()));
            assert(plan.last().0 == order.last());
        }
    }
}

/// A list holds a value exactly when the value stands in it at least once;
/// in a list without repetitions it stands at most once.
pub proof fn lemma_count(order: Seq<Seq<char>>, manager: Seq<char>)
    ensures
        spec_count(order, manager) > 0 <==> order.contains(manager),
        order.no_duplicates() ==> spec_count(order, manager) <= 1,
    decreases order.len(),
{
    if order.len() > 0 {
        let init = order.drop_last();
        lemma_count(init, manager);
        assert(order =~= init.push(order.last()));
        lemma_push_contains(init, order.last(), manager);
        if order.no_duplicates() {
            assert(init.no_duplicates());
            if init.contains(manager) && order.last() == manager {
                let i = choose|i: int| 0 <= i < init.len() && init[i] == manager;
                assert(order[i] == order[order.len() - 1]);
            }
        }
    }
}

/// In a later build, a manager that both generations declare and that the
/// order holds once gets exactly two steps: first one removal, of the
/// values that are not blank and only in its built items, then one
/// addition, of those only in its current items. A value in both is in
/// neither step.
pub proof fn law_apply_diffs_one_removal_one_addition(
    built: GenerationView,
    curr: GenerationView,
    rules: Option<&ManagerOrder>,
    manager: Seq<char>,
)
    requires
        built.declares(manager),
        spec_count(spec_get_order(model_names(curr.managers), rules), manager) == 1,
    ensures
        curr.declares(manager),
        steps_for(spec_apply_diffs(built, curr, rules), manager) == seq![
            (manager, HistoryMode::Remove, only_in(built.items(manager), curr.items(manager))),
            (manager, HistoryMode::Add, only_in(curr.items(manager), built.items(manager))),
        ],
{
    let curr_order = spec_get_order(model_names(curr.managers), rules);
    let built_order = spec_get_order(model_names(built.managers), rules);
    lemma_count(curr_order, manager);
    law_order_holds_the_managers(model_names(curr.managers), rules, manager);
    lemma_current_steps_for(built, curr, curr_order, manager);
    lemma_dropped_steps_for(built, curr, built_order, manager);
    lemma_steps_for_concat(
        spec_current_steps(built, curr, curr_order),
        spec_dropped_steps(built, curr, built_order),
        manager,
    );
    model_names(built.managers).index_of_first_ensures(manager);
    let own = spec_manager_steps(built, curr, manager);
    assert(own + Seq::<(Seq<char>, HistoryMode, Seq<Seq<char>>)>::empty() =~= own);
}

/// Without order rules, and with rules that name no manager twice, the
/// order holds each manager of a generation that declares none twice
/// exactly once.
pub proof fn law_order_holds_each_manager_once(
    curr: GenerationView,
    rules: Option<&ManagerOrder>,
    manager: Seq<char>,
)
    requires
        curr.wf(),
        curr.declares(manager),
        spec_get_order(model_names(curr.managers), rules).no_duplicates(),
    ensures
        spec_count(spec_get_order(model_names(curr.managers), rules), manager) == 1,
{
    law_order_holds_the_managers(model_names(curr.managers), rules, manager);
    lemma_count(spec_get_order(model_names(curr.managers), rules), manager);
}

} // verus!
