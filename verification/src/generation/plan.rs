//! What has to be done to the managers to bring a system from the
//! generation that was built last to the current one.

use vstd::prelude::*;
use crate::generation::model::{model_items, model_names, GenerationView};
use crate::generation::order::{get_order, spec_get_order};
use crate::generation::store::{pointer_view, Pointers};
use crate::generation::{clone_strings, Generation, ManagerOrder};
use crate::library::{
    entries, history, only_in, spec_history, strs, tagged, History, HistoryMode,
};

verus! {

/// One call to a manager: add the items, or remove them.
#[derive(Debug)]
pub struct ManagerStep {
    pub manager: String,
    pub mode: HistoryMode,
    pub items: Vec<String>,
}

impl View for ManagerStep {
    type V = (Seq<char>, HistoryMode, Seq<Seq<char>>);

    open spec fn view(&self) -> (Seq<char>, HistoryMode, Seq<Seq<char>>) {
        (self.manager@, self.mode, strs(self.items@))
    }
}

/// The contents of a list of steps.
pub open spec fn steps(v: Seq<ManagerStep>) -> Seq<(Seq<char>, HistoryMode, Seq<Seq<char>>)> {
    v.map_values(|s: ManagerStep| s@)
}

/// The lines of the entries that have the given mode, in order.
pub open spec fn lines_with(h: Seq<(HistoryMode, Seq<char>)>, mode: HistoryMode) -> Seq<Seq<char>>
    decreases h.len(),
{
    if h.len() == 0 {
        Seq::empty()
    } else if h.last().0 == mode {
        lines_with(h.drop_last(), mode).push(h.last().1)
    } else {
        lines_with(h.drop_last(), mode)
    }
}

/// A first build: for each manager of the order, one addition of all its items.
pub open spec fn spec_apply_full(curr: GenerationView, order: Seq<Seq<char>>) -> Seq<
    (Seq<char>, HistoryMode, Seq<Seq<char>>),
>
    decreases order.len(),
{
    if order.len() == 0 {
        Seq::empty()
    } else {
        spec_apply_full(curr, order.drop_last()).push(
            (order.last(), HistoryMode::Add, curr.items(order.last())),
        )
    }
}

/// The steps for one manager of the current generation: where it was built
/// before, a removal of what only the built generation holds and then an
/// addition of what only the current one holds; else an addition of all
/// its items.
pub open spec fn spec_manager_steps(built: GenerationView, curr: GenerationView, name: Seq<char>) -> Seq<
    (Seq<char>, HistoryMode, Seq<Seq<char>>),
> {
    match model_items(built.managers, name) {
        Some(built_items) => seq![
            (name, HistoryMode::Remove, only_in(built_items, curr.items(name))),
            (name, HistoryMode::Add, only_in(curr.items(name), built_items)),
        ],
        None => seq![(name, HistoryMode::Add, curr.items(name))],
    }
}

/// The steps for the managers of the current generation, in order.
pub open spec fn spec_current_steps(
    built: GenerationView,
    curr: GenerationView,
    order: Seq<Seq<char>>,
) -> Seq<(Seq<char>, HistoryMode, Seq<Seq<char>>)>
    decreases order.len(),
{
    if order.len() == 0 {
        Seq::empty()
    } else {
        spec_current_steps(built, curr, order.drop_last()) + spec_manager_steps(
            built,
            curr,
            order.last(),
        )
    }
}

/// The steps for the managers that only the built generation declares: a
/// removal of all the items of each, in order.
pub open spec fn spec_dropped_steps(
    built: GenerationView,
    curr: GenerationView,
    order: Seq<Seq<char>>,
) -> Seq<(Seq<char>, HistoryMode, Seq<Seq<char>>)>
    decreases order.len(),
{
    if order.len() == 0 {
        Seq::empty()
    } else if curr.declares(order.last()) {
        spec_dropped_steps(built, curr, order.drop_last())
    } else {
        spec_dropped_steps(built, curr, order.drop_last()).push(
            (order.last(), HistoryMode::Remove, built.items(order.last())),
        )
    }
}

/// A later build: the steps for the managers of the current generation,
/// then those for the managers that it no longer declares.
pub open spec fn spec_apply_diffs(
    built: GenerationView,
    curr: GenerationView,
    rules: Option<&ManagerOrder>,
) -> Seq<(Seq<char>, HistoryMode, Seq<Seq<char>>)> {
    spec_current_steps(built, curr, spec_get_order(model_names(curr.managers), rules))
        + spec_dropped_steps(built, curr, spec_get_order(model_names(built.managers), rules))
}

/// The steps of a build: all of the current generation where nothing was
/// built before, else the differences.
pub open spec fn spec_build(
    built: Option<GenerationView>,
    curr: GenerationView,
    rules: Option<&ManagerOrder>,
) -> Seq<(Seq<char>, HistoryMode, Seq<Seq<char>>)> {
    match built {
        Some(b) => spec_apply_diffs(b, curr, rules),
        None => spec_apply_full(curr, spec_get_order(model_names(curr.managers), rules)),
    }
}

/// A first build holds one step for each manager of the order, and each
/// step is an addition for that manager.
pub proof fn lemma_apply_full_shape(curr: GenerationView, order: Seq<Seq<char>>)
    ensures
        spec_apply_full(curr, order).len() == order.len(),
        forall|i: int|
            0 <= i < order.len() ==> #[trigger] spec_apply_full(curr, order)[i] == (
                order[i],
                HistoryMode::Add,
                curr.items(order[i]),
            ),
    decreases order.len(),
{
    if order.len() > 0 {
        lemma_apply_full_shape(curr, order.drop_last());
        assert forall|i: int| 0 <= i < order.len() implies #[trigger] spec_apply_full(
            curr,
            order,
        )[i] == (order[i], HistoryMode::Add, curr.items(order[i])) by {
            if i < order.len() - 1 {
                assert(spec_apply_full(curr, order)[i] == spec_apply_full(
                    curr,
                    order.drop_last(),
                )[i]);
                assert(order.drop_last()[i] == order[i]);
            }
        }
    }
}

/// The lines of a tagged list under its own mode are the list; under the
/// other mode there are none.
pub proof fn lemma_lines_with_tagged(
    h: Seq<(HistoryMode, Seq<char>)>,
    mode: HistoryMode,
    lines: Seq<Seq<char>>,
)
    ensures
        lines_with(h + tagged(mode, lines), mode) == lines_with(h, mode) + lines,
        forall|other: HistoryMode|
            other != mode ==> #[trigger] lines_with(h + tagged(mode, lines), other) == lines_with(
                h,
                other,
            ),
    decreases lines.len(),
{
    if lines.len() == 0 {
        assert(h + tagged(mode, lines) =~= h);
        assert(lines_with(h, mode) + lines =~= lines_with(h, mode));
    } else {
        let init = lines.drop_last();
        lemma_lines_with_tagged(h, mode, init);
        let all = h + tagged(mode, lines);
        assert(all.drop_last() =~= h + tagged(mode, init));
        assert(all.last() == (mode, lines.last()));
        assert(lines_with(h, mode) + lines =~= (lines_with(h, mode) + init).push(lines.last()));
        assert forall|other: HistoryMode| other != mode implies #[trigger] lines_with(
            all,
            other,
        ) == lines_with(h, other) by {
            assert(lines_with(h + tagged(mode, init), other) == lines_with(h, other));
        }
    }
}

/// The removals of a diff are the values only in the old list, its
/// additions those only in the new one.
pub proof fn lemma_history_lines(old: Seq<Seq<char>>, new: Seq<Seq<char>>)
    ensures
        lines_with(spec_history(old, new), HistoryMode::Remove) == only_in(old, new),
        lines_with(spec_history(old, new), HistoryMode::Add) == only_in(new, old),
{
    let none = Seq::<(HistoryMode, Seq<char>)>::empty();
    let removals = tagged(HistoryMode::Remove, only_in(old, new));
    lemma_lines_with_tagged(none, HistoryMode::Remove, only_in(old, new));
    assert(none + removals =~= removals);
    lemma_lines_with_tagged(removals, HistoryMode::Add, only_in(new, old));
    assert(lines_with(none, HistoryMode::Remove) + only_in(old, new) =~= only_in(old, new));
    assert(lines_with(none, HistoryMode::Add) =~= Seq::<Seq<char>>::empty());
    assert(lines_with(removals, HistoryMode::Add) == lines_with(none, HistoryMode::Add));
    assert(Seq::<Seq<char>>::empty() + only_in(new, old) =~= only_in(new, old));
}

/// The lines of the entries that have the given mode, in order.
pub fn lines_of(diffs: &Vec<History>, mode: HistoryMode) -> (lines: Vec<String>)
    ensures
        strs(lines@) == lines_with(entries(diffs@), mode),
{
    let mut lines: Vec<String> = Vec::new();
    let mut i: usize = 0;
    assert(strs(lines@) =~= lines_with(entries(diffs@).take(0), mode));
    while i < diffs.len()
        invariant
            0 <= i <= diffs.len(),
            strs(lines@) == lines_with(entries(diffs@).take(i as int), mode),
        decreases diffs.len() - i,
    {
        let ghost before = lines@;
        proof {
            let next = entries(diffs@).take(i + 1);
            assert(next.drop_last() =~= entries(diffs@).take(i as int));
            assert(next.last() == diffs@[i as int]@);
        }
        if diffs[i].mode == mode {
            lines.push(diffs[i].line.clone());
            assert(strs(lines@) =~= strs(before).push(diffs@[i as int].line@));
        }
        i += 1;
    }
    assert(entries(diffs@).take(diffs@.len() as int) =~= entries(diffs@));
    lines
}

/// The steps of a first build: every manager gets all its items added, in
/// the order that the rules give.
pub fn apply_full(curr_gen: &Generation, rules: Option<&ManagerOrder>) -> (plan: Vec<ManagerStep>)
    ensures
        steps(plan@) == spec_apply_full(
            curr_gen@,
            spec_get_order(model_names(curr_gen@.managers), rules),
        ),
        plan@.len() == spec_get_order(model_names(curr_gen@.managers), rules).len(),
        forall|i: int|
            0 <= i < plan@.len() ==> (#[trigger] plan@[i])@ == (
                spec_get_order(model_names(curr_gen@.managers), rules)[i],
                HistoryMode::Add,
                curr_gen@.items(spec_get_order(model_names(curr_gen@.managers), rules)[i]),
            ),
{
    proof {
        lemma_apply_full_shape(curr_gen@, spec_get_order(model_names(curr_gen@.managers), rules));
    }
    let curr_order = get_order(curr_gen, rules);
    let mut plan: Vec<ManagerStep> = Vec::new();
    let mut i: usize = 0;
    assert(steps(plan@) =~= spec_apply_full(curr_gen@, strs(curr_order@).take(0)));
    while i < curr_order.len()
        invariant
            0 <= i <= curr_order.len(),
            steps(plan@) == spec_apply_full(curr_gen@, strs(curr_order@).take(i as int)),
        decreases curr_order.len() - i,
    {
        let ghost before = plan@;
        proof {
            crate::library::lemma_strs_take_push(curr_order@, i as int);
        }
        let items = match curr_gen.get(curr_order[i].as_str()) {
            Some(found) => clone_strings(&found.items),
            None => Vec::new(),
        };
        assert(strs(items@) =~= curr_gen@.items(curr_order@[i as int]@));
        plan.push(ManagerStep { manager: curr_order[i].clone(), mode: HistoryMode::Add, items });
        assert(steps(plan@) =~= steps(before).push(plan@[before.len() as int]@));
        i += 1;
    }
    proof {
        crate::library::lemma_strs_take_push_all(curr_order@);
        assert forall|i: int| 0 <= i < plan@.len() implies (#[trigger] plan@[i])@ == steps(
            plan@,
        )[i] by {}
    }
    plan
}

/// The steps of a build after an earlier one. Each manager of the current
/// generation, in the order that the rules give: where the built generation
/// has it, one removal of the items that only the built generation holds,
/// then one addition of the items that only the current one holds; where it
/// has not, one addition of all its items. Then each manager that only the
/// built generation declares, in the order that the rules give for it: one
/// removal of all its items.
pub fn apply_diffs(built_gen: &Generation, curr_gen: &Generation, rules: Option<&ManagerOrder>) -> (plan:
    Vec<ManagerStep>)
    ensures
        steps(plan@) == spec_apply_diffs(built_gen@, curr_gen@, rules),
{
    let curr_order = get_order(curr_gen, rules);
    let mut plan: Vec<ManagerStep> = Vec::new();
    let mut i: usize = 0;
    assert(steps(plan@) =~= spec_current_steps(built_gen@, curr_gen@, strs(curr_order@).take(0)));
    while i < curr_order.len()
        invariant
            0 <= i <= curr_order.len(),
            steps(plan@) == spec_current_steps(
                built_gen@,
                curr_gen@,
                strs(curr_order@).take(i as int),
            ),
        decreases curr_order.len() - i,
    {
        let ghost before = plan@;
        let name = &curr_order[i];
        proof {
            crate::library::lemma_strs_take_push(curr_order@, i as int);
        }
        let curr_items = match curr_gen.get(name.as_str()) {
            Some(found) => clone_strings(&found.items),
            None => Vec::new(),
        };
        assert(strs(curr_items@) =~= curr_gen@.items(name@));
        match built_gen.get(name.as_str()) {
            Some(built_items) => {
                let diffs = history(built_items.items.as_slice(), curr_items.as_slice());
                let to_remove = lines_of(&diffs, HistoryMode::Remove);
                let to_install = lines_of(&diffs, HistoryMode::Add);
                proof {
                    lemma_history_lines(strs(built_items.items@), strs(curr_items@));
                }
                plan.push(
                    ManagerStep { manager: name.clone(), mode: HistoryMode::Remove, items: to_remove },
                );
                plan.push(
                    ManagerStep { manager: name.clone(), mode: HistoryMode::Add, items: to_install },
                );
                assert(steps(plan@) =~= steps(before) + spec_manager_steps(
                    built_gen@,
                    curr_gen@,
                    name@,
                ));
            },
            None => {
                plan.push(
                    ManagerStep { manager: name.clone(), mode: HistoryMode::Add, items: curr_items },
                );
                assert(steps(plan@) =~= steps(before) + spec_manager_steps(
                    built_gen@,
                    curr_gen@,
                    name@,
                ));
            },
        }
        i += 1;
    }
    proof {
        crate::library::lemma_strs_take_push_all(curr_order@);
    }
    let built_order = get_order(built_gen, rules);
    let ghost first = steps(plan@);
    let mut j: usize = 0;
    assert(steps(plan@) =~= first + spec_dropped_steps(
        built_gen@,
        curr_gen@,
        strs(built_order@).take(0),
    ));
    while j < built_order.len()
        invariant
            0 <= j <= built_order.len(),
            steps(plan@) == first + spec_dropped_steps(
                built_gen@,
                curr_gen@,
                strs(built_order@).take(j as int),
            ),
        decreases built_order.len() - j,
    {
        let ghost before = plan@;
        let name = &built_order[j];
        proof {
            crate::library::lemma_strs_take_push(built_order@, j as int);
        }
        if !curr_gen.contains_manager(name.as_str()) {
            let items = match built_gen.get(name.as_str()) {
                Some(found) => clone_strings(&found.items),
                None => Vec::new(),
            };
            assert(strs(items@) =~= built_gen@.items(name@));
            plan.push(ManagerStep { manager: name.clone(), mode: HistoryMode::Remove, items });
            assert(steps(plan@) =~= steps(before).push(plan@[before.len() as int]@));
            assert(steps(plan@) =~= first + spec_dropped_steps(
                built_gen@,
                curr_gen@,
                strs(built_order@).take(j + 1),
            ));
        }
        j += 1;
    }
    proof {
        crate::library::lemma_strs_take_push_all(built_order@);
    }
    plan
}

/// The steps of a build: those of a first build where no generation was
/// built before, else those that lead from the built generation to the
/// current one.
pub fn build_steps(
    built_gen: Option<&Generation>,
    curr_gen: &Generation,
    rules: Option<&ManagerOrder>,
) -> (plan: Vec<ManagerStep>)
    ensures
        steps(plan@) == spec_build(
            match built_gen {
                Some(b) => Some(b@),
                None => None,
            },
            curr_gen@,
            rules,
        ),
{
    match built_gen {
        Some(b) => apply_diffs(b, curr_gen, rules),
        None => apply_full(curr_gen, rules),
    }
}

#[derive(Debug, PartialEq, Eq, Structural, Clone, Copy)]
pub enum PassError {
    /// A step of the pass failed.
    ManagerCommandFailed,
    /// Steps of the pass are still to be taken.
    Unfinished,
    /// No generation is current.
    NoCurrent,
}

/// A build under way: the steps to take, how many of them were taken with
/// success, and whether one has failed. The steps are taken in order, and
/// a failed step ends the pass: what was done before it stays done, and
/// nothing after it is begun.
#[derive(Debug)]
pub struct Pass {
    pub plan: Vec<ManagerStep>,
    pub done: usize,
    pub failed: bool,
}

impl Pass {
    /// No more steps are counted as taken than the plan holds.
    pub open spec fn wf(&self) -> bool {
        self.done <= self.plan@.len()
    }

    /// Whether every step was taken with success.
    pub open spec fn spec_complete(&self) -> bool {
        !self.failed && self.done == self.plan@.len()
    }

    /// A pass that has not begun.
    pub fn new(plan: Vec<ManagerStep>) -> (pass: Pass)
        ensures
            pass.wf(),
            pass.plan == plan,
            pass.done == 0,
            !pass.failed,
    {
        Pass { plan, done: 0, failed: false }
    }

    /// The step to take now: the first that was not taken yet, unless a
    /// step has failed.
    pub fn next_step(&self) -> (step: Option<&ManagerStep>)
        requires
            self.wf(),
        ensures
            step.is_some() == (!self.failed && self.done < self.plan@.len()),
            step.is_some() ==> *step.unwrap() == self.plan@[self.done as int],
    {
        if self.failed || self.done >= self.plan.len() {
            None
        } else {
            Some(&self.plan[self.done])
        }
    }

    /// Takes note of how the step that `next_step` gave went. Where no
    /// step was to be taken, nothing changes.
    pub fn report(&mut self, succeeded: bool)
        requires
            old(self).wf(),
        ensures
            final(self).wf(),
            final(self).plan == old(self).plan,
            final(self).done == if !old(self).failed && old(self).done < old(self).plan@.len()
                && succeeded {
                old(self).done + 1
            } else {
                old(self).done as int
            },
            final(self).failed == (old(self).failed || (old(self).done < old(self).plan@.len()
                && !succeeded)),
    {
        if !self.failed && self.done < self.plan.len() {
            if succeeded {
                self.done = self.done + 1;
            } else {
                self.failed = true;
            }
        }
    }

    /// Whether every step was taken with success.
    pub fn complete(&self) -> (complete: bool)
        ensures
            complete == self.spec_complete(),
    {
        !self.failed && self.done == self.plan.len()
    }

    /// Ends the pass. Where every step was taken with success and a
    /// generation is current, that generation becomes the built one. In
    /// every other case no pointer moves, and the error says why.
    pub fn finish(&self, pointers: &mut Pointers) -> (ended: Result<(), PassError>)
        ensures
            pointer_view(final(pointers).current) == pointer_view(old(pointers).current),
            match ended {
                Ok(_) => self.spec_complete() && old(pointers).current.is_some() && pointer_view(
                    final(pointers).built,
                ) == pointer_view(old(pointers).current),
                Err(e) => pointer_view(final(pointers).built) == pointer_view(old(pointers).built)
                    && e == if self.failed {
                    PassError::ManagerCommandFailed
                } else if self.done != self.plan@.len() {
                    PassError::Unfinished
                } else {
                    PassError::NoCurrent
                } && (!self.spec_complete() || old(pointers).current.is_none()),
            },
    {
        if self.failed {
            return Err(PassError::ManagerCommandFailed);
        }
        if self.done != self.plan.len() {
            return Err(PassError::Unfinished);
        }
        match pointers.build() {
            Ok(_) => Ok(()),
            Err(_) => Err(PassError::NoCurrent),
        }
    }
}

} // verus!
