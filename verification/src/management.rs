//! Item managers: each wraps one outside tool behind command templates.
//! What a manager would run is worked out here, as a list of actions; to
//! run them is left to the caller.

use vstd::prelude::*;
use vstd::string::StringExecFns;
use crate::library::strs;
use crate::text::{
    is_blank, join, replace_all, spec_is_blank, spec_join, spec_replace, spec_words,
    split_whitespace,
};

verus! {

/// How a manager's commands take their items.
#[derive(Debug)]
pub struct ManagerConfig {
    /// Whether all items go into one call of the command.
    pub many_args: bool,
    /// What stands between two items of one call.
    pub arg_sep: String,
}

impl Default for ManagerConfig {
    /// The plain default: one call for each item, and no separator. A
    /// manager's file that leaves a field out gets `default_many_args` or
    /// `default_arg_sep` for it instead.
    fn default() -> (config: Self)
        ensures
            !config.many_args,
            config.arg_sep@ == Seq::<char>::empty(),
    {
        ManagerConfig { many_args: false, arg_sep: String::new() }
    }
}

/// What `many_args` is where a manager's file does not say.
pub fn default_many_args() -> (many: bool)
    ensures
        many,
{
    true
}

/// What `arg_sep` is where a manager's file does not say: one space.
pub fn default_arg_sep() -> (sep: String)
    ensures
        sep@ == seq![' '],
{
    let mut sep = String::new();
    sep.push(' ');
    assert(sep@ =~= seq![' ']);
    sep
}

/// The declaration of a manager: its command templates, how items are
/// handed to them, and the names under which it goes.
#[derive(Debug)]
pub struct Manager {
    pub add: String,
    pub remove: String,
    pub sync: Option<String>,
    pub upgrade: Option<String>,
    pub list: Option<String>,
    pub config: ManagerConfig,
    pub hook_name: String,
    pub plural_name: String,
}

/// One thing to run: the hook of that name, if the user has one, or a
/// command through the shell. A list of actions is run in order and ends
/// with the first that fails.
#[derive(Debug)]
pub enum Action {
    Hook(String),
    Command(String),
}

/// What an action holds.
pub enum ActionView {
    Hook(Seq<char>),
    Command(Seq<char>),
}

impl View for Action {
    type V = ActionView;

    open spec fn view(&self) -> ActionView {
        match self {
            Action::Hook(name) => ActionView::Hook(name@),
            Action::Command(line) => ActionView::Command(line@),
        }
    }
}

#[derive(Debug, PartialEq, Eq, Structural, Clone, Copy)]
pub enum ManagerError {
    /// The command that lists the installed items failed.
    ListFailed,
    /// The manager has no command that lists the installed items.
    NoListCommand,
}

/// The contents of a list of actions.
pub open spec fn actions(v: Seq<Action>) -> Seq<ActionView> {
    v.map_values(|a: Action| a@)
}

/// The place in a command template where the items go.
pub open spec fn spec_token() -> Seq<char> {
    seq!['#', ':', '?']
}

/// The name of the hook that runs before (`pre`) or after (`post`) an
/// operation of a manager.
pub open spec fn spec_hook(stage: Seq<char>, hook_name: Seq<char>, operation: Seq<char>) -> Seq<
    char,
> {
    stage + seq!['_'] + hook_name + seq!['_'] + operation
}

/// The command for the given items, unless they are blank.
pub open spec fn spec_raw(template: Seq<char>, items: Seq<char>) -> Seq<ActionView> {
    if spec_is_blank(items) {
        Seq::empty()
    } else {
        seq![ActionView::Command(spec_replace(template, spec_token(), items))]
    }
}

/// One command for each item that is not blank, in order.
pub open spec fn spec_each(template: Seq<char>, items: Seq<Seq<char>>) -> Seq<ActionView>
    decreases items.len(),
{
    if items.len() == 0 {
        Seq::empty()
    } else {
        spec_each(template, items.drop_last()) + spec_raw(template, items.last())
    }
}

/// The commands that change the items: one for all of them, joined by the
/// separator, or one for each.
pub open spec fn spec_commands(
    many_args: bool,
    arg_sep: Seq<char>,
    template: Seq<char>,
    items: Seq<Seq<char>>,
) -> Seq<ActionView> {
    if many_args {
        spec_raw(template, spec_join(items, arg_sep))
    } else {
        spec_each(template, items)
    }
}

/// A hook before, the actions, a hook after.
pub open spec fn spec_wrapped(hook_name: Seq<char>, operation: Seq<char>, inner: Seq<ActionView>) -> Seq<
    ActionView,
> {
    seq![ActionView::Hook(spec_hook(seq!['p', 'r', 'e'], hook_name, operation))] + inner
        + seq![ActionView::Hook(spec_hook(seq!['p', 'o', 's', 't'], hook_name, operation))]
}

/// The command, if there is one.
pub open spec fn spec_optional(command: Option<String>) -> Seq<ActionView> {
    match command {
        Some(line) => seq![ActionView::Command(line@)],
        None => Seq::empty(),
    }
}

/// A character that may stand in a file name on any system.
pub open spec fn spec_safe_char(c: char) -> bool {
    let n = c as u32;
    ||| 0x61 <= n <= 0x7A
    ||| 0x41 <= n <= 0x5A
    ||| 0x30 <= n <= 0x39
    ||| c == '-'
    ||| c == '_'
    ||| c == '.'
}

/// The name with `_` in place of each character that is not safe.
pub open spec fn spec_fixed_name(name: Seq<char>) -> Seq<char> {
    name.map_values(|c: char| if spec_safe_char(c) { c } else { '_' })
}

/// The values of `listed` that `declared` does not hold, in order.
pub open spec fn spec_others(listed: Seq<Seq<char>>, declared: Seq<Seq<char>>) -> Seq<Seq<char>>
    decreases listed.len(),
{
    if listed.len() == 0 {
        Seq::empty()
    } else if declared.contains(listed.last()) {
        spec_others(listed.drop_last(), declared)
    } else {
        spec_others(listed.drop_last(), declared).push(listed.last())
    }
}

fn safe_char(c: char) -> (safe: bool)
    ensures
        safe == spec_safe_char(c),
{
    let n: u32 = c as u32;
    (0x61 <= n && n <= 0x7A) || (0x41 <= n && n <= 0x5A) || (0x30 <= n && n <= 0x39) || c == '-'
        || c == '_' || c == '.'
}

/// The name of a hook: the stage, the manager's hook name and the
/// operation, with `_` between them.
fn hook_for(stage: &str, manager: &str, operation: &str) -> (name: String)
    ensures
        name@ == spec_hook(stage@, manager@, operation@),
{
    let mut name = String::new();
    name.append(stage);
    name.push('_');
    name.append(manager);
    name.push('_');
    name.append(operation);
    assert(name@ =~= spec_hook(stage@, manager@, operation@));
    name
}

/// Appends the command for the items, unless they are blank.
fn push_raw(template: &str, items: &str, out: &mut Vec<Action>)
    ensures
        actions(final(out)@) == actions(old(out)@) + spec_raw(template@, items@),
{
    if !is_blank(items) {
        proof {
            reveal_strlit("#:?");
            assert("#:?"@ =~= spec_token());
        }
        out.push(Action::Command(replace_all(template, "#:?", items)));
        assert(actions(out@) =~= actions(old(out)@) + spec_raw(template@, items@));
    } else {
        assert(actions(out@) =~= actions(old(out)@) + spec_raw(template@, items@));
    }
}

impl Manager {
    /// The items as one argument string.
    pub fn join_args(&self, items: &[String]) -> (joined: String)
        ensures
            joined@ == spec_join(strs(items@), self.config.arg_sep@),
    {
        join(items, self.config.arg_sep.as_str())
    }

    /// A hook before, the commands that the template gives for the items,
    /// a hook after.
    fn change(&self, template: &str, operation: &str, items: &[String]) -> (plan: Vec<Action>)
        ensures
            actions(plan@) == spec_wrapped(
                self.hook_name@,
                operation@,
                spec_commands(
                    self.config.many_args,
                    self.config.arg_sep@,
                    template@,
                    strs(items@),
                ),
            ),
    {
        proof {
            reveal_strlit("pre");
            reveal_strlit("post");
            assert("pre"@ =~= seq!['p', 'r', 'e']);
            assert("post"@ =~= seq!['p', 'o', 's', 't']);
        }
        let mut plan: Vec<Action> = Vec::new();
        plan.push(Action::Hook(hook_for("pre", self.hook_name.as_str(), operation)));
        let ghost first = actions(plan@);
        assert(first =~= seq![
            ActionView::Hook(spec_hook(seq!['p', 'r', 'e'], self.hook_name@, operation@)),
        ]);
        if self.config.many_args {
            let joined = self.join_args(items);
            push_raw(template, joined.as_str(), &mut plan);
        } else {
            let mut i: usize = 0;
            assert(actions(plan@) =~= first + spec_each(template@, strs(items@).take(0)));
            while i < items.len()
                invariant
                    0 <= i <= items.len(),
                    actions(plan@) == first + spec_each(template@, strs(items@).take(i as int)),
                decreases items.len() - i,
            {
                proof {
                    crate::library::lemma_strs_take_push(items@, i as int);
                }
                push_raw(template, items[i].as_str(), &mut plan);
                assert(actions(plan@) =~= first + spec_each(template@, strs(items@).take(i + 1)));
                i += 1;
            }
            proof {
                crate::library::lemma_strs_take_push_all(items@);
            }
        }
        let ghost middle = actions(plan@);
        plan.push(Action::Hook(hook_for("post", self.hook_name.as_str(), operation)));
        assert(actions(plan@) =~= middle + seq![
            ActionView::Hook(spec_hook(seq!['p', 'o', 's', 't'], self.hook_name@, operation@)),
        ]);
        plan
    }

    /// What adding the items takes: the hook before, the add command with
    /// the items in place of its `#:?` (one call with all of them, joined
    /// by the separator, or one call for each), the hook after. Blank
    /// arguments give no call.
    pub fn add(&self, items: &[String]) -> (plan: Vec<Action>)
        ensures
            actions(plan@) == spec_wrapped(
                self.hook_name@,
                seq!['a', 'd', 'd'],
                spec_commands(
                    self.config.many_args,
                    self.config.arg_sep@,
                    self.add@,
                    strs(items@),
                ),
            ),
    {
        proof {
            reveal_strlit("add");
            assert("add"@ =~= seq!['a', 'd', 'd']);
        }
        self.change(self.add.as_str(), "add", items)
    }

    /// What removing the items takes: as for adding, with the remove
    /// command and the remove hooks.
    pub fn remove(&self, items: &[String]) -> (plan: Vec<Action>)
        ensures
            actions(plan@) == spec_wrapped(
                self.hook_name@,
                seq!['r', 'e', 'm', 'o', 'v', 'e'],
                spec_commands(
                    self.config.many_args,
                    self.config.arg_sep@,
                    self.remove@,
                    strs(items@),
                ),
            ),
    {
        proof {
            reveal_strlit("remove");
            assert("remove"@ =~= seq!['r', 'e', 'm', 'o', 'v', 'e']);
        }
        self.change(self.remove.as_str(), "remove", items)
    }

    /// A hook before, the command if there is one, a hook after.
    fn wrapped(&self, command: &Option<String>, operation: &str) -> (plan: Vec<Action>)
        ensures
            actions(plan@) == spec_wrapped(self.hook_name@, operation@, spec_optional(*command)),
    {
        proof {
            reveal_strlit("pre");
            reveal_strlit("post");
            assert("pre"@ =~= seq!['p', 'r', 'e']);
            assert("post"@ =~= seq!['p', 'o', 's', 't']);
        }
        let mut plan: Vec<Action> = Vec::new();
        plan.push(Action::Hook(hook_for("pre", self.hook_name.as_str(), operation)));
        match command {
            Some(line) => {
                plan.push(Action::Command(line.clone()));
            },
            None => {},
        }
        plan.push(Action::Hook(hook_for("post", self.hook_name.as_str(), operation)));
        assert(actions(plan@) =~= spec_wrapped(
            self.hook_name@,
            operation@,
            spec_optional(*command),
        ));
        plan
    }

    /// What syncing takes: the hook before, the sync command if the
    /// manager has one, the hook after.
    pub fn sync(&self) -> (plan: Vec<Action>)
        ensures
            actions(plan@) == spec_wrapped(
                self.hook_name@,
                seq!['s', 'y', 'n', 'c'],
                spec_optional(self.sync),
            ),
    {
        proof {
            reveal_strlit("sync");
            assert("sync"@ =~= seq!['s', 'y', 'n', 'c']);
        }
        self.wrapped(&self.sync, "sync")
    }

    /// What upgrading takes: the hook before, the upgrade command if the
    /// manager has one, the hook after.
    pub fn upgrade(&self) -> (plan: Vec<Action>)
        ensures
            actions(plan@) == spec_wrapped(
                self.hook_name@,
                seq!['u', 'p', 'g', 'r', 'a', 'd', 'e'],
                spec_optional(self.upgrade),
            ),
    {
        proof {
            reveal_strlit("upgrade");
            assert("upgrade"@ =~= seq!['u', 'p', 'g', 'r', 'a', 'd', 'e']);
        }
        self.wrapped(&self.upgrade, "upgrade")
    }

    /// The installed items, from what the list command printed: its words.
    /// `output` is absent where the command failed. A manager without a
    /// list command cannot list, whatever `output` holds; a command that
    /// failed is an error too.
    pub fn list(&self, output: Option<&str>) -> (installed: Result<Vec<String>, ManagerError>)
        ensures
            match installed {
                Ok(words) => self.list.is_some() && output.is_some() && strs(words@) == spec_words(
                    output.unwrap()@,
                ),
                Err(e) => e == if self.list.is_none() {
                    ManagerError::NoListCommand
                } else {
                    ManagerError::ListFailed
                } && (self.list.is_none() || output.is_none()),
            },
    {
        if self.list.is_none() {
            return Err(ManagerError::NoListCommand);
        }
        match output {
            Some(text) => Ok(split_whitespace(text)),
            None => Err(ManagerError::ListFailed),
        }
    }

    /// The installed items that are not declared, in the order in which
    /// they are installed; none for a manager without a list command.
    pub fn get_other(&self, items: &[String], installed: &Vec<String>) -> (others: Vec<String>)
        ensures
            strs(others@) == if self.list.is_some() {
                spec_others(strs(installed@), strs(items@))
            } else {
                Seq::empty()
            },
    {
        let mut others: Vec<String> = Vec::new();
        if self.list.is_none() {
            assert(strs(others@) =~= Seq::<Seq<char>>::empty());
            return others;
        }
        let declared = crate::library::set_of(items);
        let mut i: usize = 0;
        assert(strs(others@) =~= spec_others(strs(installed@).take(0), strs(items@)));
        while i < installed.len()
            invariant
                0 <= i <= installed.len(),
                forall|v: Seq<char>| declared@.contains(v) <==> #[trigger] strs(items@).contains(v),
                strs(others@) == spec_others(strs(installed@).take(i as int), strs(items@)),
            decreases installed.len() - i,
        {
            let ghost before = others@;
            proof {
                crate::library::lemma_strs_take_push(installed@, i as int);
            }
            if !declared.contains(installed[i].as_str()) {
                others.push(installed[i].clone());
                assert(strs(others@) =~= strs(before).push(installed@[i as int]@));
            }
            i += 1;
        }
        proof {
            crate::library::lemma_strs_take_push_all(installed@);
        }
        others
    }

    /// Gives the manager another name for its items; nothing else changes.
    pub fn set_plural_name(&mut self, pn: &str)
        ensures
            final(self).plural_name@ == pn@,
            final(self).add == old(self).add,
            final(self).remove == old(self).remove,
            final(self).sync == old(self).sync,
            final(self).upgrade == old(self).upgrade,
            final(self).list == old(self).list,
            final(self).config == old(self).config,
            final(self).hook_name == old(self).hook_name,
    {
        self.plural_name = pn.to_owned();
    }

    /// The hook name with `_` in place of each character that is not safe
    /// in a file name.
    pub fn fixed_hook_name(&self) -> (fixed: String)
        ensures
            fixed@ == spec_fixed_name(self.hook_name@),
    {
        let chars = crate::text::to_chars(self.hook_name.as_str());
        let mut fixed = String::new();
        let mut i: usize = 0;
        while i < chars.len()
            invariant
                0 <= i <= chars.len(),
                chars@ == self.hook_name@,
                fixed@ == spec_fixed_name(chars@).take(i as int),
            decreases chars.len() - i,
        {
            let c = chars[i];
            if safe_char(c) {
                fixed.push(c);
            } else {
                fixed.push('_');
            }
            assert(fixed@ =~= spec_fixed_name(chars@).take(i + 1));
            i += 1;
        }
        assert(fixed@ =~= spec_fixed_name(chars@));
        fixed
    }

    /// Checks the manager's declaration. The hook name must consist of
    /// letters `a` to `z` and `A` to `Z`, digits, `-`, `_` and `.`; if it
    /// does not, the one error names the fixed version.
    pub fn check_config(&self) -> (checked: Result<(), Vec<String>>)
        ensures
            match checked {
                Ok(_) => forall|i: int|
                    0 <= i < self.hook_name@.len() ==> spec_safe_char(#[trigger] self.hook_name@[i]),
                Err(errors) => {
                    &&& exists|i: int|
                        0 <= i < self.hook_name@.len() && !spec_safe_char(
                            #[trigger] self.hook_name@[i],
                        )
                    &&& errors@.len() == 1
                    &&& errors@[0]@ == "Field 'hook_name' must be filename safe! (Fixed version: "@
                        + spec_fixed_name(self.hook_name@) + ")"@
                },
            },
    {
        let valid_hook_name = self.fixed_hook_name();
        if self.hook_name != valid_hook_name {
            let mut message = String::new();
            message.append("Field 'hook_name' must be filename safe! (Fixed version: ");
            message.append(valid_hook_name.as_str());
            message.append(")");
            let mut errors: Vec<String> = Vec::new();
            errors.push(message);
            proof {
                if forall|i: int|
                    0 <= i < self.hook_name@.len() ==> spec_safe_char(#[trigger] self.hook_name@[i]) {
                    assert(spec_fixed_name(self.hook_name@) =~= self.hook_name@);
                }
                assert(errors@[0]@ =~= "Field 'hook_name' must be filename safe! (Fixed version: "@
                    + spec_fixed_name(self.hook_name@) + ")"@);
            }
            return Err(errors);
        }
        assert forall|i: int| 0 <= i < self.hook_name@.len() implies spec_safe_char(
            #[trigger] self.hook_name@[i],
        ) by {
            assert(spec_fixed_name(self.hook_name@)[i] == self.hook_name@[i]);
        }
        Ok(())
    }
}

/// The manager that a file of the managers' directory declares: the file's
/// name without `.toml`, where it ends in that; else none.
pub fn manager_of_file(file_name: &str) -> (manager: Option<String>)
    ensures
        manager.is_some() == spec_is_manager_file(file_name@),
        manager.is_some() ==> manager.unwrap()@ == spec_replace(
            file_name@,
            spec_suffix(),
            Seq::empty(),
        ),
{
    proof {
        reveal_strlit(".toml");
        reveal_strlit("");
        assert(".toml"@ =~= spec_suffix());
        assert(""@ =~= Seq::<char>::empty());
    }
    let chars = crate::text::to_chars(file_name);
    let n = chars.len();
    if n >= 5 && chars[n - 5] == '.' && chars[n - 4] == 't' && chars[n - 3] == 'o' && chars[n - 2]
        == 'm' && chars[n - 1] == 'l' {
        assert(file_name@.skip(file_name@.len() - 5) =~= spec_suffix());
        Some(replace_all(file_name, ".toml", ""))
    } else {
        proof {
            if file_name@.len() >= 5 && file_name@.skip(file_name@.len() - 5) == spec_suffix() {
                let tail = file_name@.skip(file_name@.len() - 5);
                assert(tail[0] == '.' && tail[1] == 't' && tail[2] == 'o' && tail[3] == 'm'
                    && tail[4] == 'l');
            }
        }
        None
    }
}

/// The ending of a manager's file.
pub open spec fn spec_suffix() -> Seq<char> {
    seq!['.', 't', 'o', 'm', 'l']
}

/// Whether the file name ends in `.toml`.
pub open spec fn spec_is_manager_file(file_name: Seq<char>) -> bool {
    file_name.len() >= 5 && file_name.skip(file_name.len() - 5) == spec_suffix()
}

} // verus!
