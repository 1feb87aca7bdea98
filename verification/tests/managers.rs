use rebos::cli::CLIBoolean;
use rebos::git::{lines, parse_log, split_once};
use rebos::lock::{proc_id, Lock, LockError};
use rebos::management::{
    default_arg_sep, default_many_args, manager_of_file, Action, Manager, ManagerConfig,
    ManagerError,
};
use rebos::text::{
    from_chars, is_blank, is_whitespace, join, replace_all, split_whitespace, to_chars,
    to_decimal, trim,
};

fn words(xs: &[&str]) -> Vec<String> {
    xs.iter().map(|x| x.to_string()).collect()
}

fn manager(many_args: bool, arg_sep: &str) -> Manager {
    Manager {
        add: "pkg install #:?".to_string(),
        remove: "pkg remove #:? --yes".to_string(),
        sync: Some("pkg sync".to_string()),
        upgrade: None,
        list: Some("pkg list".to_string()),
        config: ManagerConfig { many_args, arg_sep: arg_sep.to_string() },
        hook_name: "pkg".to_string(),
        plural_name: "packages".to_string(),
    }
}

fn show(plan: &[Action]) -> Vec<String> {
    plan.iter()
        .map(|a| match a {
            Action::Hook(name) => format!("hook:{}", name),
            Action::Command(line) => format!("run:{}", line),
        })
        .collect()
}

#[test]
fn add_with_many_args_is_one_call() {
    let plan = manager(true, " ").add(&words(&["x", "y"]));
    assert_eq!(show(&plan), words(&["hook:pre_pkg_add", "run:pkg install x y", "hook:post_pkg_add"]));
}

#[test]
fn add_one_by_one_skips_blank_items() {
    let plan = manager(false, " ").add(&words(&["x", " ", "y"]));
    assert_eq!(
        show(&plan),
        words(&["hook:pre_pkg_add", "run:pkg install x", "run:pkg install y", "hook:post_pkg_add"])
    );
}

#[test]
fn remove_uses_the_separator() {
    let plan = manager(true, ",").remove(&words(&["x", "y", "z"]));
    assert_eq!(
        show(&plan),
        words(&["hook:pre_pkg_remove", "run:pkg remove x,y,z --yes", "hook:post_pkg_remove"])
    );
}

#[test]
fn empty_item_list_runs_only_the_hooks() {
    assert_eq!(
        show(&manager(true, " ").add(&[])),
        words(&["hook:pre_pkg_add", "hook:post_pkg_add"])
    );
    assert_eq!(
        show(&manager(false, " ").remove(&[])),
        words(&["hook:pre_pkg_remove", "hook:post_pkg_remove"])
    );
}

#[test]
fn sync_and_upgrade_run_the_command_if_there_is_one() {
    let m = manager(true, " ");
    assert_eq!(show(&m.sync()), words(&["hook:pre_pkg_sync", "run:pkg sync", "hook:post_pkg_sync"]));
    assert_eq!(show(&m.upgrade()), words(&["hook:pre_pkg_upgrade", "hook:post_pkg_upgrade"]));
}

#[test]
fn list_splits_the_output_into_words() {
    let m = manager(true, " ");
    assert_eq!(m.list(Some(" a  b\nc\t\n")), Ok(words(&["a", "b", "c"])));
    assert_eq!(m.list(Some("")), Ok(Vec::new()));
    assert_eq!(m.list(None), Err(ManagerError::ListFailed));
}

#[test]
fn list_without_a_list_command_is_an_error() {
    let mut m = manager(true, " ");
    m.list = None;
    assert_eq!(m.list(Some("a b")), Err(ManagerError::NoListCommand));
    assert_eq!(m.list(None), Err(ManagerError::NoListCommand));
}

#[test]
fn get_other_is_what_is_installed_and_not_declared() {
    let mut m = manager(true, " ");
    let installed = words(&["a", "b", "c", "b"]);
    assert_eq!(m.get_other(&words(&["b", "z"]), &installed), words(&["a", "c"]));
    assert_eq!(m.get_other(&[], &installed), installed);
    m.list = None;
    assert!(m.get_other(&words(&["b"]), &installed).is_empty());
}

#[test]
fn check_config_accepts_safe_hook_names() {
    let mut m = manager(true, " ");
    m.hook_name = "Az09-_.".to_string();
    assert_eq!(m.check_config(), Ok(()));
    m.hook_name = String::new();
    assert_eq!(m.check_config(), Ok(()));
}

#[test]
fn check_config_names_the_fixed_hook_name() {
    let mut m = manager(true, " ");
    m.hook_name = "my hook/é".to_string();
    assert_eq!(
        m.check_config(),
        Err(vec![
            "Field 'hook_name' must be filename safe! (Fixed version: my_hook__)".to_string()
        ])
    );
    assert_eq!(m.fixed_hook_name(), "my_hook__");
}

#[test]
fn set_plural_name_changes_only_the_name() {
    let mut m = manager(true, " ");
    m.set_plural_name("things");
    assert_eq!(m.plural_name, "things");
    assert_eq!(m.hook_name, "pkg");
    assert_eq!(m.add, "pkg install #:?");
}

#[test]
fn manager_config_defaults() {
    assert!(default_many_args());
    assert_eq!(default_arg_sep(), " ");
    let config = ManagerConfig::default();
    assert!(!config.many_args);
    assert_eq!(config.arg_sep, "");
}

#[test]
fn manager_files_end_in_toml() {
    assert_eq!(manager_of_file("system.toml"), Some("system".to_string()));
    assert_eq!(manager_of_file("a.toml.toml"), Some("a".to_string()));
    assert_eq!(manager_of_file(".toml"), Some(String::new()));
    assert_eq!(manager_of_file("system.tom"), None);
    assert_eq!(manager_of_file("toml"), None);
}

#[test]
fn join_args_puts_the_separator_between_items() {
    let m = manager(true, ", ");
    assert_eq!(m.join_args(&words(&["a", "b", "c"])), "a, b, c");
    assert_eq!(m.join_args(&words(&["a"])), "a");
    assert_eq!(m.join_args(&[]), "");
    assert_eq!(join(&words(&["", ""]), "-"), "-");
}

#[test]
fn replace_all_replaces_from_the_left() {
    assert_eq!(replace_all("a #:? b #:?", "#:?", "x y"), "a x y b x y");
    assert_eq!(replace_all("aaa", "aa", "b"), "ba");
    assert_eq!(replace_all("abc", "", "x"), "abc");
    assert_eq!(replace_all("abc", "abcd", "x"), "abc");
    assert_eq!(replace_all("", "a", "x"), "");
    assert_eq!(replace_all("#:#:?", "#:?", "é"), "#:é");
}

#[test]
fn characters_round_trip() {
    assert_eq!(to_chars("héllo"), vec!['h', 'é', 'l', 'l', 'o']);
    assert_eq!(from_chars(&vec!['a', 'ß', 'c']), "aßc");
    assert_eq!(from_chars(&to_chars("")), "");
}

#[test]
fn white_space_follows_unicode() {
    for c in [' ', '\t', '\n', '\r', '\u{b}', '\u{c}', '\u{85}', '\u{a0}', '\u{1680}', '\u{2000}',
        '\u{200a}', '\u{2028}', '\u{2029}', '\u{202f}', '\u{205f}', '\u{3000}']
    {
        assert!(is_whitespace(c));
        assert!(c.is_whitespace());
    }
    for c in ['a', '0', '\u{200b}', '\u{feff}', '\u{1c}', '_'] {
        assert!(!is_whitespace(c));
        assert!(!c.is_whitespace());
    }
    for code in 0..=0x10FFFFu32 {
        if let Some(c) = char::from_u32(code) {
            assert_eq!(is_whitespace(c), c.is_whitespace());
        }
    }
    assert!(is_blank(""));
    assert!(is_blank(" \t\u{3000}"));
    assert!(!is_blank(" a "));
}

#[test]
fn trim_and_words_agree_with_the_standard_library() {
    for text in ["", "  ", " a b ", "a", "\ta\u{a0}b\n c", "x  ", "  x", "a\u{200b}b"] {
        assert_eq!(trim(text), text.trim());
        let want: Vec<String> = text.split_whitespace().map(|w| w.to_string()).collect();
        assert_eq!(split_whitespace(text), want);
    }
}

#[test]
fn decimal_digits() {
    assert_eq!(to_decimal(0), "0");
    assert_eq!(to_decimal(7), "7");
    assert_eq!(to_decimal(10), "10");
    assert_eq!(to_decimal(1234567890), "1234567890");
    assert_eq!(to_decimal(usize::MAX), usize::MAX.to_string());
}

#[test]
fn log_lines_become_commits() {
    let log = parse_log("abc|first message\ndef|second|with bar\nno separator\n|empty hash\nghi|");
    assert_eq!(
        log,
        vec![
            ("abc".to_string(), "first message".to_string()),
            ("def".to_string(), "second|with bar".to_string()),
            ("".to_string(), "empty hash".to_string()),
            ("ghi".to_string(), "".to_string()),
        ]
    );
    assert!(parse_log("").is_empty());
}

#[test]
fn lines_agree_with_the_standard_library() {
    for text in ["", "a", "a\n", "a\nb", "\n", "\n\n", "a\r\nb\r\n", "a\n\nb", "a\rb\n", "\r\n"] {
        let want: Vec<String> = text.lines().map(|l| l.to_string()).collect();
        assert_eq!(lines(text), want);
    }
}

#[test]
fn split_once_splits_at_the_first_separator() {
    assert_eq!(split_once("a|b|c", '|'), Some(("a".to_string(), "b|c".to_string())));
    assert_eq!(split_once("|", '|'), Some((String::new(), String::new())));
    assert_eq!(split_once("abc", '|'), None);
    assert_eq!(split_once("", '|'), None);
}

#[test]
fn lock_is_held_by_one_process() {
    let mut lock = Lock::new();
    assert!(!lock.is_lock_on());
    assert_eq!(lock.lock_on("rebos_1_10"), Ok(()));
    assert!(lock.is_lock_on());
    assert_eq!(lock.lock_on("rebos_2_11"), Err(LockError::LockHeld));
    assert_eq!(lock.holder, Some("rebos_1_10".to_string()));
    assert_eq!(lock.lock_on("rebos_1_10"), Ok(()));
    assert_eq!(lock.lock_off("rebos_2_11"), Err(LockError::LockHeld));
    assert!(lock.is_lock_on());
    assert_eq!(lock.lock_off("rebos_1_10"), Ok(()));
    assert!(!lock.is_lock_on());
}

#[test]
fn releasing_a_free_lock_changes_nothing() {
    let mut lock = Lock::new();
    assert_eq!(lock.lock_off("rebos_1_10"), Ok(()));
    assert!(!lock.is_lock_on());
}

#[test]
fn force_unlock_frees_the_lock_of_any_owner() {
    let mut lock = Lock { holder: Some("rebos_9_9".to_string()) };
    lock.lock_off_force();
    assert!(!lock.is_lock_on());
    lock.lock_off_force();
    assert!(!lock.is_lock_on());
    assert_eq!(lock.lock_on("rebos_2_11"), Ok(()));
}

#[test]
fn process_identifier_holds_number_and_start() {
    assert_eq!(proc_id(4242, 1700000000), "rebos_4242_1700000000");
    assert_eq!(proc_id(0, 0), "rebos_0_0");
    assert_eq!(proc_id(u32::MAX, u64::MAX), format!("rebos_{}_{}", u32::MAX, u64::MAX));
}

#[test]
fn cli_boolean_is_a_bool() {
    assert!(CLIBoolean::Yes.bool());
    assert!(!CLIBoolean::No.bool());
}
