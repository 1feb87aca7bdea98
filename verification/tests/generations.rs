use rebos::generation::legacy::{legacy_1, legacy_2, Hook, Migrate, Packages, Script, Service};
use rebos::generation::order::{count_of, get_order, listed_order, order_duplicates};
use rebos::generation::plan::{
    apply_diffs, apply_full, build_steps, lines_of, ManagerStep, Pass, PassError,
};
use rebos::generation::store::{
    get_hash_from_number, is_clean, latest, list, parse_pointer, rollback, Pointers, StoreError,
};
use rebos::generation::order::keep_listed;
use rebos::generation::{
    append_strings, clone_strings, contains_string, Generation, GenerationUtils, Items,
    ManagerOrder,
};
use rebos::library::{history, HistoryMode};

fn names(xs: &[&str]) -> Vec<String> {
    xs.iter().map(|x| x.to_string()).collect()
}

fn gen_of(imports: &[&str], managers: &[(&str, &[&str])]) -> Generation {
    Generation {
        imports: names(imports),
        managers: managers
            .iter()
            .map(|(name, items)| (name.to_string(), Items { items: names(items) }))
            .collect(),
    }
}

fn shape(g: &Generation) -> Vec<(String, Vec<String>)> {
    g.managers.iter().map(|(n, i)| (n.clone(), i.items.clone())).collect()
}

fn plan_shape(plan: &[ManagerStep]) -> Vec<(String, HistoryMode, Vec<String>)> {
    plan.iter().map(|s| (s.manager.clone(), s.mode, s.items.clone())).collect()
}

fn sorted_items(g: &Generation, name: &str) -> Vec<String> {
    let mut items = g.get(name).map(|i| i.items.clone()).unwrap_or_default();
    items.sort();
    items.dedup();
    items
}

fn log_of(entries: &[(&str, &str)]) -> Vec<(String, String)> {
    entries.iter().map(|(h, m)| (h.to_string(), m.to_string())).collect()
}

#[test]
fn default_generation_is_empty() {
    let g = Generation::default();
    assert!(g.imports.is_empty());
    assert!(g.managers.is_empty());
    assert!(Items::default().items.is_empty());
    let order = ManagerOrder::default();
    assert!(order.begin.is_empty() && order.end.is_empty());
}

#[test]
fn extend_concatenates_imports_and_items() {
    let mut g = gen_of(&["a"], &[("system", &["x"]), ("cargo", &["c"])]);
    let other = gen_of(&["b", "a"], &[("flatpak", &["f"]), ("system", &["y", "x"])]);
    g.extend(other);
    assert_eq!(g.imports, names(&["a", "b", "a"]));
    assert_eq!(
        shape(&g),
        vec![
            ("system".to_string(), names(&["x", "y", "x"])),
            ("cargo".to_string(), names(&["c"])),
            ("flatpak".to_string(), names(&["f"])),
        ]
    );
}

#[test]
fn extend_with_an_empty_generation_changes_nothing() {
    let mut g = gen_of(&["a"], &[("system", &["x"])]);
    g.extend(Generation::default());
    assert_eq!(g.imports, names(&["a"]));
    assert_eq!(shape(&g), vec![("system".to_string(), names(&["x"]))]);
}

#[test]
fn lookups_find_declared_managers() {
    let g = gen_of(&[], &[("system", &["x"]), ("cargo", &[])]);
    assert_eq!(g.position("cargo"), Some(1));
    assert_eq!(g.position("flatpak"), None);
    assert!(g.contains_manager("system"));
    assert!(!g.contains_manager("sys"));
    assert_eq!(g.get("system").unwrap().items, names(&["x"]));
    assert!(g.get("none").is_none());
    assert_eq!(g.manager_names(), names(&["system", "cargo"]));
    let copy = g.duplicate();
    assert_eq!(shape(&copy), shape(&g));
}

#[test]
fn absorb_imports_keeps_only_new_import_names() {
    let mut g = gen_of(&["a", "b"], &[("system", &["x"])]);
    let loaded = vec![
        gen_of(&["c", "a", ""], &[("system", &["y"])]),
        gen_of(&["b", "d"], &[("cargo", &["z"])]),
    ];
    let mut resolved: Vec<String> = Vec::new();
    g.absorb_imports(&mut resolved, &loaded);
    assert_eq!(g.imports, names(&["c", "d"]));
    assert_eq!(resolved, names(&["a", "b"]));
    assert_eq!(
        shape(&g),
        vec![("system".to_string(), names(&["x", "y"])), ("cargo".to_string(), names(&["z"]))]
    );
}

#[test]
fn absorb_imports_leaves_out_what_earlier_rounds_resolved() {
    let mut g = gen_of(&["c"], &[]);
    let mut resolved = names(&["a", "b"]);
    g.absorb_imports(&mut resolved, &vec![gen_of(&["a", "e", "c", "b"], &[("system", &["x"])])]);
    assert_eq!(g.imports, names(&["e"]));
    assert_eq!(resolved, names(&["a", "b", "c"]));
    assert_eq!(shape(&g), vec![("system".to_string(), names(&["x"]))]);
}

#[test]
fn resolve_diamond_gives_same_items_in_either_order() {
    let corpus = vec![
        ("left".to_string(), gen_of(&["base"], &[("system", &["l"])])),
        ("right".to_string(), gen_of(&["base"], &[("system", &["r"]), ("cargo", &["rc"])])),
        ("base".to_string(), gen_of(&[], &[("system", &["b"]), ("cargo", &["bc"])])),
    ];
    let one = gen_of(&["left", "right"], &[("system", &["top"])]).resolve(&corpus);
    let two = gen_of(&["right", "left"], &[("system", &["top"])]).resolve(&corpus);
    assert!(one.imports.is_empty());
    assert!(two.imports.is_empty());
    assert_eq!(sorted_items(&one, "system"), names(&["b", "l", "r", "top"]));
    assert_eq!(sorted_items(&one, "system"), sorted_items(&two, "system"));
    assert_eq!(sorted_items(&one, "cargo"), names(&["bc", "rc"]));
    assert_eq!(sorted_items(&one, "cargo"), sorted_items(&two, "cargo"));
    let mut all_one = one.get("system").unwrap().items.clone();
    let mut all_two = two.get("system").unwrap().items.clone();
    all_one.sort();
    all_two.sort();
    assert_eq!(all_one, all_two);
    let again = one.duplicate().resolve(&corpus);
    assert_eq!(shape(&again), shape(&one));
}

#[test]
fn resolve_treats_missing_imports_as_empty() {
    let corpus: Vec<(String, Generation)> = Vec::new();
    let g = gen_of(&["nowhere"], &[("system", &["x"])]).resolve(&corpus);
    assert!(g.imports.is_empty());
    assert_eq!(shape(&g), vec![("system".to_string(), names(&["x"]))]);
}

#[test]
fn resolve_ends_on_a_circle_of_imports() {
    let corpus = vec![
        ("a".to_string(), gen_of(&["b"], &[("system", &["from_a"])])),
        ("b".to_string(), gen_of(&["a"], &[("system", &["from_b"])])),
    ];
    let g = gen_of(&["a"], &[("system", &["top"])]).resolve(&corpus);
    assert!(g.imports.is_empty());
    assert_eq!(shape(&g), vec![("system".to_string(), names(&["top", "from_a", "from_b"]))]);
    let own = vec![("me".to_string(), gen_of(&["me"], &[("system", &["x"])]))];
    let h = gen_of(&["me"], &[]).resolve(&own);
    assert!(h.imports.is_empty());
    assert_eq!(shape(&h), vec![("system".to_string(), names(&["x"]))]);
    let three = vec![
        ("a".to_string(), gen_of(&["b"], &[("m", &["1"])])),
        ("b".to_string(), gen_of(&["c"], &[("m", &["2"])])),
        ("c".to_string(), gen_of(&["a", "b"], &[("m", &["3"])])),
    ];
    let k = gen_of(&["a"], &[]).resolve(&three);
    assert_eq!(shape(&k), vec![("m".to_string(), names(&["1", "2", "3"]))]);
}

#[test]
fn resolve_without_imports_changes_nothing() {
    let corpus = vec![("a".to_string(), gen_of(&[], &[("system", &["x"])]))];
    let g = gen_of(&[], &[("system", &["y"])]).resolve(&corpus);
    assert_eq!(shape(&g), vec![("system".to_string(), names(&["y"]))]);
}

#[test]
fn order_puts_begin_first_and_end_last() {
    let g = gen_of(&[], &[("a", &[]), ("b", &[]), ("c", &[])]);
    let rules = ManagerOrder { begin: names(&["a"]), end: names(&["b"]) };
    assert_eq!(get_order(&g, Some(&rules)), names(&["a", "c", "b"]));
    let g2 = gen_of(&[], &[("b", &[]), ("c", &[]), ("a", &[])]);
    assert_eq!(get_order(&g2, Some(&rules)), names(&["a", "c", "b"]));
}

#[test]
fn order_without_rules_is_the_declared_order() {
    let g = gen_of(&[], &[("b", &[]), ("a", &[])]);
    assert_eq!(get_order(&g, None), names(&["b", "a"]));
}

#[test]
fn order_leaves_out_unknown_names_and_keeps_repetitions() {
    let g = gen_of(&[], &[("a", &[]), ("c", &[])]);
    let rules = ManagerOrder { begin: names(&["x", "a", "a"]), end: names(&["a", "y"]) };
    assert_eq!(get_order(&g, Some(&rules)), names(&["a", "a", "c", "a"]));
}

#[test]
fn first_build_adds_everything_once() {
    let curr = gen_of(&[], &[("system", &["x", "y"])]);
    let plan = build_steps(None, &curr, None);
    assert_eq!(
        plan_shape(&plan),
        vec![("system".to_string(), HistoryMode::Add, names(&["x", "y"]))]
    );
    assert_eq!(plan_shape(&apply_full(&curr, None)), plan_shape(&plan));
}

#[test]
fn second_build_applies_only_the_differences() {
    let built = gen_of(&[], &[("system", &["x", "y"])]);
    let curr = gen_of(&[], &[("system", &["y", "z"])]);
    let plan = build_steps(Some(&built), &curr, None);
    assert_eq!(
        plan_shape(&plan),
        vec![
            ("system".to_string(), HistoryMode::Remove, names(&["x"])),
            ("system".to_string(), HistoryMode::Add, names(&["z"])),
        ]
    );
}

#[test]
fn build_removes_the_items_of_dropped_managers() {
    let built = gen_of(&[], &[("system", &["x"]), ("old", &["o1", "o2"])]);
    let curr = gen_of(&[], &[("new", &["n"]), ("system", &["x"])]);
    let rules = ManagerOrder { begin: names(&["system"]), end: Vec::new() };
    let plan = apply_diffs(&built, &curr, Some(&rules));
    assert_eq!(
        plan_shape(&plan),
        vec![
            ("system".to_string(), HistoryMode::Remove, names(&[])),
            ("system".to_string(), HistoryMode::Add, names(&[])),
            ("new".to_string(), HistoryMode::Add, names(&["n"])),
            ("old".to_string(), HistoryMode::Remove, names(&["o1", "o2"])),
        ]
    );
}

#[test]
fn rollback_picks_the_commit_at_the_offset() {
    let log = log_of(&[("h3", "third"), ("h2", "second"), ("h1", "first")]);
    assert_eq!(rollback(0, &log), Ok("h3".to_string()));
    assert_eq!(rollback(2, &log), Ok("h1".to_string()));
    assert_eq!(rollback(3, &log), Err(StoreError::RangeError));
    assert_eq!(rollback(-1, &log), Err(StoreError::RangeError));
    assert_eq!(rollback(0, &Vec::new()), Err(StoreError::RangeError));
}

#[test]
fn latest_needs_a_commit() {
    let log = log_of(&[("h2", "second"), ("h1", "first")]);
    assert_eq!(latest(&log), Ok("h2".to_string()));
    assert_eq!(latest(&Vec::new()), Err(StoreError::NoGenerations));
}

#[test]
fn numbers_start_at_one() {
    let log = log_of(&[("h2", "second"), ("h1", "first")]);
    assert_eq!(get_hash_from_number(1, &log), Ok("h2".to_string()));
    assert_eq!(get_hash_from_number(2, &log), Ok("h1".to_string()));
    assert_eq!(get_hash_from_number(0, &log), Err(StoreError::RangeError));
    assert_eq!(get_hash_from_number(3, &log), Err(StoreError::RangeError));
}

#[test]
fn list_marks_current_and_built() {
    let mut log = log_of(&[("h3", "third"), ("h2", "second"), ("h1", "first")]);
    let shown = list(&log, "h3", "h1");
    assert_eq!(
        shown,
        vec![
            ("1".to_string(), "third".to_string(), true, false),
            ("2".to_string(), "second".to_string(), false, false),
            ("3".to_string(), "first".to_string(), false, true),
        ]
    );
    for i in 0..9 {
        log.push((format!("g{}", i), "more".to_string()));
    }
    let shown = list(&log, "", "");
    assert_eq!(shown[9].0, "10");
    assert_eq!(shown[11].0, "12");
    assert!(shown.iter().all(|e| !e.2 && !e.3));
}

#[test]
fn commit_without_changes_moves_no_pointer() {
    let mut p = Pointers { current: Some("h1".to_string()), built: None };
    assert!(!p.commit(""));
    assert_eq!(p.current, Some("h1".to_string()));
    assert_eq!(p.built, None);
    assert!(p.commit("h2"));
    assert_eq!(p.current, Some("h2".to_string()));
    assert_eq!(p.built, None);
}

#[test]
fn build_moves_built_to_current() {
    let mut p = Pointers { current: Some("h2".to_string()), built: Some("h1".to_string()) };
    assert!(p.been_built());
    assert_eq!(p.build(), Ok(()));
    assert_eq!(p.built, Some("h2".to_string()));
    assert_eq!(p.current, Some("h2".to_string()));
    let mut none = Pointers { current: None, built: None };
    assert!(!none.been_built());
    assert_eq!(none.build(), Err(StoreError::NoCurrent));
    assert_eq!(none.built, None);
    none.set_built_hash("b");
    none.set_current_hash("c");
    assert_eq!(none.built, Some("b".to_string()));
    assert_eq!(none.current, Some("c".to_string()));
}

#[test]
fn pointer_files_are_trimmed() {
    assert_eq!(parse_pointer("  abc123\n"), "abc123");
    assert_eq!(parse_pointer("abc 123"), "abc 123");
    assert_eq!(parse_pointer(" \n\t"), "");
    assert!(is_clean(" \n"));
    assert!(is_clean(""));
    assert!(!is_clean(" M gen.toml\n"));
}

#[test]
fn rules_that_repeat_a_name_are_reported() {
    let g = gen_of(&[], &[("a", &[]), ("c", &[])]);
    let rules = ManagerOrder { begin: names(&["x", "a", "a"]), end: names(&["a", "y", "x"]) };
    assert_eq!(listed_order(&g, &rules), names(&["x", "a", "a", "c", "a", "y", "x"]));
    assert_eq!(
        order_duplicates(&g, &rules),
        vec![("x".to_string(), 2), ("a".to_string(), 3)]
    );
    let plain = ManagerOrder { begin: names(&["a"]), end: names(&["c"]) };
    assert!(order_duplicates(&g, &plain).is_empty());
    assert_eq!(count_of(&names(&["a", "b", "a"]), "a"), 2);
    assert_eq!(count_of(&names(&["a", "b", "a"]), "z"), 0);
}

#[test]
fn lines_of_picks_the_lines_of_one_mode() {
    let diff = history(&names(&["x", "y", "w"]), &names(&["y", "z"]));
    assert_eq!(lines_of(&diff, HistoryMode::Remove), names(&["x", "w"]));
    assert_eq!(lines_of(&diff, HistoryMode::Add), names(&["z"]));
}

#[test]
fn a_pass_that_succeeds_moves_built() {
    let curr = gen_of(&[], &[("system", &["x"]), ("cargo", &["c"])]);
    let mut pass = Pass::new(build_steps(None, &curr, None));
    let mut pointers = Pointers { current: Some("h2".to_string()), built: Some("h1".to_string()) };
    assert!(!pass.complete());
    assert_eq!(pass.finish(&mut pointers), Err(PassError::Unfinished));
    assert_eq!(pass.next_step().unwrap().manager, "system");
    pass.report(true);
    assert_eq!(pass.next_step().unwrap().manager, "cargo");
    pass.report(true);
    assert!(pass.next_step().is_none());
    pass.report(false);
    assert!(pass.complete());
    assert_eq!(pass.finish(&mut pointers), Ok(()));
    assert_eq!(pointers.built, Some("h2".to_string()));
}

#[test]
fn a_pass_that_fails_stops_and_moves_nothing() {
    let curr = gen_of(&[], &[("system", &["x"]), ("cargo", &["c"])]);
    let mut pass = Pass::new(build_steps(None, &curr, None));
    let mut pointers = Pointers { current: Some("h2".to_string()), built: Some("h1".to_string()) };
    pass.report(true);
    pass.report(false);
    assert!(pass.next_step().is_none());
    assert_eq!(pass.done, 1);
    pass.report(true);
    assert_eq!(pass.done, 1);
    assert!(!pass.complete());
    assert_eq!(pass.finish(&mut pointers), Err(PassError::ManagerCommandFailed));
    assert_eq!(pointers.built, Some("h1".to_string()));
    assert_eq!(pointers.current, Some("h2".to_string()));
}

#[test]
fn a_pass_without_a_current_generation_cannot_finish() {
    let pass = Pass::new(Vec::new());
    let mut pointers = Pointers { current: None, built: None };
    assert!(pass.complete());
    assert_eq!(pass.finish(&mut pointers), Err(PassError::NoCurrent));
    assert_eq!(pointers.built, None);
}

#[test]
fn legacy_generations_become_three_managers() {
    let first = legacy_1::Generation {
        imports: names(&["i"]),
        pkgs: names(&["p"]),
        flatpaks: names(&["f1", "f2"]),
        crates: Vec::new(),
    };
    let g = first.migrate();
    assert_eq!(g.imports, names(&["i"]));
    assert_eq!(
        shape(&g),
        vec![
            ("system".to_string(), names(&["p"])),
            ("flatpak".to_string(), names(&["f1", "f2"])),
            ("cargo".to_string(), names(&[])),
        ]
    );
    let mut second = legacy_2::Generation::default();
    second.packages = Packages { pkgs: names(&["p"]) };
    second.crates.pkgs.push("c".to_string());
    second.groups.push("wheel".to_string());
    let g = second.migrate();
    assert!(g.imports.is_empty());
    assert_eq!(
        shape(&g),
        vec![
            ("system".to_string(), names(&["p"])),
            ("flatpak".to_string(), names(&[])),
            ("cargo".to_string(), names(&["c"])),
        ]
    );
    assert!(shape(&legacy_1::Generation::default().migrate()).iter().all(|m| m.1.is_empty()));
}

#[test]
fn legacy_parts_default_to_empty() {
    assert!(Packages::default().pkgs.is_empty());
    let script = Script::default();
    assert!(script.name.is_empty() && script.pre.is_empty() && script.run.is_empty());
    let service = Service::default();
    assert!(service.name.is_empty() && !service.enabled);
    let hook = Hook::default();
    assert!(hook.pre.is_empty() && hook.post.is_empty());
}

#[test]
fn extend_in_either_order_gives_the_same_items() {
    let x = gen_of(&["i"], &[("system", &["x1", "x2"]), ("cargo", &["c"])]);
    let y = gen_of(&["j"], &[("flatpak", &["f"]), ("system", &["y1"])]);
    let mut one = gen_of(&[], &[("system", &["s"])]);
    one.extend(x.duplicate());
    one.extend(y.duplicate());
    let mut two = gen_of(&[], &[("system", &["s"])]);
    two.extend(y);
    two.extend(x);
    for name in ["system", "cargo", "flatpak", "none"] {
        assert_eq!(one.contains_manager(name), two.contains_manager(name));
        assert_eq!(sorted_items(&one, name), sorted_items(&two, name));
    }
    assert_eq!(sorted_items(&one, "system"), names(&["s", "x1", "x2", "y1"]));
    assert_eq!(one.manager_names(), names(&["system", "cargo", "flatpak"]));
    assert_eq!(two.manager_names(), names(&["system", "flatpak", "cargo"]));
}

#[test]
fn every_manager_is_in_the_order_whatever_the_rules() {
    let g = gen_of(&[], &[("a", &[]), ("b", &[]), ("c", &[]), ("d", &[])]);
    let rules = ManagerOrder { begin: names(&["d", "zz", "b"]), end: names(&["b", "a"]) };
    let order = get_order(&g, Some(&rules));
    assert_eq!(order, names(&["d", "b", "c", "b", "a"]));
    for name in g.manager_names() {
        assert!(order.contains(&name));
    }
}

#[test]
fn string_list_helpers() {
    let mut list = names(&["a"]);
    append_strings(&mut list, &names(&["b", "a"]));
    assert_eq!(list, names(&["a", "b", "a"]));
    append_strings(&mut list, &Vec::new());
    assert_eq!(list, names(&["a", "b", "a"]));
    assert_eq!(clone_strings(&list), list);
    assert!(contains_string(&list, "b"));
    assert!(!contains_string(&list, "c"));
    assert!(!contains_string(&list, "A"));
    assert!(!contains_string(&Vec::new(), ""));
    assert_eq!(keep_listed(&names(&["x", "a", "y", "a"]), &names(&["a", "y"])), names(&["a", "y", "a"]));
}

#[test]
fn merge_items_appends_or_declares() {
    let mut g = gen_of(&["i"], &[("system", &["x"])]);
    g.merge_items("system", &names(&["y"]));
    g.merge_items("cargo", &names(&["c"]));
    g.merge_items("empty", &Vec::new());
    assert_eq!(g.imports, names(&["i"]));
    assert_eq!(
        shape(&g),
        vec![
            ("system".to_string(), names(&["x", "y"])),
            ("cargo".to_string(), names(&["c"])),
            ("empty".to_string(), names(&[])),
        ]
    );
    let mut h = Generation::default();
    h.extend_from(&g);
    h.extend_from(&g);
    assert_eq!(h.imports, names(&["i", "i"]));
    assert_eq!(h.get("system").unwrap().items, names(&["x", "y", "x", "y"]));
    assert_eq!(h.manager_names(), names(&["system", "cargo", "empty"]));
}

#[test]
fn distinct_managers_are_told_from_repeated_ones() {
    assert!(Generation::default().has_distinct_managers());
    assert!(gen_of(&[], &[("a", &[]), ("b", &[]), ("c", &[])]).has_distinct_managers());
    assert!(!gen_of(&[], &[("a", &[]), ("b", &[]), ("a", &["x"])]).has_distinct_managers());
    let mut g = gen_of(&[], &[("a", &[])]);
    g.extend(gen_of(&[], &[("a", &["x"]), ("b", &[])]));
    assert!(g.has_distinct_managers());
}

#[test]
fn a_manager_of_both_generations_gets_one_removal_then_one_addition() {
    let built = gen_of(&[], &[("other", &["o"]), ("system", &["x", "y", "x", ""])]);
    let curr = gen_of(&[], &[("system", &["y", "z", "z"]), ("other", &["o"])]);
    let plan = apply_diffs(&built, &curr, None);
    let mine: Vec<(String, HistoryMode, Vec<String>)> =
        plan_shape(&plan).into_iter().filter(|s| s.0 == "system").collect();
    assert_eq!(
        mine,
        vec![
            ("system".to_string(), HistoryMode::Remove, names(&["x"])),
            ("system".to_string(), HistoryMode::Add, names(&["z"])),
        ]
    );
    let twice = ManagerOrder { begin: names(&["system", "system"]), end: Vec::new() };
    let repeated = apply_diffs(&built, &curr, Some(&twice));
    assert_eq!(plan_shape(&repeated).iter().filter(|s| s.0 == "system").count(), 4);
}
