use rebos::generation::{Generation, Items};
use rebos::library::{
    history, history_gen, name_from_path, remove_array_duplicates, set_of, History, HistoryMode,
};

fn strings(xs: &[&str]) -> Vec<String> {
    xs.iter().map(|x| x.to_string()).collect()
}

fn pairs(h: &[History]) -> Vec<(HistoryMode, String)> {
    h.iter().map(|e| (e.mode, e.line.clone())).collect()
}

fn generation_of(managers: &[(&str, &[&str])]) -> Generation {
    Generation {
        imports: Vec::new(),
        managers: managers
            .iter()
            .map(|(name, items)| (name.to_string(), Items { items: strings(items) }))
            .collect(),
    }
}

#[test]
fn history_deduplicates_and_skips_common_values() {
    let diff = history(&strings(&["x", "x", "y"]), &strings(&["y"]));
    assert_eq!(pairs(&diff), vec![(HistoryMode::Remove, "x".to_string())]);
}

#[test]
fn history_of_a_list_with_itself_is_empty() {
    let a = strings(&["a", "b", "b", " ", "c"]);
    assert!(history(&a, &a).is_empty());
    assert!(history(&[], &[]).is_empty());
}

#[test]
fn history_lists_removals_before_additions() {
    let diff = history(&strings(&["x", "y", "w"]), &strings(&["y", "z", "z", "q"]));
    assert_eq!(
        pairs(&diff),
        vec![
            (HistoryMode::Remove, "x".to_string()),
            (HistoryMode::Remove, "w".to_string()),
            (HistoryMode::Add, "z".to_string()),
            (HistoryMode::Add, "q".to_string()),
        ]
    );
}

#[test]
fn history_ignores_blank_values() {
    let diff = history(&strings(&["", "  ", "a"]), &strings(&["\t", "\u{a0}\u{3000}", "b"]));
    assert_eq!(
        pairs(&diff),
        vec![(HistoryMode::Remove, "a".to_string()), (HistoryMode::Add, "b".to_string())]
    );
}

#[test]
fn history_keeps_values_with_inner_blanks() {
    let diff = history(&strings(&[" a b "]), &strings(&[]));
    assert_eq!(pairs(&diff), vec![(HistoryMode::Remove, " a b ".to_string())]);
}

#[test]
fn applying_a_history_reaches_the_new_list() {
    let a = strings(&["a", "b", "c", "c"]);
    let b = strings(&["c", "d", "e", "d"]);
    let mut state: Vec<String> = remove_array_duplicates(&a);
    for entry in history(&a, &b) {
        match entry.mode {
            HistoryMode::Add => state.push(entry.line),
            HistoryMode::Remove => state.retain(|x| *x != entry.line),
        }
    }
    state.sort();
    let mut want = remove_array_duplicates(&b);
    want.sort();
    assert_eq!(state, want);
}

#[test]
fn history_in_the_other_direction_is_the_mirror_image() {
    let a = strings(&["a", "b", "c"]);
    let b = strings(&["c", "d"]);
    let mut forward: Vec<(HistoryMode, String)> = pairs(&history(&a, &b))
        .into_iter()
        .map(|(mode, line)| {
            (if mode == HistoryMode::Add { HistoryMode::Remove } else { HistoryMode::Add }, line)
        })
        .collect();
    let mut backward = pairs(&history(&b, &a));
    forward.sort_by(|x, y| x.1.cmp(&y.1));
    backward.sort_by(|x, y| x.1.cmp(&y.1));
    assert_eq!(forward, backward);
    assert_eq!(backward.len(), 3);
}

#[test]
fn remove_array_duplicates_keeps_first_places() {
    assert_eq!(
        remove_array_duplicates(&strings(&["b", "a", "b", "c", "a"])),
        strings(&["b", "a", "c"])
    );
    assert!(remove_array_duplicates(&[]).is_empty());
}

#[test]
fn history_gen_covers_managers_of_both_generations() {
    let old = generation_of(&[("system", &["x", "y"]), ("gone", &["g", "g"])]);
    let new = generation_of(&[("system", &["y", "z"]), ("fresh", &["f", "", "f", " "])]);
    let diff = history_gen(&old, &new);
    assert_eq!(diff.len(), 3);
    assert_eq!(diff[0].0, "system");
    assert_eq!(
        pairs(&diff[0].1),
        vec![(HistoryMode::Remove, "x".to_string()), (HistoryMode::Add, "z".to_string())]
    );
    assert_eq!(diff[1].0, "fresh");
    assert_eq!(pairs(&diff[1].1), vec![(HistoryMode::Add, "f".to_string())]);
    assert_eq!(pairs(&diff[1].1), pairs(&history(&[], &strings(&["f", "", "f", " "]))));
    assert_eq!(diff[2].0, "gone");
    assert_eq!(pairs(&diff[2].1), vec![(HistoryMode::Remove, "g".to_string())]);
}

#[test]
fn history_gen_of_equal_generations_has_empty_diffs() {
    let g = generation_of(&[("system", &["x"])]);
    let h = generation_of(&[("system", &["x"])]);
    let diff = history_gen(&g, &h);
    assert_eq!(diff.len(), 1);
    assert!(diff[0].1.is_empty());
}

#[test]
fn name_from_path_takes_the_last_part() {
    assert_eq!(name_from_path("/home/user/file.toml"), "file.toml");
    assert_eq!(name_from_path("file"), "file");
    assert_eq!(name_from_path("dir/"), "");
    assert_eq!(name_from_path(""), "");
}

#[test]
fn set_of_holds_each_value() {
    let set = set_of(&strings(&["a", "b", "a"]));
    assert!(set.contains("a"));
    assert!(set.contains("b"));
    assert!(!set.contains("c"));
    assert_eq!(set.len(), 2);
    assert!(set_of(&[]).is_empty());
}

#[test]
fn history_gen_of_a_new_manager_with_a_repeated_item_adds_it_once() {
    let old = generation_of(&[]);
    let new = generation_of(&[("system", &["x", "x"])]);
    let diff = history_gen(&old, &new);
    assert_eq!(diff.len(), 1);
    assert_eq!(diff[0].0, "system");
    assert_eq!(pairs(&diff[0].1), vec![(HistoryMode::Add, "x".to_string())]);
    let back = history_gen(&new, &old);
    assert_eq!(back.len(), 1);
    assert_eq!(pairs(&back[0].1), vec![(HistoryMode::Remove, "x".to_string())]);
}
