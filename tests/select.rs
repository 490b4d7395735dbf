use zst_compress::select::{decide_selection, select_entries, should_process_file};

fn s(v: &str) -> Option<String> {
    Some(v.to_string())
}

#[test]
fn no_patterns_selects_everything() {
    assert!(should_process_file("anything", &None, &None, &None, &None));
    assert!(should_process_file("", &None, &None, &None, &None));
}

#[test]
fn glob_inclusion_filters() {
    assert!(should_process_file("large_test.bin", &s("large_test.bin"), &None, &None, &None));
    assert!(!should_process_file("dir", &s("large_test.bin"), &None, &None, &None));
    assert!(should_process_file("data.bin", &s("*.bin"), &None, &None, &None));
    assert!(!should_process_file("data.txt", &s("*.bin"), &None, &None, &None));
}

#[test]
fn regex_inclusion_filters() {
    assert!(should_process_file("data42", &None, &None, &s("[0-9]+$"), &None));
    assert!(!should_process_file("data", &None, &None, &s("[0-9]+$"), &None));
}

#[test]
fn either_inclusion_pattern_suffices() {
    assert!(should_process_file("a.txt", &s("*.bin"), &None, &s("txt"), &None));
    assert!(should_process_file("a.bin", &s("*.bin"), &None, &s("txt"), &None));
    assert!(!should_process_file("a.doc", &s("*.bin"), &None, &s("txt"), &None));
}

#[test]
fn exclusion_wins_over_inclusion() {
    assert!(!should_process_file("a.bin", &s("*.bin"), &s("a*"), &None, &None));
    assert!(!should_process_file("a.bin", &s("*.bin"), &None, &None, &s("^a")));
    assert!(!should_process_file("a.bin", &None, &None, &s("bin"), &s("bin")));
    assert!(should_process_file("b.bin", &s("*.bin"), &s("a*"), &None, &s("^a")));
}

#[test]
fn malformed_patterns_match_nothing() {
    // A malformed exclusion rejects nothing.
    assert!(should_process_file("a[", &None, &s("a["), &None, &None));
    assert!(should_process_file("a(", &None, &None, &None, &s("a(")));
    // A malformed inclusion accepts nothing.
    assert!(!should_process_file("a[", &s("a["), &None, &None, &None));
    assert!(!should_process_file("a(", &None, &None, &s("a("), &None));
}

#[test]
fn decide_selection_rule() {
    assert!(decide_selection(None, None, None, None));
    assert!(!decide_selection(Some(true), Some(true), None, None));
    assert!(!decide_selection(Some(true), None, None, Some(true)));
    assert!(!decide_selection(Some(false), None, None, None));
    assert!(!decide_selection(None, None, Some(false), None));
    assert!(decide_selection(Some(false), Some(false), Some(true), Some(false)));
}

#[test]
fn select_entries_keeps_order() {
    let names: Vec<String> =
        vec!["b.bin".to_string(), "a.txt".to_string(), "c.bin".to_string(), "x.bin".to_string()];
    let r = select_entries(&names, &s("*.bin"), &s("x*"), &None, &None);
    assert_eq!(r, vec![0, 2]);
    let all = select_entries(&names, &None, &None, &None, &None);
    assert_eq!(all, vec![0, 1, 2, 3]);
    let none = select_entries(&Vec::new(), &None, &None, &None, &None);
    assert!(none.is_empty());
}
