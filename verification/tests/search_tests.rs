use blink_core::search::{matches_query, GlobalSearch, MAX_RESULTS};

#[test]
fn a_flooded_search_returns_at_most_the_bound() {
    let mut s = GlobalSearch::new();
    s.start_search("file");
    let mut offered = 0;
    for i in 0..10_000 {
        let name = format!("file-{}", i);
        let path = format!("/big/file-{}", i);
        s.offer(&name, &path, false, 1, "now".to_string(), false);
        offered += 1;
    }
    assert_eq!(offered, 10_000);
    let results = s.results_snapshot();
    assert!(results.len() <= MAX_RESULTS);
    assert_eq!(results.len(), MAX_RESULTS);
}

#[test]
fn matching_is_case_insensitive() {
    let mut s = GlobalSearch::new();
    s.start_search("RePoRt");
    assert!(s.offer("Annual-REPORT.pdf", "/d/Annual-REPORT.pdf", false, 9, "t".to_string(), false));
    assert!(!s.offer("notes.txt", "/d/notes.txt", false, 9, "t".to_string(), false));
    let results = s.results_snapshot();
    assert_eq!(results.len(), 1);
    assert_eq!(results[0].name, "Annual-REPORT.pdf");
    assert_eq!(results[0].icon_name, "application-pdf");
}

#[test]
fn hidden_names_only_match_when_asked_for() {
    let mut s = GlobalSearch::new();
    s.start_search("secret");
    assert!(!s.offer(".secret", "/h/.secret", false, 1, "t".to_string(), false));
    assert!(s.offer(".secret", "/h/.secret", false, 1, "t".to_string(), true));
}

#[test]
fn cancelling_stops_accumulation_but_keeps_what_was_found() {
    let mut s = GlobalSearch::new();
    s.start_search("a");
    assert!(s.offer("alpha", "/d/alpha", false, 1, "t".to_string(), false));
    s.cancel();
    assert!(!s.should_continue());
    assert!(!s.offer("again", "/d/again", false, 1, "t".to_string(), false));
    assert_eq!(s.results_snapshot().len(), 1);
    assert_eq!(s.match_count(), 1);
}

#[test]
fn a_new_search_supersedes_the_old_one() {
    let mut s = GlobalSearch::new();
    s.start_search("x");
    assert!(s.offer("x1", "/d/x1", false, 1, "t".to_string(), false));
    s.start_search("y");
    assert_eq!(s.results_snapshot().len(), 0);
    assert_eq!(s.match_count(), 0);
    assert!(s.should_continue());
}

#[test]
fn noisy_system_directories_are_not_descended_into() {
    assert!(!GlobalSearch::should_descend("/proc"));
    assert!(!GlobalSearch::should_descend("/proc/123"));
    assert!(!GlobalSearch::should_descend("/sys/devices"));
    assert!(!GlobalSearch::should_descend("/var/cache/apt"));
    assert!(!GlobalSearch::should_descend("/.snapshots"));
    assert!(GlobalSearch::should_descend("/home/user"));
    // a name that merely starts with the same letters is fine
    assert!(GlobalSearch::should_descend("/procurement"));
    assert!(GlobalSearch::should_descend("/tmpfiles"));
}

#[test]
fn directories_match_with_zero_size() {
    let mut s = GlobalSearch::new();
    s.start_search("dir");
    assert!(s.offer("mydir", "/d/mydir", true, 4096, "t".to_string(), false));
    let results = s.results_snapshot();
    assert_eq!(results[0].size, 0);
    assert!(results[0].is_directory);
    assert_eq!(results[0].icon_name, "folder");
}

#[test]
fn the_view_filter_uses_the_same_match_rule() {
    assert!(matches_query("Invoice-2024.pdf", "voice"));
    assert!(!matches_query("Invoice-2024.pdf", "voucher"));
    // an empty query shows everything
    assert!(matches_query("anything", ""));
}

#[test]
fn an_idle_engine_matches_nothing() {
    let mut s = GlobalSearch::new();
    assert!(!s.offer("alpha", "/d/alpha", false, 1, "t".to_string(), false));
    assert!(!s.should_continue());
}
