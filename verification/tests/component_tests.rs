use fs_search::{entry_matches, is_someone_working, join_str, set_state, Frontier};

#[test]
fn matching_folds_case_both_ways() {
    assert!(entry_matches("C.RS", ".rs"));
    assert!(entry_matches("c.rs", ".RS"));
    assert!(entry_matches("MiXeD.Rs", "mixed"));
}

#[test]
fn matching_rejects_absent_pattern() {
    assert!(!entry_matches("b.txt", ".rs"));
    assert!(!entry_matches("", "a"));
}

#[test]
fn matching_is_substring_anywhere() {
    assert!(entry_matches("archive.rs.bak", ".rs"));
    assert!(entry_matches("exact", "exact"));
}

#[test]
fn empty_pattern_matches_everything() {
    assert!(entry_matches("anything", ""));
    assert!(entry_matches("", ""));
}

#[test]
fn join_appends_separator_and_name() {
    assert_eq!(join_str("root", "a.rs"), "root/a.rs".to_string());
    assert_eq!(join_str("", "x"), "/x".to_string());
}

#[test]
fn frontier_pops_from_the_top() {
    let mut frontier: Frontier<u64> = Frontier::with_seed(1);
    frontier.push_many(vec![2, 3, 4]);
    assert_eq!(frontier.len(), 4);
    let batch = frontier.pop_batch(2);
    assert_eq!(batch, vec![3, 4]);
    assert_eq!(frontier.len(), 2);
}

#[test]
fn frontier_pop_batch_returns_fewer_when_short() {
    let mut frontier: Frontier<u64> = Frontier::new();
    frontier.push_many(vec![7]);
    let batch = frontier.pop_batch(24);
    assert_eq!(batch, vec![7]);
    assert!(frontier.is_empty());
    let empty = frontier.pop_batch(24);
    assert!(empty.is_empty());
}

#[test]
fn worker_slots_report_activity() {
    let mut states = vec![false, false, false];
    assert!(!is_someone_working(&states));
    set_state(&mut states, 1, true);
    assert!(is_someone_working(&states));
    set_state(&mut states, 1, false);
    assert!(!is_someone_working(&states));
}

#[test]
fn worker_slot_out_of_range_is_ignored() {
    let mut states = vec![false];
    set_state(&mut states, 5, true);
    assert_eq!(states, vec![false]);
    assert!(!is_someone_working(&states));
}
