use fs_search::{search, FsEntry, FsNode, SearchData};

fn file(name: &str) -> FsEntry {
    FsEntry { name: name.to_string(), node: FsNode::File }
}

fn dir(name: &str, entries: Vec<FsEntry>) -> FsEntry {
    FsEntry { name: name.to_string(), node: FsNode::Dir { entries } }
}

fn denied(name: &str) -> FsEntry {
    FsEntry { name: name.to_string(), node: FsNode::DeniedDir }
}

fn run(root: &str, pattern: &str, tree: FsNode, threads: usize) -> Vec<String> {
    let data = SearchData {
        path: root.to_string(),
        pattern: pattern.to_string(),
        file_type: None,
    };
    let mut found = search(data, tree, threads);
    found.sort();
    found
}

#[test]
fn empty_root_yields_no_matches() {
    let tree = FsNode::Dir { entries: vec![] };
    let found = run("root", ".rs", tree, 1);
    assert!(found.is_empty());
}

#[test]
fn case_insensitive_scenario() {
    let tree = FsNode::Dir {
        entries: vec![
            file("a.rs"),
            file("b.txt"),
            dir("sub", vec![file("c.RS")]),
        ],
    };
    let found = run("root", ".rs", tree, 1);
    assert_eq!(found, vec!["root/a.rs".to_string(), "root/sub/c.RS".to_string()]);
}

#[test]
fn unreadable_root_yields_empty_list() {
    let found = run("root", ".rs", FsNode::DeniedDir, 1);
    assert!(found.is_empty());
}

#[test]
fn empty_pattern_returns_every_entry() {
    let tree = FsNode::Dir {
        entries: vec![
            file("a.rs"),
            file("b.txt"),
            dir("sub", vec![file("c.RS")]),
        ],
    };
    let found = run("root", "", tree, 1);
    assert_eq!(
        found,
        vec![
            "root/a.rs".to_string(),
            "root/b.txt".to_string(),
            "root/sub".to_string(),
            "root/sub/c.RS".to_string(),
        ]
    );
}

fn sample_tree() -> FsNode {
    FsNode::Dir {
        entries: vec![
            file("main.rs"),
            file("notes.md"),
            dir(
                "src",
                vec![file("lib.RS"), dir("nested", vec![file("deep.rs"), file("other.c")])],
            ),
            denied("locked.rs"),
        ],
    }
}

#[test]
fn repeated_search_returns_same_set() {
    let first = run("top", ".rs", sample_tree(), 1);
    let second = run("top", ".rs", sample_tree(), 1);
    assert_eq!(first, second);
}

#[test]
fn worker_count_does_not_change_results() {
    let single = run("top", ".rs", sample_tree(), 1);
    let many = run("top", ".rs", sample_tree(), 8);
    assert_eq!(single, many);
}

#[test]
fn matching_directory_is_still_descended() {
    let tree = FsNode::Dir { entries: vec![dir("srs", vec![file("inner.rs")])] };
    let found = run("root", "rs", tree, 1);
    assert_eq!(found, vec!["root/srs".to_string(), "root/srs/inner.rs".to_string()]);
}

#[test]
fn denied_directory_is_matched_but_not_entered() {
    let found = run("top", ".rs", FsNode::Dir { entries: vec![denied("locked.rs")] }, 1);
    assert_eq!(found, vec!["top/locked.rs".to_string()]);
}

#[test]
fn deep_tree_terminates_with_match_at_bottom() {
    let mut node = FsNode::Dir { entries: vec![file("needle.rs")] };
    for i in 0..40usize {
        node = FsNode::Dir {
            entries: vec![FsEntry { name: format!("level{i}"), node }],
        };
    }
    let found = run("root", "needle", node, 4);
    assert_eq!(found.len(), 1);
    assert!(found[0].starts_with("root/level39/level38/"));
    assert!(found[0].ends_with("/needle.rs"));
}

#[test]
fn wide_tree_pops_in_batches() {
    let mut entries = Vec::new();
    for i in 0..100usize {
        entries.push(dir(&format!("d{i:03}"), vec![file(&format!("f{i:03}.log"))]));
    }
    let tree = FsNode::Dir { entries };
    let found = run("root", ".log", tree, 3);
    assert_eq!(found.len(), 100);
    assert_eq!(found[0], "root/d000/f000.log".to_string());
    assert_eq!(found[99], "root/d099/f099.log".to_string());
}

#[test]
fn only_the_final_component_is_matched() {
    let tree = FsNode::Dir { entries: vec![dir("sub", vec![file("x.txt")])] };
    let found = run("root", "sub", tree, 1);
    assert_eq!(found, vec!["root/sub".to_string()]);
}

#[test]
fn results_lie_inside_the_root() {
    let found = run("some/where", "e", sample_tree(), 2);
    assert!(!found.is_empty());
    for p in &found {
        assert!(p.starts_with("some/where/"));
    }
}
