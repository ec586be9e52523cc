use gitscribe::stats::aggregate;
use gitscribe::stats::extension_of;
use gitscribe::stats::sort_desc_by_count;
use gitscribe::stats::CommitRecord;

fn commit(additions: u64, deletions: u64, message: &str, paths: &[&str]) -> CommitRecord {
    CommitRecord {
        additions,
        deletions,
        message: message.to_string(),
        paths: paths.iter().map(|p| p.to_string()).collect(),
    }
}

#[test]
fn totals_and_count_accumulate() {
    let commits = vec![
        commit(10, 2, "first", &["src/a.rs"]),
        commit(3, 1, "second", &["src/a.rs", "src/b.rs"]),
    ];
    let s = aggregate("Alice", "alice@example.com", &commits);
    assert_eq!(s.name, "Alice");
    assert_eq!(s.email, "alice@example.com");
    assert_eq!(s.commit_count, 2);
    assert_eq!(s.additions, 13);
    assert_eq!(s.deletions, 3);
}

#[test]
fn files_changed_is_unique_in_first_touch_order() {
    let commits = vec![
        commit(1, 0, "a", &["src/b.rs", "src/a.rs"]),
        commit(1, 0, "b", &["src/a.rs", "docs/x.md"]),
    ];
    let s = aggregate("A", "a@x", &commits);
    assert_eq!(s.files_changed, vec!["src/b.rs", "src/a.rs", "docs/x.md"]);
}

#[test]
fn most_modified_files_counts_descend() {
    let commits = vec![
        commit(1, 0, "a", &["src/a.rs"]),
        commit(1, 0, "b", &["src/a.rs", "src/b.rs"]),
        commit(1, 0, "c", &["src/a.rs", "src/b.rs", "src/c.rs"]),
    ];
    let s = aggregate("A", "a@x", &commits);
    assert_eq!(
        s.most_modified_files,
        vec![
            ("src/a.rs".to_string(), 3),
            ("src/b.rs".to_string(), 2),
            ("src/c.rs".to_string(), 1)
        ]
    );
}

#[test]
fn every_most_modified_path_is_a_changed_file() {
    let commits = vec![
        commit(1, 0, "a", &["x", "y"]),
        commit(1, 0, "b", &["y", "z", "y"]),
    ];
    let s = aggregate("A", "a@x", &commits);
    for (path, _) in &s.most_modified_files {
        assert!(s.files_changed.contains(path));
    }
    let distinct: std::collections::HashSet<&String> =
        s.most_modified_files.iter().map(|e| &e.0).collect();
    assert!(s.files_changed.len() >= distinct.len());
}

#[test]
fn file_types_group_by_extension() {
    let commits = vec![
        commit(1, 0, "a", &["src/a.rs", "src/b.rs", "README.md"]),
        commit(1, 0, "b", &["Makefile"]),
    ];
    let s = aggregate("A", "a@x", &commits);
    assert_eq!(
        s.file_types,
        vec![
            ("rs".to_string(), 2),
            ("md".to_string(), 1),
            ("(no extension)".to_string(), 1)
        ]
    );
}

#[test]
fn extension_uses_final_dot_of_basename() {
    assert_eq!(extension_of("src/main.rs"), "rs");
    assert_eq!(extension_of("lib/foo.tar.gz"), "gz");
    assert_eq!(extension_of("a.dir/plain"), "(no extension)");
    assert_eq!(extension_of("Makefile"), "(no extension)");
    assert_eq!(extension_of(".gitignore"), "gitignore");
}

#[test]
fn largest_commits_keep_the_top_five() {
    let commits = vec![
        commit(1, 0, "one", &["f"]),
        commit(2, 0, "two", &["f"]),
        commit(3, 0, "three", &["f"]),
        commit(4, 0, "four", &["f"]),
        commit(5, 0, "five", &["f"]),
        commit(6, 0, "six", &["f"]),
    ];
    let s = aggregate("A", "a@x", &commits);
    assert_eq!(s.largest_commits.len(), 5);
    assert_eq!(
        s.largest_commits,
        vec![
            (6, 0, "six".to_string()),
            (5, 0, "five".to_string()),
            (4, 0, "four".to_string()),
            (3, 0, "three".to_string()),
            (2, 0, "two".to_string())
        ]
    );
}

#[test]
fn tied_size_keeps_the_earlier_commit() {
    let commits = vec![
        commit(5, 0, "a", &["f"]),
        commit(4, 0, "b", &["f"]),
        commit(3, 0, "c", &["f"]),
        commit(2, 0, "d", &["f"]),
        commit(1, 0, "earlier", &["f"]),
        commit(1, 0, "later", &["f"]),
    ];
    let s = aggregate("A", "a@x", &commits);
    assert_eq!(s.largest_commits.len(), 5);
    assert!(s.largest_commits.contains(&(1, 0, "earlier".to_string())));
    assert!(!s.largest_commits.contains(&(1, 0, "later".to_string())));
}

#[test]
fn largest_sizes_never_exceed_totals() {
    let commits = vec![
        commit(7, 3, "a", &["f"]),
        commit(2, 2, "b", &["g"]),
        commit(9, 1, "c", &["h"]),
    ];
    let s = aggregate("A", "a@x", &commits);
    let retained: u64 = s.largest_commits.iter().map(|e| e.0 + e.1).sum();
    assert!(retained <= s.additions + s.deletions);
}

#[test]
fn empty_commit_set_yields_empty_views() {
    let commits: Vec<CommitRecord> = Vec::new();
    let s = aggregate("A", "a@x", &commits);
    assert_eq!(s.commit_count, 0);
    assert_eq!(s.additions, 0);
    assert_eq!(s.deletions, 0);
    assert!(s.files_changed.is_empty());
    assert!(s.most_modified_files.is_empty());
    assert!(s.file_types.is_empty());
    assert!(s.largest_commits.is_empty());
}

#[test]
fn sorting_counts_descends_and_keeps_rows() {
    let table = vec![
        ("md".to_string(), 1),
        ("rs".to_string(), 5),
        ("toml".to_string(), 2),
    ];
    let sorted = sort_desc_by_count(&table);
    assert_eq!(
        sorted,
        vec![
            ("rs".to_string(), 5),
            ("toml".to_string(), 2),
            ("md".to_string(), 1)
        ]
    );
}
