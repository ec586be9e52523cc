use gitscribe::modes::Mode;
use gitscribe::report::file_analysis_block;
use gitscribe::report::format_contributor_report;
use gitscribe::report::sorted_file_types;
use gitscribe::stats::ContributorStats;
use gitscribe::text::fmt_u64;
use gitscribe::text::join_items;

fn sample_stats() -> ContributorStats {
    ContributorStats {
        name: "Alice".to_string(),
        email: "a@x".to_string(),
        commit_count: 2,
        additions: 10,
        deletions: 3,
        files_changed: vec!["src/a.rs".to_string()],
        most_modified_files: vec![("src/a.rs".to_string(), 2)],
        file_types: vec![("rs".to_string(), 2)],
        largest_commits: vec![(6, 1, "m1".to_string()), (4, 2, "m2".to_string())],
    }
}

#[test]
fn report_renders_every_section_exactly() {
    let s = sample_stats();
    let recent = vec!["c1".to_string(), "c2".to_string()];
    let report = format_contributor_report(&s, &recent);
    let expected = "## Contributor: Alice <a@x>\n\n\
### Statistics\n\
- Total commits: 2\n\
- Lines added: 10\n\
- Lines deleted: 3\n\
- Files modified: 1\n\n\
### Most frequently modified files\n\
- src/a.rs (2 modifications)\n\n\
### File type distribution\n\
- rs: 2 files\n\n\
### Largest contributions\n\
- +6 -1 : m1\n\
- +4 -2 : m2\n\n\
### Recent commits\n\
- c1\n\
- c2\n\n\
### Modified files\n\
- src/a.rs";
    assert_eq!(report, expected);
}

#[test]
fn report_quotes_at_most_five_recent_commits() {
    let s = sample_stats();
    let recent: Vec<String> = (1..=7).map(|i| format!("c{}", i)).collect();
    let report = format_contributor_report(&s, &recent);
    assert!(report.contains("- c5"));
    assert!(!report.contains("- c6"));
}

#[test]
fn empty_lists_keep_their_headers() {
    let s = ContributorStats {
        name: "B".to_string(),
        email: "b@y".to_string(),
        commit_count: 0,
        additions: 0,
        deletions: 0,
        files_changed: Vec::new(),
        most_modified_files: Vec::new(),
        file_types: Vec::new(),
        largest_commits: Vec::new(),
    };
    let report = format_contributor_report(&s, &Vec::new());
    assert!(report.contains("### Most frequently modified files\n"));
    assert!(report.contains("### Largest contributions\n"));
    assert!(report.contains("### Recent commits\n"));
    assert!(report.ends_with("### Modified files\n"));
}

#[test]
fn analysis_block_joins_path_and_explanation() {
    let block = file_analysis_block("src/x.rs", "Adds a cache.");
    assert_eq!(block, "## 📁 src/x.rs\nAdds a cache.");
}

#[test]
fn file_types_display_order_descends() {
    let s = ContributorStats {
        name: "C".to_string(),
        email: "c@z".to_string(),
        commit_count: 1,
        additions: 1,
        deletions: 0,
        files_changed: Vec::new(),
        most_modified_files: Vec::new(),
        file_types: vec![
            ("md".to_string(), 1),
            ("rs".to_string(), 4),
            ("toml".to_string(), 2),
        ],
        largest_commits: Vec::new(),
    };
    let sorted = sorted_file_types(&s);
    assert_eq!(
        sorted,
        vec![
            ("rs".to_string(), 4),
            ("toml".to_string(), 2),
            ("md".to_string(), 1)
        ]
    );
}

#[test]
fn decimal_rendering_is_exact() {
    assert_eq!(fmt_u64(0), "0");
    assert_eq!(fmt_u64(7), "7");
    assert_eq!(fmt_u64(12345), "12345");
    assert_eq!(fmt_u64(u64::MAX), "18446744073709551615");
}

#[test]
fn joining_inserts_the_separator_between_items() {
    let items = vec!["a".to_string(), "b".to_string(), "c".to_string()];
    assert_eq!(join_items(&items, "\n"), "a\nb\nc");
    let one = vec!["solo".to_string()];
    assert_eq!(join_items(&one, "\n"), "solo");
    let none: Vec<String> = Vec::new();
    assert_eq!(join_items(&none, "\n"), "");
}

#[test]
fn mode_descriptions_name_each_flow() {
    assert_eq!(Mode::CommitMessage.description(), "📝 Generate commit message");
    assert_eq!(Mode::FileAnalysis.description(), "🔍 Analyze file changes");
    assert_eq!(
        Mode::ContributorAnalysis.description(),
        "👥 Analyze contributors"
    );
}
