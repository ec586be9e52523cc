use gitscribe::browse::browse_step;
use gitscribe::browse::build_contributor_menu;
use gitscribe::browse::contributor_menu_item;
use gitscribe::browse::BrowseOutcome;
use gitscribe::stats::ContributorStats;

fn named(name: &str, email: &str, commits: u64) -> ContributorStats {
    ContributorStats {
        name: name.to_string(),
        email: email.to_string(),
        commit_count: commits,
        additions: 0,
        deletions: 0,
        files_changed: Vec::new(),
        most_modified_files: Vec::new(),
        file_types: Vec::new(),
        largest_commits: Vec::new(),
    }
}

#[test]
fn exit_sentinel_terminates_without_analysis() {
    let list = vec![
        named("A", "a@x", 1),
        named("B", "b@y", 2),
        named("C", "c@z", 3),
    ];
    let menu = build_contributor_menu(&list);
    assert_eq!(menu.len(), 4);
    assert_eq!(menu[3], "❌ Exit");
    let outcome = browse_step(list.len(), 3);
    assert_eq!(outcome, BrowseOutcome::Done);
}

#[test]
fn contributor_index_maps_into_the_list() {
    let list = vec![named("A", "a@x", 1), named("B", "b@y", 2)];
    assert_eq!(browse_step(list.len(), 0), BrowseOutcome::Detail(0));
    assert_eq!(browse_step(list.len(), 1), BrowseOutcome::Detail(1));
    assert_eq!(browse_step(list.len(), 2), BrowseOutcome::Done);
}

#[test]
fn menu_lines_show_identity_and_commit_count() {
    let c = named("Bob", "bob@example.com", 42);
    assert_eq!(contributor_menu_item(&c), "Bob <bob@example.com> (42 commits)");
}
