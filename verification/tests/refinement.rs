use gitscribe::refine::commit_type_labels;
use gitscribe::refine::start;
use gitscribe::refine::step;
use gitscribe::refine::ConfirmChoice;
use gitscribe::refine::DraftChoice;
use gitscribe::refine::RefineAction;
use gitscribe::refine::RefineEvent;
use gitscribe::refine::RefineState;

#[test]
fn clean_tree_never_generates_or_commits() {
    let (s, a) = start(false);
    assert!(matches!(s, RefineState::Clean));
    assert!(matches!(a, RefineAction::ReportClean));
    let (s, a) = step(s, RefineEvent::Chose(DraftChoice::Confirm));
    assert!(matches!(s, RefineState::Clean));
    assert!(matches!(a, RefineAction::Ignore));
}

#[test]
fn pending_changes_start_a_draft() {
    let (s, a) = start(true);
    assert!(matches!(s, RefineState::Drafting));
    assert!(matches!(a, RefineAction::GenerateDraft));
}

#[test]
fn confirm_commits_current_draft_once() {
    let (s, _) = start(true);
    let (s, a) = step(s, RefineEvent::Generated("feat: add cache".to_string()));
    assert!(matches!(s, RefineState::Presenting(_)));
    assert!(matches!(a, RefineAction::ShowDraft));
    let (s, a) = step(s, RefineEvent::Chose(DraftChoice::Confirm));
    match &a {
        RefineAction::Commit(m) => assert_eq!(m, "feat: add cache"),
        other => panic!("expected a commit action, got {:?}", other),
    }
    match &s {
        RefineState::Committed(m) => assert_eq!(m, "feat: add cache"),
        other => panic!("expected the committed state, got {:?}", other),
    }
    let (s, a) = step(s, RefineEvent::Chose(DraftChoice::Confirm));
    assert!(matches!(s, RefineState::Committed(_)));
    assert!(matches!(a, RefineAction::Ignore));
}

#[test]
fn cancel_finishes_without_side_effect() {
    let (s, _) = start(true);
    let (s, _) = step(s, RefineEvent::Generated("fix: a bug".to_string()));
    let (s, a) = step(s, RefineEvent::Chose(DraftChoice::Cancel));
    assert!(matches!(s, RefineState::Cancelled));
    assert!(matches!(a, RefineAction::Finish));
}

#[test]
fn type_edit_carries_description_forward() {
    let (s, _) = start(true);
    let (s, _) = step(s, RefineEvent::Generated("feat: add retry logic".to_string()));
    let (s, a) = step(s, RefineEvent::Chose(DraftChoice::EditType));
    assert!(matches!(s, RefineState::TypeSelection(_)));
    assert!(matches!(a, RefineAction::AskType));
    let (s, a) = step(s, RefineEvent::TypePicked("fix".to_string()));
    assert!(matches!(a, RefineAction::ShowEdited));
    match &s {
        RefineState::ConfirmEdited(m) => assert_eq!(m, "fix: add retry logic"),
        other => panic!("expected the edited message, got {:?}", other),
    }
    let (s, a) = step(s, RefineEvent::Confirmed(ConfirmChoice::Confirm));
    match &a {
        RefineAction::Commit(m) => assert_eq!(m, "fix: add retry logic"),
        other => panic!("expected a commit action, got {:?}", other),
    }
    assert!(matches!(s, RefineState::Committed(_)));
}

#[test]
fn regeneration_discards_prior_draft() {
    let (s, _) = start(true);
    let (s, _) = step(s, RefineEvent::Generated("feat: old stale text".to_string()));
    let (s, a) = step(s, RefineEvent::Chose(DraftChoice::Regenerate));
    assert!(matches!(s, RefineState::Drafting));
    assert!(matches!(a, RefineAction::GenerateDraft));
    let (s, _) = step(s, RefineEvent::Generated("fix: brand new text".to_string()));
    let (s, _) = step(s, RefineEvent::Chose(DraftChoice::EditType));
    let (s, _) = step(s, RefineEvent::TypePicked("chore".to_string()));
    match &s {
        RefineState::ConfirmEdited(m) => assert_eq!(m, "chore: brand new text"),
        other => panic!("expected the edited message, got {:?}", other),
    }
}

#[test]
fn start_over_returns_to_drafting() {
    let (s, _) = start(true);
    let (s, _) = step(s, RefineEvent::Generated("docs: readme".to_string()));
    let (s, _) = step(s, RefineEvent::Chose(DraftChoice::EditType));
    let (s, _) = step(s, RefineEvent::TypePicked("style".to_string()));
    let (s, a) = step(s, RefineEvent::Confirmed(ConfirmChoice::StartOver));
    assert!(matches!(s, RefineState::Drafting));
    assert!(matches!(a, RefineAction::GenerateDraft));
}

#[test]
fn mismatched_event_is_ignored() {
    let (s, a) = step(RefineState::Drafting, RefineEvent::Chose(DraftChoice::EditType));
    assert!(matches!(s, RefineState::Drafting));
    assert!(matches!(a, RefineAction::Ignore));
}

#[test]
fn type_menu_lists_the_conventional_types() {
    let labels = commit_type_labels();
    assert_eq!(labels.len(), 7);
    assert_eq!(labels[0], "feat: ✨ New feature");
    assert_eq!(labels[6], "chore: 🔧 Maintenance");
}
