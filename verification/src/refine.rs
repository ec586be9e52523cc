//! The commit-message refinement state machine.
//!
//! The machine drives the generate -> present -> (regenerate | retype |
//! confirm | cancel) loop, with a nested confirmation sub-loop after a type
//! edit. The outer loop performs the blocking work (backend calls, terminal
//! input, the commit itself) and feeds each outcome back in as an event; the
//! machine only decides. Committing is the single irreversible action: it is
//! emitted at most once per run, and only on an explicit confirmation.

use vstd::prelude::*;
use crate::draft::retyped;
use crate::draft::apply_type;

verus! {

/// The machine's state. `Committed`, `Cancelled` and `Clean` are terminal.
/// `Clean` means the working tree had nothing pending, a benign outcome
/// distinct from `Cancelled`.
#[derive(Debug)]
pub enum RefineState {
    Drafting,
    Presenting(String),
    TypeSelection(String),
    ConfirmEdited(String),
    Committed(String),
    Cancelled,
    Clean,
}

/// A choice on the presented draft.
#[derive(Debug, Clone, Copy, PartialEq, Eq, Structural)]
pub enum DraftChoice {
    Regenerate,
    EditType,
    Confirm,
    Cancel,
}

/// A choice on the re-presented, type-edited message.
#[derive(Debug, Clone, Copy, PartialEq, Eq, Structural)]
pub enum ConfirmChoice {
    Confirm,
    StartOver,
    Cancel,
}

/// What the outside world reports back to the machine.
#[derive(Debug)]
pub enum RefineEvent {
    /// The generation backend returned a draft.
    Generated(String),
    /// The user chose on the presented draft.
    Chose(DraftChoice),
    /// The user picked a commit-type token.
    TypePicked(String),
    /// The user chose on the edited message.
    Confirmed(ConfirmChoice),
}

/// What the loop must do next. Only `Commit` has a durable side effect.
#[derive(Debug)]
pub enum RefineAction {
    /// Invoke the generation backend with the current diff.
    GenerateDraft,
    /// Present the draft and the draft menu.
    ShowDraft,
    /// Present the commit-type menu.
    AskType,
    /// Re-present the edited message and the confirmation menu.
    ShowEdited,
    /// Stage and commit with this message, then stop.
    Commit(String),
    /// Report the benign "clean, nothing to commit" status.
    ReportClean,
    /// Leave the loop with no side effect.
    Finish,
    /// The event does not apply to the current state; nothing to do.
    Ignore,
}

/// Spec-level mirror of `RefineState`, over character sequences.
pub enum StateModel {
    Drafting,
    Presenting(Seq<char>),
    TypeSelection(Seq<char>),
    ConfirmEdited(Seq<char>),
    Committed(Seq<char>),
    Cancelled,
    Clean,
}

/// Spec-level mirror of `RefineEvent`.
pub enum EventModel {
    Generated(Seq<char>),
    Chose(DraftChoice),
    TypePicked(Seq<char>),
    Confirmed(ConfirmChoice),
}

/// Spec-level mirror of `RefineAction`.
pub enum ActionModel {
    GenerateDraft,
    ShowDraft,
    AskType,
    ShowEdited,
    Commit(Seq<char>),
    ReportClean,
    Finish,
    Ignore,
}

impl View for RefineState {
    type V = StateModel;

    open spec fn view(&self) -> StateModel {
        match self {
            RefineState::Drafting => StateModel::Drafting,
            RefineState::Presenting(m) => StateModel::Presenting(m@),
            RefineState::TypeSelection(m) => StateModel::TypeSelection(m@),
            RefineState::ConfirmEdited(m) => StateModel::ConfirmEdited(m@),
            RefineState::Committed(m) => StateModel::Committed(m@),
            RefineState::Cancelled => StateModel::Cancelled,
            RefineState::Clean => StateModel::Clean,
        }
    }
}

impl View for RefineEvent {
    type V = EventModel;

    open spec fn view(&self) -> EventModel {
        match self {
            RefineEvent::Generated(m) => EventModel::Generated(m@),
            RefineEvent::Chose(c) => EventModel::Chose(*c),
            RefineEvent::TypePicked(t) => EventModel::TypePicked(t@),
            RefineEvent::Confirmed(c) => EventModel::Confirmed(*c),
        }
    }
}

impl View for RefineAction {
    type V = ActionModel;

    open spec fn view(&self) -> ActionModel {
        match self {
            RefineAction::GenerateDraft => ActionModel::GenerateDraft,
            RefineAction::ShowDraft => ActionModel::ShowDraft,
            RefineAction::AskType => ActionModel::AskType,
            RefineAction::ShowEdited => ActionModel::ShowEdited,
            RefineAction::Commit(m) => ActionModel::Commit(m@),
            RefineAction::ReportClean => ActionModel::ReportClean,
            RefineAction::Finish => ActionModel::Finish,
            RefineAction::Ignore => ActionModel::Ignore,
        }
    }
}

pub open spec fn is_terminal(s: StateModel) -> bool {
    s is Committed || s is Cancelled || s is Clean
}

/// The transition function. An event that does not apply to the state leaves
/// it unchanged and asks for nothing; terminal states absorb every event.
pub open spec fn step_model(s: StateModel, e: EventModel) -> (StateModel, ActionModel) {
    match (s, e) {
        (StateModel::Drafting, EventModel::Generated(m)) => (
            StateModel::Presenting(m),
            ActionModel::ShowDraft,
        ),
        (StateModel::Presenting(m), EventModel::Chose(c)) => match c {
            DraftChoice::Regenerate => (StateModel::Drafting, ActionModel::GenerateDraft),
            DraftChoice::EditType => (StateModel::TypeSelection(m), ActionModel::AskType),
            DraftChoice::Confirm => (StateModel::Committed(m), ActionModel::Commit(m)),
            DraftChoice::Cancel => (StateModel::Cancelled, ActionModel::Finish),
        },
        (StateModel::TypeSelection(m), EventModel::TypePicked(t)) => (
            StateModel::ConfirmEdited(retyped(t, m)),
            ActionModel::ShowEdited,
        ),
        (StateModel::ConfirmEdited(m), EventModel::Confirmed(c)) => match c {
            ConfirmChoice::Confirm => (StateModel::Committed(m), ActionModel::Commit(m)),
            ConfirmChoice::StartOver => (StateModel::Drafting, ActionModel::GenerateDraft),
            ConfirmChoice::Cancel => (StateModel::Cancelled, ActionModel::Finish),
        },
        (s0, _) => (s0, ActionModel::Ignore),
    }
}

/// Where a run begins. With nothing pending the machine never starts: it
/// reports the clean status and generates nothing.
pub open spec fn start_model(has_changes: bool) -> (StateModel, ActionModel) {
    if has_changes {
        (StateModel::Drafting, ActionModel::GenerateDraft)
    } else {
        (StateModel::Clean, ActionModel::ReportClean)
    }
}

/// Begin a run. The caller reports whether the working tree has at least one
/// pending change.
pub fn start(has_changes: bool) -> (r: (RefineState, RefineAction))
    ensures
        (r.0@, r.1@) == start_model(has_changes),
{
    if has_changes {
        (RefineState::Drafting, RefineAction::GenerateDraft)
    } else {
        (RefineState::Clean, RefineAction::ReportClean)
    }
}

/// Feed one event to the machine.
pub fn step(s: RefineState, e: RefineEvent) -> (r: (RefineState, RefineAction))
    ensures
        (r.0@, r.1@) == step_model(s@, e@),
{
    match (s, e) {
        (RefineState::Drafting, RefineEvent::Generated(m)) => (
            RefineState::Presenting(m),
            RefineAction::ShowDraft,
        ),
        (RefineState::Presenting(m), RefineEvent::Chose(c)) => match c {
            DraftChoice::Regenerate => (RefineState::Drafting, RefineAction::GenerateDraft),
            DraftChoice::EditType => (RefineState::TypeSelection(m), RefineAction::AskType),
            DraftChoice::Confirm => {
                let a = m.clone();
                (RefineState::Committed(m), RefineAction::Commit(a))
            },
            DraftChoice::Cancel => (RefineState::Cancelled, RefineAction::Finish),
        },
        (RefineState::TypeSelection(m), RefineEvent::TypePicked(t)) => {
            let edited = apply_type(t.as_str(), m.as_str());
            (RefineState::ConfirmEdited(edited), RefineAction::ShowEdited)
        },
        (RefineState::ConfirmEdited(m), RefineEvent::Confirmed(c)) => match c {
            ConfirmChoice::Confirm => {
                let a = m.clone();
                (RefineState::Committed(m), RefineAction::Commit(a))
            },
            ConfirmChoice::StartOver => (RefineState::Drafting, RefineAction::GenerateDraft),
            ConfirmChoice::Cancel => (RefineState::Cancelled, RefineAction::Finish),
        },
        (s0, _) => (s0, RefineAction::Ignore),
    }
}

/// The commit-type menu: labelled conventional types; the token before each
/// label's colon is what a pick carries into `TypePicked`.
pub fn commit_type_labels() -> (r: Vec<String>)
    ensures
        r@.len() == 7,
        r@[0]@ == "feat: ✨ New feature"@,
        r@[1]@ == "fix: 🐛 Bug fix"@,
        r@[2]@ == "docs: 📚 Documentation"@,
        r@[3]@ == "style: 💅 Formatting"@,
        r@[4]@ == "refactor: ♻️ Code restructure"@,
        r@[5]@ == "test: 🧪 Testing"@,
        r@[6]@ == "chore: 🔧 Maintenance"@,
{
    let mut r: Vec<String> = Vec::new();
    r.push(String::from_str("feat: ✨ New feature"));
    r.push(String::from_str("fix: 🐛 Bug fix"));
    r.push(String::from_str("docs: 📚 Documentation"));
    r.push(String::from_str("style: 💅 Formatting"));
    r.push(String::from_str("refactor: ♻️ Code restructure"));
    r.push(String::from_str("test: 🧪 Testing"));
    r.push(String::from_str("chore: 🔧 Maintenance"));
    r
}

/// How many `Commit` actions a run from `s` through `events` emits.
pub open spec fn commits_in(s: StateModel, events: Seq<EventModel>) -> nat
    decreases events.len(),
{
    if events.len() == 0 {
        0
    } else {
        let (s1, a) = step_model(s, events[0]);
        (if a is Commit {
            1nat
        } else {
            0nat
        }) + commits_in(s1, events.skip(1))
    }
}

/// How many `GenerateDraft` actions a run from `s` through `events` emits.
pub open spec fn generations_in(s: StateModel, events: Seq<EventModel>) -> nat
    decreases events.len(),
{
    if events.len() == 0 {
        0
    } else {
        let (s1, a) = step_model(s, events[0]);
        (if a is GenerateDraft {
            1nat
        } else {
            0nat
        }) + generations_in(s1, events.skip(1))
    }
}

/// A terminal state absorbs every event: no run from it emits a commit or a
/// backend call.
pub proof fn lemma_terminal_emits_nothing(s: StateModel, events: Seq<EventModel>)
    requires
        is_terminal(s),
    ensures
        commits_in(s, events) == 0,
        generations_in(s, events) == 0,
    decreases events.len(),
{
    if events.len() > 0 {
        let (s1, a) = step_model(s, events[0]);
        assert(s1 == s);
        lemma_terminal_emits_nothing(s, events.skip(1));
    }
}

/// A commit is emitted only on an explicit confirmation, and lands the
/// machine in the terminal `Committed` state holding that very message.
pub proof fn lemma_commit_only_on_confirm(s: StateModel, e: EventModel)
    ensures
        forall|m: Seq<char>|
            step_model(s, e).1 == ActionModel::Commit(m) ==> {
                &&& step_model(s, e).0 == StateModel::Committed(m)
                &&& (s == StateModel::Presenting(m) && e == EventModel::Chose(DraftChoice::Confirm))
                    || (s == StateModel::ConfirmEdited(m) && e == EventModel::Confirmed(
                    ConfirmChoice::Confirm,
                ))
            },
{
}

/// Whatever events arrive, a run that does not begin in `Committed` commits
/// at most once.
pub proof fn lemma_at_most_one_commit(s: StateModel, events: Seq<EventModel>)
    requires
        !(s is Committed),
    ensures
        commits_in(s, events) <= 1,
    decreases events.len(),
{
    if events.len() > 0 {
        let (s1, a) = step_model(s, events[0]);
        if a is Commit {
            lemma_terminal_emits_nothing(s1, events.skip(1));
        } else {
            assert(!(s1 is Committed));
            lemma_at_most_one_commit(s1, events.skip(1));
        }
    }
}

/// With zero pending changes the flow never calls the generation backend and
/// never commits: the run starts terminal, in the benign `Clean` state.
pub proof fn lemma_clean_tree_runs_nothing(events: Seq<EventModel>)
    ensures
        start_model(false).0 == StateModel::Clean,
        start_model(false).1 == ActionModel::ReportClean,
        commits_in(StateModel::Clean, events) == 0,
        generations_in(StateModel::Clean, events) == 0,
{
    lemma_terminal_emits_nothing(StateModel::Clean, events);
}

/// Regeneration discards the prior draft: after regenerating from a draft
/// `d1` and receiving the fresh draft `d2`, a type edit carries forward the
/// description of `d2`, never of the stale `d1`.
pub proof fn lemma_regenerate_discards(d1: Seq<char>, d2: Seq<char>, t: Seq<char>)
    ensures
        ({
            let (s1, _) = step_model(
                StateModel::Presenting(d1),
                EventModel::Chose(DraftChoice::Regenerate),
            );
            let (s2, _) = step_model(s1, EventModel::Generated(d2));
            let (s3, _) = step_model(s2, EventModel::Chose(DraftChoice::EditType));
            let (s4, _) = step_model(s3, EventModel::TypePicked(t));
            s4 == StateModel::ConfirmEdited(retyped(t, d2))
        }),
{
}

} // verus!
