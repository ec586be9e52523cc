//! The three top-level interaction modes.

use vstd::prelude::*;

verus! {

/// One of the three independent top-level flows.
#[derive(Debug, Clone, Copy, PartialEq, Eq, Structural)]
pub enum Mode {
    CommitMessage,
    FileAnalysis,
    ContributorAnalysis,
}

impl Mode {
    /// The menu label shown for this mode.
    pub fn description(&self) -> (r: &'static str)
        ensures
            r@ == match self {
                Mode::CommitMessage => "📝 Generate commit message"@,
                Mode::FileAnalysis => "🔍 Analyze file changes"@,
                Mode::ContributorAnalysis => "👥 Analyze contributors"@,
            },
    {
        match self {
            Mode::CommitMessage => "📝 Generate commit message",
            Mode::FileAnalysis => "🔍 Analyze file changes",
            Mode::ContributorAnalysis => "👥 Analyze contributors",
        }
    }
}

} // verus!
