//! Core logic of an interactive assistant for a git repository: a refinement
//! state machine that turns a generated commit-message draft into a committed
//! message, a contributor browse loop, contributor statistics aggregation, and
//! the pure text formatting that feeds a generation backend.
//!
//! Repository access, terminal rendering and the generation backend itself are
//! external collaborators: they live outside this library and hand it plain
//! values.

pub mod browse;
pub mod draft;
pub mod modes;
pub mod refine;
pub mod report;
pub mod stats;
pub mod text;
