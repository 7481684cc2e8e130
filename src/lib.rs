//! Finds build-output directories that sit beside a project manifest and
//! decides which of them may be reclaimed.
//!
//! The library holds the decisions only: the caller lists directories, reads
//! metadata, resolves links and removes directories, and hands the results to
//! the state machines defined here.

mod bytes;
pub mod cutoff;
pub mod laws;
pub mod scan;
pub mod size_text;

pub use cutoff::{
    check_target_dir_date, cutoff_from_days, CutoffDecision, CutoffWalk, EntryReport, Evaluation,
    ModTime, WalkState,
};

pub use scan::{
    classify_children, scan_for_target_dirs, Action, Child, ChildKind, Classification, Event,
    Scanner,
};
