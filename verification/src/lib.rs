//! watcher-knight: finds machine-checkable invariant annotations embedded in
//! source-code comments, resolves which files each one cares about, narrows
//! them to the ones a change touches, and aggregates the verdicts of an
//! external judge into a pass/fail report.
pub mod filter;
pub mod marker;
pub mod prompt;
pub mod report;
pub mod scope;
pub mod text;
pub mod verdict;
