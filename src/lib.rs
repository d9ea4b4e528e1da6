//! Decision core of an issue-sentiment watcher: event filtering, fence-aware
//! text condensation, the alert ledger, the classifier's prompt and decision
//! rule, and the step-by-step pipeline that a driver runs around them.

pub mod text;
pub mod condense;
pub mod event;
pub mod ledger;
pub mod classify;
pub mod pipeline;
