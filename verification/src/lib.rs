//! Verified engine of a git "bare clone + worktrees" manager.
//!
//! The library holds the logic that is worth proving: parsing the porcelain
//! worktree listing, validating untrusted branch/path input, normalizing
//! human-friendly durations, deciding which worktrees are safe to prune, and
//! resolving the managed repository from filesystem evidence. Subprocess and
//! filesystem access stay with the caller, which feeds their results in as
//! plain values.

pub mod addflow;
pub mod bootstrap;
pub mod bytes;
pub mod discovery;
pub mod duration;
pub mod merge;
pub mod model;
pub mod path_safety;
pub mod porcelain;
pub mod shellcfg;
pub mod timefmt;
pub mod urls;
