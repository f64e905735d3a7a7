//! Decides whether a checked-out commit has been pushed: whether it is
//! reachable from a remote-tracking branch, or is the commit that a tag marks.
//!
//! The caller supplies the commit, the references of the repository with the
//! commits they resolve to, and a way to ask whether one commit is an ancestor
//! of another: a function of its own, or an open repository. The library scans
//! the references and names the first one that shows the commit to be pushed.

pub mod commit;
pub mod reference;
pub mod search;
pub mod reachability;
pub mod laws;
pub mod report;
pub mod repository;
