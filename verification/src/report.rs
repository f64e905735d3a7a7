//! What a run says to the user and to the process that started it.

use vstd::prelude::*;
use crate::commit::{CommitId, hex_text};
use crate::reference::{is_remote_branch_name, starts_with};
use crate::reachability::{ReachabilityResult, RunError, Verdict, result_view};

verus! {

/// The line that tells the user what a check of `head` found.
///
/// A reference that showed `head` to be pushed is called a remote branch
/// where its name lies in the namespace of remote-tracking branches, and a
/// remote tag elsewhere.
pub open spec fn message_text(head: CommitId, verdict: Verdict) -> Seq<char> {
    match verdict {
        Verdict::Pushed(name) => {
            if is_remote_branch_name(name) {
                "Local HEAD ("@ + hex_text(head@) + ") is pushed (found in remote branch: "@ + name
                    + ")."@
            } else {
                "Local HEAD ("@ + hex_text(head@) + ") is pushed (found in remote tag: "@ + name
                    + ")."@
            }
        },
        Verdict::NotPushed => "Local HEAD ("@ + hex_text(head@) + ") is NOT pushed to remote."@,
    }
}

/// The exit status that stands for the end of a run: 0 where the commit is
/// pushed, 2 where it is not, 1 for every error.
pub open spec fn exit_status(result: Result<Verdict, RunError>) -> int {
    match result {
        Ok(Verdict::Pushed(_)) => 0,
        Ok(Verdict::NotPushed) => 2,
        Err(_) => 1,
    }
}

/// The line that tells the user what a check of `head` found.
pub fn message(head: &CommitId, answer: &ReachabilityResult) -> (text: String)
    ensures
        text@ == message_text(*head, answer@),
{
    let mut text = String::new();
    text.append("Local HEAD (");
    text.append(head.to_hex().as_str());
    match answer {
        ReachabilityResult::Pushed(name) => {
            if starts_with(name.as_str(), "refs/remotes/") {
                text.append(") is pushed (found in remote branch: ");
            } else {
                text.append(") is pushed (found in remote tag: ");
            }
            text.append(name.as_str());
            text.append(").");
        },
        ReachabilityResult::NotPushed => {
            text.append(") is NOT pushed to remote.");
        },
    }
    assert(text@ =~= message_text(*head, answer@));
    text
}

/// The exit status for the end of a run.
pub fn exit_code(result: &Result<ReachabilityResult, RunError>) -> (code: i32)
    ensures
        code == exit_status(result_view(*result)),
{
    match result {
        Ok(ReachabilityResult::Pushed(_)) => 0,
        Ok(ReachabilityResult::NotPushed) => 2,
        Err(_) => 1,
    }
}

} // verus!
