//! Checks that ask a repository on disk for ancestry.

use vstd::prelude::*;
use crate::commit::CommitId;
use crate::reference::{Reference, views};
use crate::reachability::{
    check, outcome, result_view, is_asked, asks_nothing, records, first_settling_branch,
    branch_settles, lemma_outcome_where_asked, FilterMode, ReachabilityResult, RunError,
};
use crate::search::lemma_least_index;

verus! {

/// `git2::Repository`, an open repository. Nothing is known of what it
/// holds; it is handed on to the question that is put to it.
#[verifier::external_type_specification]
#[verifier::external_body]
pub struct ExRepository(git2::Repository);

/// `git2::Error`, what a question to a repository fails with. Nothing is
/// known of what it holds.
#[verifier::external_type_specification]
#[verifier::external_body]
pub struct ExGitError(git2::Error);

/// Asks `repo` whether `commit` is a descendant of `ancestor`, by
/// `git2::Repository::graph_descendant_of`.
///
/// Nothing is claimed of the answer: it is what the repository on disk says,
/// or the failure to read it.
#[verifier::external_body]
fn descendant_of(repo: &git2::Repository, commit: CommitId, ancestor: CommitId) -> (answer: Result<
    bool,
    git2::Error,
>) {
    let commit = git2::Oid::from_bytes(commit.as_bytes())?;
    let ancestor = git2::Oid::from_bytes(ancestor.as_bytes())?;
    repo.graph_descendant_of(commit, ancestor)
}

/// Decides whether `head` has been pushed, as `check` does, with the commit
/// graph of `repo` to say whether `head` is an ancestor of the commit of a
/// remote-tracking branch.
///
/// The result is the outcome for what the commit graph said, and the one
/// failure is that of a question to the commit graph. Where the check has no
/// question for the commit graph, as under `Tags`, the result is the outcome
/// whatever the repository holds.
pub fn check_repository(
    repo: &git2::Repository,
    head: CommitId,
    references: &[Reference],
    mode: FilterMode,
) -> (result: Result<ReachabilityResult, RunError>)
    ensures
        exists|answers: Seq<Result<bool, RunError>>|
            answers.len() == references.len() && result_view(result) == #[trigger] outcome(
                head,
                views(references@),
                mode,
                answers,
            ),
        result is Err ==> result == Err::<ReachabilityResult, RunError>(
            RunError::AncestryQueryFailure,
        ),
        asks_nothing(head, views(references@), mode) ==> forall|answers: Seq<Result<bool, RunError>>|
            answers.len() == references.len() ==> result_view(result) == #[trigger] outcome(
                head,
                views(references@),
                mode,
                answers,
            ),
{
    let is_ancestor = |ancestor: CommitId, descendant: CommitId| -> (answer: Result<bool, RunError>)
        ensures
            answer is Err ==> answer == Err::<bool, RunError>(RunError::AncestryQueryFailure),
        {
            match descendant_of(repo, descendant, ancestor) {
                Ok(yes) => Ok(yes),
                Err(_) => Err(RunError::AncestryQueryFailure),
            }
        };
    let result = check(head, references, mode, is_ancestor);
    proof {
        let refs = views(references@);
        let answers = choose|answers: Seq<Result<bool, RunError>>|
            records(is_ancestor, head, references@, mode, answers) && result_view(result)
                == #[trigger] outcome(head, refs, mode, answers);
        if result is Err {
            let b = first_settling_branch(head, refs, answers);
            lemma_least_index(branch_settles(head, refs, answers), 0, refs.len() as int);
            assert(branch_settles(head, refs, answers)(b));
            assert(is_asked(head, refs, mode, answers, b));
        }
        if asks_nothing(head, refs, mode) {
            assert forall|other: Seq<Result<bool, RunError>>|
                other.len() == references.len() implies result_view(result) == #[trigger] outcome(
                head,
                refs,
                mode,
                other,
            ) by {
                lemma_outcome_where_asked(head, refs, mode, answers, other);
            }
        }
    }
    result
}

} // verus!
