//! What holds of every check, proved of `outcome`.

use vstd::prelude::*;
use crate::commit::CommitId;
use crate::reference::{
    Reference, ReferenceView, views, is_remote_branch_name, is_tag_name, lemma_namespaces_disjoint,
};
use crate::reachability::{
    FilterMode, RunError, ReachabilityResult, Verdict, check, outcome, result_view, determines,
    branch_contains, branch_fails, branch_settles, tag_marks, tag_settles, first_settling_branch,
    first_marking_tag, is_asked, asks_nothing, unsettled_before, unmarked_before, lemma_first_settling_branch,
    lemma_first_marking_tag, lemma_outcome_where_asked,
};
use crate::search::{lemma_least_index, lemma_least_index_is};

verus! {

/// A remote-tracking branch that points at `head` shows `head` to be pushed,
/// under `Branches` and under `All`: the check names it, unless a
/// remote-tracking branch before it has ended the scan.
pub proof fn law_branch_at_head_is_pushed(
    head: CommitId,
    refs: Seq<ReferenceView>,
    mode: FilterMode,
    answers: Seq<Result<bool, RunError>>,
    i: int,
)
    requires
        0 <= i < refs.len(),
        mode == FilterMode::Branches || mode == FilterMode::All,
        is_remote_branch_name(refs[i].name),
        refs[i].target == Some(head),
        unsettled_before(head, refs, answers, i),
    ensures
        outcome(head, refs, mode, answers) == Ok::<Verdict, RunError>(
            Verdict::Pushed(refs[i].name),
        ),
{
    lemma_first_settling_branch(head, refs, answers, i);
}

/// A remote-tracking branch that points at a commit of which `head` is an
/// ancestor shows `head` to be pushed, under `Branches` and under `All`: the
/// check names it, unless a remote-tracking branch before it has ended the
/// scan.
pub proof fn law_branch_above_head_is_pushed(
    head: CommitId,
    refs: Seq<ReferenceView>,
    mode: FilterMode,
    answers: Seq<Result<bool, RunError>>,
    i: int,
)
    requires
        0 <= i < refs.len(),
        mode == FilterMode::Branches || mode == FilterMode::All,
        is_remote_branch_name(refs[i].name),
        refs[i].target is Some,
        answers[i] == Ok::<bool, RunError>(true),
        unsettled_before(head, refs, answers, i),
    ensures
        outcome(head, refs, mode, answers) == Ok::<Verdict, RunError>(
            Verdict::Pushed(refs[i].name),
        ),
{
    lemma_first_settling_branch(head, refs, answers, i);
}

/// Tags show `head` to be pushed by pointing at `head` itself, never by
/// ancestry: under `Tags`, where no tag points at `head`, `head` is not
/// pushed, whatever the commit graph says of the commits the tags point at.
pub proof fn law_tags_match_by_identity_only(
    head: CommitId,
    refs: Seq<ReferenceView>,
    answers: Seq<Result<bool, RunError>>,
)
    requires
        forall|i: int|
            0 <= i < refs.len() && is_tag_name(#[trigger] refs[i].name) ==> refs[i].target
                != Some(head),
    ensures
        outcome(head, refs, FilterMode::Tags, answers) == Ok::<Verdict, RunError>(
            Verdict::NotPushed,
        ),
{
    assert forall|j: int| 0 <= j < refs.len() implies !tag_marks(head, #[trigger] refs[j]) by {
        assert(is_tag_name(refs[j].name) ==> refs[j].target != Some(head));
    }
    lemma_first_marking_tag(head, refs, refs.len() as int);
}

/// Under `Tags` nothing but the tags has a part: two listings of the same
/// length that hold the same tags at the same positions give the same
/// outcome, whatever else they hold and whatever the commit graph says.
pub proof fn law_tags_mode_reads_tags_only(
    head: CommitId,
    refs: Seq<ReferenceView>,
    answers: Seq<Result<bool, RunError>>,
    other_refs: Seq<ReferenceView>,
    other_answers: Seq<Result<bool, RunError>>,
)
    requires
        refs.len() == other_refs.len(),
        forall|i: int|
            0 <= i < refs.len() && (is_tag_name(#[trigger] refs[i].name) || is_tag_name(
                other_refs[i].name,
            )) ==> refs[i] == other_refs[i],
    ensures
        outcome(head, refs, FilterMode::Tags, answers) == outcome(
            head,
            other_refs,
            FilterMode::Tags,
            other_answers,
        ),
{
    let n = refs.len() as int;
    let marks = tag_settles(head, refs);
    let other_marks = tag_settles(head, other_refs);
    let t = first_marking_tag(head, refs);
    lemma_least_index(marks, 0, n);
    assert forall|j: int| 0 <= j < t implies !#[trigger] other_marks(j) by {
        assert(!marks(j));
        assert(is_tag_name(refs[j].name) || is_tag_name(other_refs[j].name) ==> refs[j]
            == other_refs[j]);
    }
    if t < n {
        assert(marks(t));
        assert(is_tag_name(refs[t].name));
        assert(other_marks(t));
    }
    lemma_least_index_is(other_marks, 0, n, t);
}

/// Under `Branches` nothing but the remote-tracking branches has a part: two
/// listings of the same length that hold the same remote-tracking branches at
/// the same positions, with the same answers for them, give the same outcome,
/// whatever tags they hold.
pub proof fn law_branches_mode_reads_branches_only(
    head: CommitId,
    refs: Seq<ReferenceView>,
    answers: Seq<Result<bool, RunError>>,
    other_refs: Seq<ReferenceView>,
    other_answers: Seq<Result<bool, RunError>>,
)
    requires
        refs.len() == other_refs.len(),
        forall|i: int|
            0 <= i < refs.len() && (is_remote_branch_name(#[trigger] refs[i].name)
                || is_remote_branch_name(other_refs[i].name)) ==> refs[i] == other_refs[i]
                && answers[i] == other_answers[i],
    ensures
        outcome(head, refs, FilterMode::Branches, answers) == outcome(
            head,
            other_refs,
            FilterMode::Branches,
            other_answers,
        ),
{
    let n = refs.len() as int;
    let settles = branch_settles(head, refs, answers);
    let other_settles = branch_settles(head, other_refs, other_answers);
    let b = first_settling_branch(head, refs, answers);
    lemma_least_index(settles, 0, n);
    assert forall|j: int| 0 <= j < b implies !#[trigger] other_settles(j) by {
        assert(!settles(j));
        assert(is_remote_branch_name(refs[j].name) || is_remote_branch_name(other_refs[j].name)
            ==> refs[j] == other_refs[j] && answers[j] == other_answers[j]);
    }
    if b < n {
        assert(settles(b));
        assert(is_remote_branch_name(refs[b].name));
        assert(other_settles(b));
    }
    lemma_least_index_is(other_settles, 0, n, b);
}

/// Under `Branches`, tags that point at `head` show nothing: where no
/// remote-tracking branch contains `head` and no question fails, `head` is
/// not pushed.
pub proof fn law_branches_mode_ignores_tags(
    head: CommitId,
    refs: Seq<ReferenceView>,
    answers: Seq<Result<bool, RunError>>,
)
    requires
        unsettled_before(head, refs, answers, refs.len() as int),
    ensures
        outcome(head, refs, FilterMode::Branches, answers) == Ok::<Verdict, RunError>(
            Verdict::NotPushed,
        ),
{
    lemma_first_settling_branch(head, refs, answers, refs.len() as int);
}

/// A check of the same commit against the same references under the same
/// mode, with the same answers from the commit graph wherever it asks, gives
/// the same outcome: nothing else has a part in it.
pub proof fn law_same_snapshot_same_outcome(
    head: CommitId,
    refs: Seq<ReferenceView>,
    mode: FilterMode,
    answers: Seq<Result<bool, RunError>>,
    again: Seq<Result<bool, RunError>>,
)
    requires
        answers.len() == refs.len(),
        again.len() == refs.len(),
        forall|i: int| #[trigger] is_asked(head, refs, mode, answers, i) ==> answers[i] == again[i],
    ensures
        outcome(head, refs, mode, answers) == outcome(head, refs, mode, again),
{
    lemma_outcome_where_asked(head, refs, mode, answers, again);
}

/// Checking again gives the same result: where `is_ancestor` can give one
/// answer only to each question, as it does while the repository stays as it
/// is, any two results of `check` on the same commit, references and mode are
/// the same.
pub proof fn law_repeated_check_agrees<F: Fn(CommitId, CommitId) -> Result<bool, RunError>>(
    head: CommitId,
    references: &[Reference],
    mode: FilterMode,
    is_ancestor: F,
    answers: Seq<Result<bool, RunError>>,
    first: Result<ReachabilityResult, RunError>,
    second: Result<ReachabilityResult, RunError>,
)
    requires
        determines(is_ancestor, head, references@, answers),
        call_ensures(check::<F>, (head, references, mode, is_ancestor), first),
        call_ensures(check::<F>, (head, references, mode, is_ancestor), second),
    ensures
        result_view(first) == result_view(second),
{
    let expected = outcome(head, views(references@), mode, answers);
    assert(result_view(first) == expected);
    assert(result_view(second) == expected);
}

/// Where a check has no question for the commit graph, its answers have no
/// part in the outcome.
pub proof fn law_outcome_without_questions(
    head: CommitId,
    refs: Seq<ReferenceView>,
    mode: FilterMode,
    answers: Seq<Result<bool, RunError>>,
    other: Seq<Result<bool, RunError>>,
)
    requires
        answers.len() == refs.len(),
        other.len() == refs.len(),
        asks_nothing(head, refs, mode),
    ensures
        outcome(head, refs, mode, answers) == outcome(head, refs, mode, other),
{
    lemma_outcome_where_asked(head, refs, mode, answers, other);
}

/// With no references at all, `head` is not pushed, under every mode.
pub proof fn law_no_references_not_pushed(
    head: CommitId,
    refs: Seq<ReferenceView>,
    mode: FilterMode,
    answers: Seq<Result<bool, RunError>>,
)
    requires
        refs.len() == 0,
    ensures
        outcome(head, refs, mode, answers) == Ok::<Verdict, RunError>(Verdict::NotPushed),
{
}

/// A name that a check reports is the name of a reference that shows `head`
/// to be pushed: a remote-tracking branch that contains `head`, where
/// branches take part, or a tag that points at `head`, where tags take part.
pub proof fn law_pushed_names_evidence(
    head: CommitId,
    refs: Seq<ReferenceView>,
    mode: FilterMode,
    answers: Seq<Result<bool, RunError>>,
    name: Seq<char>,
)
    requires
        outcome(head, refs, mode, answers) == Ok::<Verdict, RunError>(Verdict::Pushed(name)),
    ensures
        exists|i: int|
            0 <= i < refs.len() && (#[trigger] refs[i]).name == name && ((mode.scans_branches()
                && branch_contains(head, refs[i], answers[i])) || (mode.scans_tags() && tag_marks(
                head,
                refs[i],
            ))),
{
    let n = refs.len() as int;
    let b = first_settling_branch(head, refs, answers);
    let t = first_marking_tag(head, refs);
    lemma_least_index(branch_settles(head, refs, answers), 0, n);
    lemma_least_index(tag_settles(head, refs), 0, n);
    if mode.scans_branches() && b < n {
        assert(refs[b].name == name);
    } else {
        assert(tag_settles(head, refs)(t));
        assert(refs[t].name == name);
    }
}

/// A name that a check reports lies in one namespace and not in the other:
/// in that of the remote-tracking branches where a branch showed `head` to be
/// pushed, in that of the tags where a tag did.
pub proof fn law_reported_name_tells_the_kind(
    head: CommitId,
    refs: Seq<ReferenceView>,
    mode: FilterMode,
    answers: Seq<Result<bool, RunError>>,
    name: Seq<char>,
)
    requires
        outcome(head, refs, mode, answers) == Ok::<Verdict, RunError>(Verdict::Pushed(name)),
    ensures
        is_remote_branch_name(name) != is_tag_name(name),
        is_remote_branch_name(name) <==> mode.scans_branches() && first_settling_branch(
            head,
            refs,
            answers,
        ) < refs.len(),
{
    let n = refs.len() as int;
    let b = first_settling_branch(head, refs, answers);
    let t = first_marking_tag(head, refs);
    lemma_least_index(branch_settles(head, refs, answers), 0, n);
    lemma_least_index(tag_settles(head, refs), 0, n);
    lemma_namespaces_disjoint(name);
    if mode.scans_branches() && b < n {
        assert(branch_settles(head, refs, answers)(b));
    } else {
        assert(tag_settles(head, refs)(t));
    }
}

/// Where a check finds `head` not pushed, no reference that takes part shows
/// otherwise: no remote-tracking branch contains `head`, where branches take
/// part, and no tag points at `head`, where tags take part.
pub proof fn law_not_pushed_means_no_evidence(
    head: CommitId,
    refs: Seq<ReferenceView>,
    mode: FilterMode,
    answers: Seq<Result<bool, RunError>>,
)
    requires
        outcome(head, refs, mode, answers) == Ok::<Verdict, RunError>(Verdict::NotPushed),
    ensures
        mode.scans_branches() ==> unsettled_before(head, refs, answers, refs.len() as int),
        mode.scans_tags() ==> unmarked_before(head, refs, refs.len() as int),
{
    let n = refs.len() as int;
    let settles = branch_settles(head, refs, answers);
    let marks = tag_settles(head, refs);
    lemma_least_index(settles, 0, n);
    lemma_least_index(marks, 0, n);
    if mode.scans_branches() {
        assert forall|j: int| 0 <= j < n implies !branch_contains(
            head,
            #[trigger] refs[j],
            answers[j],
        ) && !branch_fails(head, refs[j], answers[j]) by {
            assert(!settles(j));
        }
    }
    if mode.scans_tags() {
        assert forall|j: int| 0 <= j < n implies !tag_marks(head, #[trigger] refs[j]) by {
            assert(!marks(j));
        }
    }
}

/// A check fails only where branches take part, and then with the error of
/// the first question that failed, nothing before it having ended the scan.
pub proof fn law_failure_is_the_first_failed_question(
    head: CommitId,
    refs: Seq<ReferenceView>,
    mode: FilterMode,
    answers: Seq<Result<bool, RunError>>,
    error: RunError,
)
    requires
        outcome(head, refs, mode, answers) == Err::<Verdict, RunError>(error),
    ensures
        mode.scans_branches(),
        exists|i: int|
            0 <= i < refs.len() && branch_fails(head, #[trigger] refs[i], answers[i]) && answers[i]
                == Err::<bool, RunError>(error) && unsettled_before(head, refs, answers, i),
{
    let n = refs.len() as int;
    let settles = branch_settles(head, refs, answers);
    let b = first_settling_branch(head, refs, answers);
    lemma_least_index(settles, 0, n);
    assert(settles(b));
    assert forall|j: int| 0 <= j < b implies !branch_contains(head, #[trigger] refs[j], answers[j])
        && !branch_fails(head, refs[j], answers[j]) by {
        assert(!settles(j));
    }
    assert(branch_fails(head, refs[b], answers[b]));
}

} // verus!
