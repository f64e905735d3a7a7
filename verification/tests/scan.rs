use std::cell::Cell;

use is_pushed::reachability::{check, RunError, FilterMode, ReachabilityResult};
use is_pushed::commit::CommitId;
use is_pushed::reference::Reference;

fn commit(n: u8) -> CommitId {
    CommitId::new([n; 20])
}

fn reference(name: &str, target: u8) -> Reference {
    Reference::new(name.to_string(), Some(commit(target)))
}

fn pushed(name: &str) -> Result<ReachabilityResult, RunError> {
    Ok(ReachabilityResult::Pushed(name.to_string()))
}

fn not_pushed() -> Result<ReachabilityResult, RunError> {
    Ok(ReachabilityResult::NotPushed)
}

/// The history c1 <- c2 <- c3 <- ...: a commit is an ancestor of every later
/// one, and not of itself.
fn in_line(a: CommitId, b: CommitId) -> Result<bool, RunError> {
    Ok(a.as_bytes()[0] < b.as_bytes()[0])
}

fn never_asked(_: CommitId, _: CommitId) -> Result<bool, RunError> {
    panic!("the commit graph was asked")
}

#[test]
fn branch_at_head_is_pushed_under_branches() {
    let refs = vec![reference("refs/remotes/origin/main", 1)];
    assert_eq!(
        check(commit(1), &refs, FilterMode::Branches, in_line),
        pushed("refs/remotes/origin/main")
    );
}

#[test]
fn branch_above_head_is_pushed_under_all() {
    let refs = vec![reference("refs/remotes/origin/main", 3)];
    assert_eq!(
        check(commit(1), &refs, FilterMode::All, in_line),
        pushed("refs/remotes/origin/main")
    );
}

#[test]
fn tag_above_head_is_not_pushed_under_tags() {
    let refs = vec![reference("refs/tags/v1.0", 3)];
    assert_eq!(check(commit(1), &refs, FilterMode::Tags, in_line), not_pushed());
}

#[test]
fn tag_at_head_is_pushed_under_all() {
    let refs = vec![reference("refs/tags/v1.0", 1)];
    assert_eq!(check(commit(1), &refs, FilterMode::All, in_line), pushed("refs/tags/v1.0"));
}

#[test]
fn no_references_is_not_pushed_under_all() {
    let refs: Vec<Reference> = Vec::new();
    assert_eq!(check(commit(1), &refs, FilterMode::All, in_line), not_pushed());
}

#[test]
fn no_references_is_not_pushed_under_every_mode() {
    let refs: Vec<Reference> = Vec::new();
    for mode in [FilterMode::Branches, FilterMode::Tags, FilterMode::All] {
        assert_eq!(check(commit(1), &refs, mode, never_asked), not_pushed());
    }
}

#[test]
fn branch_at_head_is_pushed_without_asking() {
    let refs = vec![reference("refs/remotes/origin/main", 1)];
    for mode in [FilterMode::Branches, FilterMode::All] {
        assert_eq!(check(commit(1), &refs, mode, never_asked), pushed("refs/remotes/origin/main"));
    }
}

#[test]
fn branch_above_head_is_pushed_under_branches() {
    let refs = vec![reference("refs/remotes/origin/main", 3)];
    assert_eq!(
        check(commit(1), &refs, FilterMode::Branches, in_line),
        pushed("refs/remotes/origin/main")
    );
}

#[test]
fn branch_below_head_is_not_pushed() {
    let refs = vec![reference("refs/remotes/origin/main", 1)];
    for mode in [FilterMode::Branches, FilterMode::All] {
        assert_eq!(check(commit(3), &refs, mode, in_line), not_pushed());
    }
}

#[test]
fn the_question_is_whether_head_is_an_ancestor_of_the_branch() {
    let refs = vec![reference("refs/remotes/origin/main", 3)];
    let asked = Cell::new(None);
    let result = check(commit(1), &refs, FilterMode::All, |a, b| {
        asked.set(Some((a, b)));
        Ok(false)
    });
    assert_eq!(result, not_pushed());
    assert_eq!(asked.get(), Some((commit(1), commit(3))));
}

#[test]
fn tag_above_head_is_not_pushed_where_a_branch_would_be() {
    let tag = vec![reference("refs/tags/v1.0", 3)];
    let branch = vec![reference("refs/remotes/origin/v1.0", 3)];
    assert_eq!(check(commit(1), &tag, FilterMode::Tags, in_line), not_pushed());
    assert_eq!(check(commit(1), &tag, FilterMode::All, in_line), not_pushed());
    assert_eq!(
        check(commit(1), &branch, FilterMode::All, in_line),
        pushed("refs/remotes/origin/v1.0")
    );
}

#[test]
fn tags_mode_never_asks_the_commit_graph() {
    let refs = vec![
        reference("refs/remotes/origin/main", 3),
        reference("refs/tags/v0.9", 2),
        reference("refs/tags/v1.0", 1),
    ];
    assert_eq!(check(commit(1), &refs, FilterMode::Tags, never_asked), pushed("refs/tags/v1.0"));
}

#[test]
fn tags_mode_passes_over_branches() {
    let refs = vec![reference("refs/remotes/origin/main", 1)];
    assert_eq!(check(commit(1), &refs, FilterMode::Tags, never_asked), not_pushed());
}

#[test]
fn branches_mode_passes_over_tags() {
    let refs = vec![reference("refs/tags/v1.0", 1)];
    assert_eq!(check(commit(1), &refs, FilterMode::Branches, never_asked), not_pushed());
    let refs = vec![reference("refs/tags/v1.0", 1), reference("refs/remotes/origin/old", 0)];
    assert_eq!(check(commit(1), &refs, FilterMode::Branches, in_line), not_pushed());
}

#[test]
fn repeated_check_gives_the_same_result() {
    let refs = vec![
        reference("refs/tags/v1.0", 2),
        reference("refs/remotes/origin/old", 1),
        reference("refs/remotes/origin/main", 3),
    ];
    for mode in [FilterMode::Branches, FilterMode::Tags, FilterMode::All] {
        let first = check(commit(2), &refs, mode, in_line);
        let second = check(commit(2), &refs, mode, in_line);
        assert_eq!(first, second);
    }
    assert_eq!(check(commit(2), &refs, FilterMode::All, in_line), pushed("refs/remotes/origin/main"));
    assert_eq!(check(commit(2), &refs, FilterMode::Tags, in_line), pushed("refs/tags/v1.0"));
}

#[test]
fn first_branch_in_listing_order_wins() {
    let refs = vec![
        reference("refs/remotes/upstream/main", 3),
        reference("refs/remotes/origin/main", 1),
    ];
    assert_eq!(
        check(commit(1), &refs, FilterMode::All, in_line),
        pushed("refs/remotes/upstream/main")
    );
    let refs = vec![
        reference("refs/remotes/origin/main", 1),
        reference("refs/remotes/upstream/main", 3),
    ];
    assert_eq!(
        check(commit(1), &refs, FilterMode::All, in_line),
        pushed("refs/remotes/origin/main")
    );
}

#[test]
fn branches_come_before_tags_under_all() {
    let refs = vec![reference("refs/tags/v1.0", 1), reference("refs/remotes/origin/main", 2)];
    assert_eq!(
        check(commit(1), &refs, FilterMode::All, in_line),
        pushed("refs/remotes/origin/main")
    );
}

#[test]
fn first_tag_in_listing_order_wins() {
    let refs = vec![
        reference("refs/tags/v0.9", 2),
        reference("refs/tags/v1.0", 1),
        reference("refs/tags/v1.0-again", 1),
    ];
    assert_eq!(check(commit(1), &refs, FilterMode::Tags, in_line), pushed("refs/tags/v1.0"));
}

#[test]
fn nothing_is_asked_after_the_first_match() {
    let refs = vec![
        reference("refs/remotes/origin/a", 0),
        reference("refs/remotes/origin/b", 2),
        reference("refs/remotes/origin/c", 3),
        reference("refs/tags/v1.0", 1),
    ];
    let questions = Cell::new(0);
    let result = check(commit(1), &refs, FilterMode::All, |a, b| {
        questions.set(questions.get() + 1);
        in_line(a, b)
    });
    assert_eq!(result, pushed("refs/remotes/origin/b"));
    assert_eq!(questions.get(), 2);
}

#[test]
fn a_failed_question_ends_the_check() {
    let refs = vec![
        reference("refs/remotes/origin/a", 0),
        reference("refs/remotes/origin/b", 2),
        reference("refs/remotes/origin/c", 1),
        reference("refs/tags/v1.0", 1),
    ];
    let questions = Cell::new(0);
    let result = check(commit(1), &refs, FilterMode::All, |_, b| {
        questions.set(questions.get() + 1);
        if b == commit(2) {
            Err(RunError::AncestryQueryFailure)
        } else {
            Ok(false)
        }
    });
    assert_eq!(result, Err(RunError::AncestryQueryFailure));
    assert_eq!(questions.get(), 2);
}

#[test]
fn the_error_of_the_question_is_handed_on() {
    let refs = vec![reference("refs/remotes/origin/main", 2)];
    let result = check(commit(1), &refs, FilterMode::Branches, |_, _| {
        Err(RunError::ReferenceEnumerationFailure)
    });
    assert_eq!(result, Err(RunError::ReferenceEnumerationFailure));
}

#[test]
fn a_failure_after_a_match_is_never_met() {
    let refs = vec![
        reference("refs/remotes/origin/a", 1),
        reference("refs/remotes/origin/b", 2),
    ];
    let result = check(commit(1), &refs, FilterMode::All, |_, _| {
        Err(RunError::AncestryQueryFailure)
    });
    assert_eq!(result, pushed("refs/remotes/origin/a"));
}

#[test]
fn a_failed_question_is_not_made_up_for_by_a_tag() {
    let refs = vec![reference("refs/tags/v1.0", 1), reference("refs/remotes/origin/b", 2)];
    let fails = |_: CommitId, _: CommitId| Err(RunError::AncestryQueryFailure);
    assert_eq!(check(commit(1), &refs, FilterMode::All, fails), Err(RunError::AncestryQueryFailure));
    assert_eq!(check(commit(1), &refs, FilterMode::Tags, fails), pushed("refs/tags/v1.0"));
}

#[test]
fn a_reference_without_a_commit_is_passed_over() {
    let refs = vec![
        Reference::new("refs/remotes/origin/broken".to_string(), None),
        Reference::new("refs/tags/broken".to_string(), None),
        reference("refs/remotes/origin/main", 2),
    ];
    assert_eq!(
        check(commit(1), &refs, FilterMode::All, in_line),
        pushed("refs/remotes/origin/main")
    );
    let refs = vec![
        Reference::new("refs/remotes/origin/broken".to_string(), None),
        Reference::new("refs/tags/broken".to_string(), None),
    ];
    for mode in [FilterMode::Branches, FilterMode::Tags, FilterMode::All] {
        assert_eq!(check(commit(1), &refs, mode, never_asked), not_pushed());
    }
}

#[test]
fn references_of_other_namespaces_show_nothing() {
    let refs = vec![
        reference("refs/heads/main", 1),
        reference("refs/stash", 1),
        reference("refs/notes/commits", 1),
        reference("refs/remotes", 1),
        reference("refs/tags", 1),
        reference("Refs/Tags/v1.0", 1),
        reference("xrefs/remotes/origin/main", 1),
        reference("", 1),
    ];
    for mode in [FilterMode::Branches, FilterMode::Tags, FilterMode::All] {
        assert_eq!(check(commit(1), &refs, mode, never_asked), not_pushed());
    }
}

#[test]
fn commits_are_matched_by_all_their_bytes() {
    let mut bytes = [1u8; 20];
    bytes[19] = 2;
    let refs = vec![
        Reference::new("refs/tags/near".to_string(), Some(CommitId::new(bytes))),
        Reference::new("refs/remotes/origin/near".to_string(), Some(CommitId::new(bytes))),
    ];
    let unrelated = |_: CommitId, _: CommitId| Ok(false);
    assert_eq!(check(commit(1), &refs, FilterMode::All, unrelated), not_pushed());
    assert_eq!(
        check(CommitId::new(bytes), &refs, FilterMode::All, never_asked),
        pushed("refs/remotes/origin/near")
    );
    assert_eq!(
        check(CommitId::new(bytes), &refs, FilterMode::Tags, never_asked),
        pushed("refs/tags/near")
    );
}
