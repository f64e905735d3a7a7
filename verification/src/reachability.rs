//! The scan that decides whether a commit has been pushed.

use vstd::prelude::*;
use crate::commit::CommitId;
use crate::reference::{Reference, ReferenceView, views, is_remote_branch_name, is_tag_name};
use crate::search::{least_index, lemma_least_index, lemma_least_index_is};

verus! {

/// Which namespaces of references take part in a check.
#[derive(Clone, Copy, Debug, PartialEq, Eq, Structural)]
pub enum FilterMode {
    /// Remote-tracking branches only.
    Branches,
    /// Tags only.
    Tags,
    /// Remote-tracking branches, then tags.
    All,
}

impl FilterMode {
    /// Whether remote-tracking branches take part.
    pub open spec fn scans_branches(self) -> bool {
        self != FilterMode::Tags
    }

    /// Whether tags take part.
    pub open spec fn scans_tags(self) -> bool {
        self != FilterMode::Branches
    }

    /// Whether remote-tracking branches take part.
    pub fn includes_branches(&self) -> (answer: bool)
        ensures
            answer == self.scans_branches(),
    {
        match self {
            FilterMode::Tags => false,
            _ => true,
        }
    }

    /// Whether tags take part.
    pub fn includes_tags(&self) -> (answer: bool)
        ensures
            answer == self.scans_tags(),
    {
        match self {
            FilterMode::Branches => false,
            _ => true,
        }
    }
}

/// What ends a run without an answer.
#[derive(Clone, Copy, Debug, PartialEq, Eq, Structural)]
pub enum RunError {
    /// No repository was found from the current location.
    RepositoryNotFound,
    /// The checked-out position does not resolve to a commit.
    HeadUnresolvable,
    /// The references could not be listed.
    ReferenceEnumerationFailure,
    /// The commit graph could not say whether one commit is an ancestor of
    /// another.
    AncestryQueryFailure,
}

/// The answer of a check: pushed, with the name of the reference that showed
/// it, or not pushed.
#[derive(Clone, Debug, PartialEq, Eq)]
pub enum ReachabilityResult {
    Pushed(String),
    NotPushed,
}

impl ReachabilityResult {
    /// Whether the commit was found to be pushed.
    pub fn is_pushed(&self) -> (pushed: bool)
        ensures
            pushed == (self@ is Pushed),
    {
        match self {
            ReachabilityResult::Pushed(_) => true,
            ReachabilityResult::NotPushed => false,
        }
    }
}

/// The answer of a check as a mathematical value.
pub ghost enum Verdict {
    Pushed(Seq<char>),
    NotPushed,
}

impl View for ReachabilityResult {
    type V = Verdict;

    open spec fn view(&self) -> Verdict {
        match self {
            ReachabilityResult::Pushed(name) => Verdict::Pushed(name@),
            ReachabilityResult::NotPushed => Verdict::NotPushed,
        }
    }
}

/// What a check returns, as a mathematical value.
pub open spec fn result_view(result: Result<ReachabilityResult, RunError>) -> Result<
    Verdict,
    RunError,
> {
    match result {
        Ok(answer) => Ok(answer@),
        Err(error) => Err(error),
    }
}

/// Whether `r` is a remote-tracking branch about which the commit graph has
/// to be asked: it resolves to a commit other than `head`.
pub open spec fn needs_query(head: CommitId, r: ReferenceView) -> bool {
    is_remote_branch_name(r.name) && r.target is Some && r.target != Some(head)
}

/// Whether the remote-tracking branch `r` contains `head`: it points at
/// `head`, or `head` is an ancestor of the commit it points at, which is what
/// `answer` says.
pub open spec fn branch_contains(
    head: CommitId,
    r: ReferenceView,
    answer: Result<bool, RunError>,
) -> bool {
    is_remote_branch_name(r.name) && (r.target == Some(head) || (r.target is Some && answer == Ok::<
        bool,
        RunError,
    >(true)))
}

/// Whether the question about the remote-tracking branch `r` failed.
pub open spec fn branch_fails(
    head: CommitId,
    r: ReferenceView,
    answer: Result<bool, RunError>,
) -> bool {
    needs_query(head, r) && answer is Err
}

/// Whether the tag `r` marks `head` itself. Ancestry plays no part.
pub open spec fn tag_marks(head: CommitId, r: ReferenceView) -> bool {
    is_tag_name(r.name) && r.target == Some(head)
}

/// At which positions of `refs` a remote-tracking branch ends the scan of the
/// branches: it contains `head`, or the question about it failed.
pub open spec fn branch_settles(
    head: CommitId,
    refs: Seq<ReferenceView>,
    answers: Seq<Result<bool, RunError>>,
) -> spec_fn(int) -> bool {
    |i: int| branch_contains(head, refs[i], answers[i]) || branch_fails(head, refs[i], answers[i])
}

/// At which positions of `refs` a tag marks `head`.
pub open spec fn tag_settles(head: CommitId, refs: Seq<ReferenceView>) -> spec_fn(int) -> bool {
    |i: int| tag_marks(head, refs[i])
}

/// The position of the first remote-tracking branch that ends the scan of the
/// branches; the length of `refs` where none does.
pub open spec fn first_settling_branch(
    head: CommitId,
    refs: Seq<ReferenceView>,
    answers: Seq<Result<bool, RunError>>,
) -> int {
    least_index(branch_settles(head, refs, answers), 0, refs.len() as int)
}

/// The position of the first tag that marks `head`; the length of `refs`
/// where none does.
pub open spec fn first_marking_tag(head: CommitId, refs: Seq<ReferenceView>) -> int {
    least_index(tag_settles(head, refs), 0, refs.len() as int)
}

/// What a check of `head` against `refs` under `mode` returns, where
/// `answers[i]` is what the commit graph says to the question whether `head`
/// is an ancestor of the commit that `refs[i]` points at.
///
/// The first remote-tracking branch that settles the matter decides, if
/// branches take part and there is one; else the first tag that marks `head`,
/// if tags take part and there is one; else `head` is not pushed.
pub open spec fn outcome(
    head: CommitId,
    refs: Seq<ReferenceView>,
    mode: FilterMode,
    answers: Seq<Result<bool, RunError>>,
) -> Result<Verdict, RunError> {
    let b = first_settling_branch(head, refs, answers);
    let t = first_marking_tag(head, refs);
    if mode.scans_branches() && b < refs.len() {
        if branch_contains(head, refs[b], answers[b]) {
            Ok(Verdict::Pushed(refs[b].name))
        } else {
            Err(answers[b]->Err_0)
        }
    } else if mode.scans_tags() && t < refs.len() {
        Ok(Verdict::Pushed(refs[t].name))
    } else {
        Ok(Verdict::NotPushed)
    }
}

/// Whether a check of `head` against `refs` under `mode` asks the commit
/// graph about `refs[i]`, given the answers: branches take part, the
/// reference needs the question, and nothing before it settled the matter.
pub open spec fn is_asked(
    head: CommitId,
    refs: Seq<ReferenceView>,
    mode: FilterMode,
    answers: Seq<Result<bool, RunError>>,
    i: int,
) -> bool {
    &&& mode.scans_branches()
    &&& 0 <= i <= first_settling_branch(head, refs, answers)
    &&& i < refs.len()
    &&& needs_query(head, refs[i])
}

/// Whether a check of `head` against `refs` under `mode` has no question for
/// the commit graph: branches take no part, or no remote-tracking branch
/// resolves to a commit other than `head`.
pub open spec fn asks_nothing(head: CommitId, refs: Seq<ReferenceView>, mode: FilterMode) -> bool {
    mode.scans_branches() ==> forall|i: int|
        0 <= i < refs.len() ==> !needs_query(head, #[trigger] refs[i])
}

/// Whether `answers` records what `is_ancestor` said during a check: one
/// entry for each reference, and, wherever the check asks, an answer that
/// `is_ancestor` gave to the question whether `head` is an ancestor of the
/// reference's commit.
pub open spec fn records<F: Fn(CommitId, CommitId) -> Result<bool, RunError>>(
    is_ancestor: F,
    head: CommitId,
    references: Seq<Reference>,
    mode: FilterMode,
    answers: Seq<Result<bool, RunError>>,
) -> bool {
    &&& answers.len() == references.len()
    &&& forall|i: int| #[trigger]
        is_asked(head, views(references), mode, answers, i) ==> call_ensures(
            is_ancestor,
            (head, references[i].target->0),
            answers[i],
        )
}

/// Whether `answers` holds all that `is_ancestor` can say: one entry for each
/// reference, and, for each remote-tracking branch that needs the question,
/// the one answer that `is_ancestor` gives to the question whether `head` is
/// an ancestor of the reference's commit.
pub open spec fn determines<F: Fn(CommitId, CommitId) -> Result<bool, RunError>>(
    is_ancestor: F,
    head: CommitId,
    references: Seq<Reference>,
    answers: Seq<Result<bool, RunError>>,
) -> bool {
    &&& answers.len() == references.len()
    &&& forall|i: int, reply: Result<bool, RunError>|
        0 <= i < references.len() && needs_query(head, references[i]@) && #[trigger] call_ensures(
            is_ancestor,
            (head, references[i].target->0),
            reply,
        ) ==> reply == answers[i]
}

/// The outcome depends on the answers only where the check asks: two records
/// that agree wherever a check on the first asks give the same outcome.
pub proof fn lemma_outcome_where_asked(
    head: CommitId,
    refs: Seq<ReferenceView>,
    mode: FilterMode,
    a: Seq<Result<bool, RunError>>,
    b: Seq<Result<bool, RunError>>,
)
    requires
        a.len() == refs.len(),
        b.len() == refs.len(),
        forall|i: int| #[trigger] is_asked(head, refs, mode, a, i) ==> a[i] == b[i],
    ensures
        outcome(head, refs, mode, a) == outcome(head, refs, mode, b),
{
    if mode.scans_branches() {
        let n = refs.len() as int;
        let settles_a = branch_settles(head, refs, a);
        let settles_b = branch_settles(head, refs, b);
        let k = first_settling_branch(head, refs, a);
        lemma_least_index(settles_a, 0, n);
        assert forall|j: int| 0 <= j < k implies !#[trigger] settles_b(j) by {
            assert(!settles_a(j));
            if needs_query(head, refs[j]) {
                assert(is_asked(head, refs, mode, a, j));
            }
        }
        if k < n {
            assert(settles_a(k));
            if needs_query(head, refs[k]) {
                assert(is_asked(head, refs, mode, a, k));
            }
            assert(settles_b(k));
        }
        lemma_least_index_is(settles_b, 0, n, k);
    }
}

/// Where `expected` holds all that `is_ancestor` can say, a record of what it
/// said gives the outcome that `expected` gives.
proof fn lemma_determined<F: Fn(CommitId, CommitId) -> Result<bool, RunError>>(
    is_ancestor: F,
    head: CommitId,
    references: Seq<Reference>,
    mode: FilterMode,
    answers: Seq<Result<bool, RunError>>,
    expected: Seq<Result<bool, RunError>>,
)
    requires
        records(is_ancestor, head, references, mode, answers),
        determines(is_ancestor, head, references, expected),
    ensures
        outcome(head, views(references), mode, answers) == outcome(
            head,
            views(references),
            mode,
            expected,
        ),
{
    let refs = views(references);
    assert forall|i: int| #[trigger] is_asked(head, refs, mode, answers, i) implies answers[i]
        == expected[i] by {
        assert(refs[i] == references[i]@);
        assert(call_ensures(is_ancestor, (head, references[i].target->0), answers[i]));
    }
    lemma_outcome_where_asked(head, refs, mode, answers, expected);
}

/// Whether no remote-tracking branch before position `i` ends the scan of the
/// branches.
pub open spec fn unsettled_before(
    head: CommitId,
    refs: Seq<ReferenceView>,
    answers: Seq<Result<bool, RunError>>,
    i: int,
) -> bool {
    forall|j: int|
        0 <= j < i ==> !branch_contains(head, #[trigger] refs[j], answers[j]) && !branch_fails(
            head,
            refs[j],
            answers[j],
        )
}

/// Whether no tag before position `i` marks `head`.
pub open spec fn unmarked_before(head: CommitId, refs: Seq<ReferenceView>, i: int) -> bool {
    forall|j: int| 0 <= j < i ==> !tag_marks(head, #[trigger] refs[j])
}

/// Where nothing before position `i` ends the scan of the branches, and `i`
/// is the end of the listing or ends the scan, `i` is the first settlement.
pub proof fn lemma_first_settling_branch(
    head: CommitId,
    refs: Seq<ReferenceView>,
    answers: Seq<Result<bool, RunError>>,
    i: int,
)
    requires
        0 <= i <= refs.len(),
        unsettled_before(head, refs, answers, i),
        i < refs.len() ==> branch_contains(head, refs[i], answers[i]) || branch_fails(
            head,
            refs[i],
            answers[i],
        ),
    ensures
        first_settling_branch(head, refs, answers) == i,
{
    let settles = branch_settles(head, refs, answers);
    assert forall|j: int| 0 <= j < i implies !#[trigger] settles(j) by {
        assert(!branch_contains(head, refs[j], answers[j]));
    }
    lemma_least_index_is(settles, 0, refs.len() as int, i);
}

/// Where no tag before position `i` marks `head`, and `i` is the end of the
/// listing or marks `head`, `i` is the first mark.
pub proof fn lemma_first_marking_tag(head: CommitId, refs: Seq<ReferenceView>, i: int)
    requires
        0 <= i <= refs.len(),
        unmarked_before(head, refs, i),
        i < refs.len() ==> tag_marks(head, refs[i]),
    ensures
        first_marking_tag(head, refs) == i,
{
    let marks = tag_settles(head, refs);
    assert forall|j: int| 0 <= j < i implies !#[trigger] marks(j) by {
        assert(!tag_marks(head, refs[j]));
    }
    lemma_least_index_is(marks, 0, refs.len() as int, i);
}

/// `asked`, continued with `last` up to `len` entries.
spec fn completed(
    asked: Seq<Result<bool, RunError>>,
    last: Result<bool, RunError>,
    len: int,
) -> Seq<Result<bool, RunError>> {
    Seq::new(
        len as nat,
        |j: int|
            if j < asked.len() {
                asked[j]
            } else {
                last
            },
    )
}

/// The check itself, with the record of the answers that it was given.
fn check_recording<F>(
    head: CommitId,
    references: &[Reference],
    mode: FilterMode,
    is_ancestor: &F,
) -> (out: (Result<ReachabilityResult, RunError>, Ghost<Seq<Result<bool, RunError>>>)) where
    F: Fn(CommitId, CommitId) -> Result<bool, RunError>,

    requires
        forall|i: int|
            0 <= i < references.len() && mode.scans_branches() && #[trigger] needs_query(
                head,
                references[i]@,
            ) ==> call_requires(*is_ancestor, (head, references[i].target->0)),
    ensures
        records(*is_ancestor, head, references@, mode, out.1@),
        result_view(out.0) == outcome(head, views(references@), mode, out.1@),
{
    let n = references.len();
    let ghost refs = views(references@);
    let ghost mut asked: Seq<Result<bool, RunError>> = Seq::empty();
    if mode.includes_branches() {
        let mut i: usize = 0;
        while i < n
            invariant
                n == references.len(),
                refs == views(references@),
                mode.scans_branches(),
                i <= n,
                asked.len() == i,
                unsettled_before(head, refs, asked, i as int),
                forall|j: int|
                    0 <= j < i && needs_query(head, refs[j]) ==> call_ensures(
                        *is_ancestor,
                        (head, references[j].target->0),
                        #[trigger] asked[j],
                    ),
                forall|j: int|
                    0 <= j < references.len() && mode.scans_branches() && #[trigger] needs_query(
                        head,
                        references[j]@,
                    ) ==> call_requires(*is_ancestor, (head, references[j].target->0)),
            decreases n - i,
        {
            let reference = &references[i];
            let ghost mut answer: Result<bool, RunError> = Ok(false);
            let mut settled: Option<Result<ReachabilityResult, RunError>> = None;
            assert(refs[i as int] == reference@);
            if reference.is_remote_branch() {
                if let Some(target) = reference.target {
                    if target == head {
                        settled = Some(Ok(ReachabilityResult::Pushed(reference.name.clone())));
                    } else {
                        assert(needs_query(head, references[i as int]@));
                        let reply = is_ancestor(head, target);
                        proof {
                            answer = reply;
                        }
                        match reply {
                            Ok(true) => {
                                settled = Some(
                                    Ok(ReachabilityResult::Pushed(reference.name.clone())),
                                );
                            },
                            Ok(false) => {},
                            Err(error) => {
                                settled = Some(Err(error));
                            },
                        }
                    }
                }
            }
            if let Some(result) = settled {
                let ghost answers = completed(asked, answer, n as int);
                proof {
                    assert(unsettled_before(head, refs, answers, i as int));
                    lemma_first_settling_branch(head, refs, answers, i as int);
                }
                return (result, Ghost(answers));
            }
            proof {
                asked = asked.push(answer);
            }
            i += 1;
        }
        proof {
            lemma_first_settling_branch(head, refs, asked, n as int);
        }
    } else {
        proof {
            asked = Seq::new(n as nat, |j: int| Ok(false));
        }
    }
    if mode.includes_tags() {
        let mut i: usize = 0;
        while i < n
            invariant
                n == references.len(),
                refs == views(references@),
                i <= n,
                mode.scans_tags(),
                records(*is_ancestor, head, references@, mode, asked),
                mode.scans_branches() ==> first_settling_branch(head, refs, asked) == n,
                unmarked_before(head, refs, i as int),
            decreases n - i,
        {
            let reference = &references[i];
            assert(refs[i as int] == reference@);
            if reference.is_tag() && reference.target == Some(head) {
                proof {
                    lemma_first_marking_tag(head, refs, i as int);
                }
                return (Ok(ReachabilityResult::Pushed(reference.name.clone())), Ghost(asked));
            }
            i += 1;
        }
        proof {
            lemma_first_marking_tag(head, refs, n as int);
        }
    }
    (Ok(ReachabilityResult::NotPushed), Ghost(asked))
}

/// Decides whether `head` has been pushed.
///
/// `references` are the references of the repository in the order in which
/// the repository lists them, and `is_ancestor(a, b)` says whether commit `a`
/// is an ancestor of commit `b`, a commit not being its own ancestor.
///
/// Under `Branches` and `All` the remote-tracking branches are gone through
/// first, in order: one that points at `head`, or of whose commit `head` is an
/// ancestor, ends the check with its name. Under `Tags` and `All` the tags
/// follow: one that points at `head` itself ends the check with its name. A
/// reference that resolves to no commit is passed over. A failure of
/// `is_ancestor` ends the check with that error. Nothing is looked at once
/// the check has ended, and `is_ancestor` is asked about `head` and the commit
/// of a remote-tracking branch only.
///
/// The first clause holds whatever `is_ancestor` does: the result is the
/// outcome for the answers that it gave. The second is for an `is_ancestor`
/// that can give one answer only to each question: the result is the outcome
/// for those answers.
pub fn check<F>(
    head: CommitId,
    references: &[Reference],
    mode: FilterMode,
    is_ancestor: F,
) -> (result: Result<ReachabilityResult, RunError>) where
    F: Fn(CommitId, CommitId) -> Result<bool, RunError>,

    requires
        forall|i: int|
            0 <= i < references.len() && mode.scans_branches() && #[trigger] needs_query(
                head,
                references[i]@,
            ) ==> call_requires(is_ancestor, (head, references[i].target->0)),
    ensures
        exists|answers: Seq<Result<bool, RunError>>|
            records(is_ancestor, head, references@, mode, answers) && result_view(result)
                == #[trigger] outcome(head, views(references@), mode, answers),
        forall|expected: Seq<Result<bool, RunError>>|
            determines(is_ancestor, head, references@, expected) ==> result_view(result)
                == #[trigger] outcome(head, views(references@), mode, expected),
{
    let (result, Ghost(answers)) = check_recording(head, references, mode, &is_ancestor);
    proof {
        assert(result_view(result) == outcome(head, views(references@), mode, answers));
        assert forall|expected: Seq<Result<bool, RunError>>|
            determines(is_ancestor, head, references@, expected) implies result_view(result)
            == #[trigger] outcome(head, views(references@), mode, expected) by {
            lemma_determined(is_ancestor, head, references@, mode, answers, expected);
        }
    }
    result
}

} // verus!
