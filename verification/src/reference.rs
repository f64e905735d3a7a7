//! References: named pointers to commits, and the namespaces of their names.

use vstd::prelude::*;
use crate::commit::CommitId;

verus! {

/// A named pointer into the commit graph.
///
/// `target` is the commit that the reference resolves to, annotated tags
/// followed down to the commit they mark. It is `None` for a reference that
/// does not resolve to a commit; such a reference never shows anything.
#[derive(Clone, Debug, PartialEq, Eq)]
pub struct Reference {
    pub name: String,
    pub target: Option<CommitId>,
}

/// A reference as a mathematical value.
pub ghost struct ReferenceView {
    pub name: Seq<char>,
    pub target: Option<CommitId>,
}

impl View for Reference {
    type V = ReferenceView;

    open spec fn view(&self) -> ReferenceView {
        ReferenceView { name: self.name@, target: self.target }
    }
}

/// The references of a listing as mathematical values, in the same order.
pub open spec fn views(references: Seq<Reference>) -> Seq<ReferenceView> {
    references.map_values(|r: Reference| r@)
}

/// The names of remote-tracking branches begin with this.
pub open spec fn remote_branch_prefix() -> Seq<char> {
    "refs/remotes/"@
}

/// The names of tags begin with this.
pub open spec fn tag_prefix() -> Seq<char> {
    "refs/tags/"@
}

/// Whether `name` lies in the namespace of remote-tracking branches.
pub open spec fn is_remote_branch_name(name: Seq<char>) -> bool {
    remote_branch_prefix().is_prefix_of(name)
}

/// Whether `name` lies in the namespace of tags.
pub open spec fn is_tag_name(name: Seq<char>) -> bool {
    tag_prefix().is_prefix_of(name)
}

/// No name lies in both namespaces.
pub proof fn lemma_namespaces_disjoint(name: Seq<char>)
    ensures
        !(is_remote_branch_name(name) && is_tag_name(name)),
{
    reveal_strlit("refs/remotes/");
    reveal_strlit("refs/tags/");
    if is_remote_branch_name(name) && is_tag_name(name) {
        assert(name.subrange(0, 13)[5] == 'r');
        assert(name.subrange(0, 10)[5] == 't');
    }
}

/// Whether `text` begins with `prefix`.
pub(crate) fn starts_with(text: &str, prefix: &str) -> (begins: bool)
    ensures
        begins == prefix@.is_prefix_of(text@),
{
    let n = prefix.unicode_len();
    if text.unicode_len() < n {
        return false;
    }
    let mut i: usize = 0;
    while i < n
        invariant
            i <= n,
            n == prefix@.len(),
            n <= text@.len(),
            forall|j: int| 0 <= j < i ==> prefix@[j] == text@[j],
        decreases n - i,
    {
        if prefix.get_char(i) != text.get_char(i) {
            assert(text@.subrange(0, n as int)[i as int] != prefix@[i as int]);
            return false;
        }
        i += 1;
    }
    assert(prefix@ =~= text@.subrange(0, n as int));
    true
}

impl Reference {
    /// A reference called `name` that resolves to `target`.
    pub fn new(name: String, target: Option<CommitId>) -> (reference: Reference)
        ensures
            reference@ == (ReferenceView { name: name@, target }),
    {
        Reference { name, target }
    }

    /// Whether the reference is a remote-tracking branch.
    pub fn is_remote_branch(&self) -> (answer: bool)
        ensures
            answer == is_remote_branch_name(self@.name),
    {
        starts_with(self.name.as_str(), "refs/remotes/")
    }

    /// Whether the reference is a tag.
    pub fn is_tag(&self) -> (answer: bool)
        ensures
            answer == is_tag_name(self@.name),
    {
        starts_with(self.name.as_str(), "refs/tags/")
    }
}

} // verus!
