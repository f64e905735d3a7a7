//! The first position at which something holds.

use vstd::prelude::*;

verus! {

/// The least index from `from` up to, but not including, `to` at which `holds`
/// is true; `to` where there is none.
pub open spec fn least_index(holds: spec_fn(int) -> bool, from: int, to: int) -> int
    decreases to - from,
{
    if from >= to {
        to
    } else if holds(from) {
        from
    } else {
        least_index(holds, from + 1, to)
    }
}

/// `least_index` lies in range, `holds` is true there, and false before.
pub proof fn lemma_least_index(holds: spec_fn(int) -> bool, from: int, to: int)
    requires
        from <= to,
    ensures
        from <= least_index(holds, from, to) <= to,
        least_index(holds, from, to) < to ==> holds(least_index(holds, from, to)),
        forall|j: int| from <= j < least_index(holds, from, to) ==> !#[trigger] holds(j),
    decreases to - from,
{
    if from < to && !holds(from) {
        lemma_least_index(holds, from + 1, to);
    }
}

/// An index before which `holds` is false, and which is `to` or has `holds`
/// true, is the least index.
pub proof fn lemma_least_index_is(holds: spec_fn(int) -> bool, from: int, to: int, k: int)
    requires
        from <= k <= to,
        k < to ==> holds(k),
        forall|j: int| from <= j < k ==> !#[trigger] holds(j),
    ensures
        least_index(holds, from, to) == k,
    decreases to - from,
{
    if from < k {
        lemma_least_index_is(holds, from + 1, to, k);
    }
}

} // verus!
