//! Outcomes that are kept from the first time on.

use vstd::prelude::*;

verus! {

/// The outcome that is kept, or the fresh one if none is kept yet.
pub open spec fn kept_or<A>(kept: Option<A>, fresh: A) -> A {
    match kept {
        Some(first) => first,
        None => fresh,
    }
}

/// What is kept after some calls, given what was kept before and what each call
/// would find afresh.
pub open spec fn kept_after<A>(kept: Option<A>, fresh: Seq<A>) -> Option<A>
    decreases fresh.len(),
{
    if fresh.len() == 0 {
        kept
    } else {
        Some(kept_or(kept_after(kept, fresh.drop_last()), fresh.last()))
    }
}

/// What a call tells, given what was kept before the first of the calls and what
/// each of them would find afresh.
pub open spec fn told_at<A>(kept: Option<A>, fresh: Seq<A>, k: int) -> A {
    kept_or(kept_after(kept, fresh.take(k)), fresh[k])
}

/// Every call tells the same: what was kept before, else what the first of the
/// calls found. What the later ones would find makes no difference.
pub proof fn law_first_outcome_is_told_again<A>(kept: Option<A>, fresh: Seq<A>, k: int)
    requires
        0 <= k < fresh.len(),
    ensures
        told_at(kept, fresh, k) == kept_or(kept, fresh[0]),
        kept_after(kept, fresh.take(k + 1)) == Some(kept_or(kept, fresh[0])),
    decreases k,
{
    assert(fresh.take(k + 1).drop_last() =~= fresh.take(k));
    if k > 0 {
        law_first_outcome_is_told_again(kept, fresh, k - 1);
    }
}

/// What is kept is told, whatever would be found afresh; where nothing is kept,
/// what was found first is told by every call.
pub proof fn law_what_is_kept_is_told<A>(first: A, fresh: Seq<A>, k: int)
    requires
        0 <= k < fresh.len(),
    ensures
        told_at(Some(first), fresh, k) == first,
        told_at(None, fresh, k) == fresh[0],
        kept_or(Some(first), fresh[k]) == first,
        kept_or(None, fresh[k]) == fresh[k],
{
    law_first_outcome_is_told_again(Some(first), fresh, k);
    law_first_outcome_is_told_again(None, fresh, k);
}

} // verus!
