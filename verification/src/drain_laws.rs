//! How the outcomes of a drain are counted.

use vstd::prelude::*;

use crate::batch::{claim_size, verdict_of, DrainSummary, Verdict};
use crate::orchestrate::{ResolutionView, UnresolvedReason};

verus! {

/// A target counts as resolved, a name that may be found another time as still
/// pending, and a name that is unknown or ambiguous as unresolved; each outcome
/// counts once and in no other column.
pub proof fn outcomes_count_in_their_column(summary: DrainSummary, r: ResolutionView)
    requires
        summary.total() < usize::MAX,
    ensures
        ({
            let now = summary.counted(verdict_of(r));
            &&& now.resolved == summary.resolved + if r is Resolved {
                1int
            } else {
                0
            }
            &&& now.still_pending == summary.still_pending + if (r matches
                ResolutionView::Unresolved { reason, .. } && reason == UnresolvedReason::Offline) {
                1int
            } else {
                0
            }
            &&& now.unresolved == summary.unresolved + if (r matches
                ResolutionView::Unresolved { reason, .. } && reason != UnresolvedReason::Offline) {
                1int
            } else {
                0
            }
        }),
        r matches ResolutionView::Resolved(t) ==> verdict_of(r) == Verdict::Resolved(t.id),
{
}

/// A round claims a whole batch beyond the items that were put back, as far as such
/// a number can be told.
pub proof fn rounds_reach_beyond_what_was_put_back(batch_size: usize, still_pending: usize)
    ensures
        batch_size + still_pending <= usize::MAX ==> claim_size(
            batch_size as int,
            still_pending as int,
        ) == batch_size + still_pending,
        batch_size + still_pending > usize::MAX ==> claim_size(
            batch_size as int,
            still_pending as int,
        ) == usize::MAX,
{
}

} // verus!
