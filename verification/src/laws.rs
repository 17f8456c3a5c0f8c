use vstd::prelude::*;
use crate::errors::InferenceErrorView;
use crate::export::accepted_of;
use crate::model::SuggestionView;
use crate::session::{unit_terminal, SessionView, UnitStatusView};

verus! {

/// A freshly started session is not complete: with at least one unit
/// and every unit pending, no unit is terminal.
pub proof fn lemma_fresh_session_incomplete(s: SessionView)
    requires
        s.units.len() > 0,
        forall|i: int| 0 <= i < s.units.len() ==> #[trigger] s.units[i] is Pending,
    ensures
        !s.complete(),
{
    assert(!unit_terminal(s.units[0]));
}

/// Single flight per unit: while a unit is processing, no second
/// advance of that unit is allowed, so its inference call cannot be
/// invoked twice concurrently.
pub proof fn lemma_second_advance_rejected(s: SessionView, i: int)
    requires
        0 <= i < s.units.len(),
        s.units[i] is Processing,
    ensures
        !s.advance_allowed(i),
{
}

/// Partial-failure isolation: recording one unit's failure leaves
/// every other unit exactly as advanceable as before.
pub proof fn lemma_failure_isolated(s: SessionView, k: int, e: InferenceErrorView, j: int)
    requires
        0 <= k < s.units.len(),
        0 <= j < s.units.len(),
        j != k,
    ensures
        ({
            let t = SessionView { units: s.units.update(k, UnitStatusView::Failed(e)), ..s };
            t.advance_allowed(j) == s.advance_allowed(j)
        }),
{
}

/// A failed unit is terminal: once every other unit is terminal too,
/// the session counts as complete despite the failure.
pub proof fn lemma_failed_unit_counts_complete(s: SessionView, k: int)
    requires
        0 <= k < s.units.len(),
        s.units[k] is Failed,
        forall|i: int|
            0 <= i < s.units.len() && i != k ==> unit_terminal(#[trigger] s.units[i]),
    ensures
        s.complete(),
{
}

/// Re-processing replaces a unit's suggestions wholesale: when the
/// replacement's ids are fresh against the session counter, none of
/// them reuses an id the session held before, and every one starts
/// unaccepted, so earlier acceptance is not carried over.
pub proof fn lemma_reprocessing_fresh(s: SessionView, k: int, vs: Seq<SuggestionView>)
    requires
        s.wf(),
        0 <= k < s.units.len(),
        forall|m: int|
            0 <= m < vs.len() ==> (#[trigger] vs[m]).id >= s.next_id && !vs[m].accepted,
    ensures
        forall|m: int| 0 <= m < vs.len() ==> !s.has_suggestion((#[trigger] vs[m]).id),
        forall|m: int| 0 <= m < vs.len() ==> !(#[trigger] vs[m]).accepted,
{
    assert forall|m: int| 0 <= m < vs.len() implies !s.has_suggestion((#[trigger] vs[m]).id) by {
        if s.has_suggestion(vs[m].id) {
            let (i, j) = choose|i: int, j: int|
                s.valid_loc(i, j) && #[trigger] s.sug(i, j).id == vs[m].id;
            assert(s.sug(i, j).id < s.next_id);
        }
    }
}

/// Export covers exactly the accepted suggestions: every exported
/// suggestion is accepted, so none left unaccepted is exported, and
/// every accepted one appears in the exported set.
pub proof fn lemma_export_exactly_accepted(l: Seq<SuggestionView>)
    ensures
        forall|k: int| 0 <= k < accepted_of(l).len() ==> (#[trigger] accepted_of(l)[k]).accepted,
        forall|j: int|
            0 <= j < l.len() && (#[trigger] l[j]).accepted ==> accepted_of(l).contains(l[j]),
    decreases l.len(),
{
    if l.len() > 0 {
        lemma_export_exactly_accepted(l.drop_first());
        let rest = accepted_of(l.drop_first());
        assert forall|k: int| 0 <= k < accepted_of(l).len() implies (#[trigger] accepted_of(
            l,
        )[k]).accepted by {
            if l[0].accepted {
                if k > 0 {
                    assert(accepted_of(l)[k] == rest[k - 1]);
                }
            } else {
                assert(accepted_of(l)[k] == rest[k]);
            }
        }
        assert forall|j: int| 0 <= j < l.len() && (#[trigger] l[j]).accepted implies accepted_of(
            l,
        ).contains(l[j]) by {
            if j == 0 {
                assert(accepted_of(l)[0] == l[0]);
            } else {
                assert(l.drop_first()[j - 1] == l[j]);
                assert(rest.contains(l[j]));
                let w = choose|w: int| 0 <= w < rest.len() && rest[w] == l[j];
                if l[0].accepted {
                    assert(accepted_of(l)[w + 1] == l[j]);
                } else {
                    assert(accepted_of(l)[w] == l[j]);
                }
            }
        }
    }
}

} // verus!
