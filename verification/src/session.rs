use vstd::prelude::*;
use crate::adapter::{kept_entries, normalize_output, normalized, output_usable};
use crate::errors::{InferenceError, InferenceErrorView, SessionError};
use crate::json::json_items;
use crate::model::{views_of, RedactionSuggestion, SuggestionView};
use crate::text::cleaned;

verus! {

/// State of one processing unit (document page or audio segment).
pub enum UnitStatus {
    /// Not yet submitted to inference.
    Pending,
    /// An inference call for this unit is in flight.
    Processing,
    /// Inference returned; these are its normalized suggestions.
    Completed(Vec<RedactionSuggestion>),
    /// Inference failed; terminal for the unit, but other units
    /// advance regardless.
    Failed(InferenceError),
}

/// Mathematical value of a unit's state.
#[verifier::ext_equal]
pub ghost enum UnitStatusView {
    Pending,
    Processing,
    Completed(Seq<SuggestionView>),
    Failed(InferenceErrorView),
}

impl View for UnitStatus {
    type V = UnitStatusView;

    open spec fn view(&self) -> UnitStatusView {
        match self {
            UnitStatus::Pending => UnitStatusView::Pending,
            UnitStatus::Processing => UnitStatusView::Processing,
            UnitStatus::Completed(v) => UnitStatusView::Completed(views_of(v@)),
            UnitStatus::Failed(e) => UnitStatusView::Failed(e@),
        }
    }
}

/// Summary of a unit's state, without its payload.
#[derive(Clone, Copy, PartialEq, Eq, Structural, Debug)]
pub enum UnitStatusKind {
    Pending,
    Processing,
    Completed,
    Failed,
}

pub open spec fn kind_of(u: UnitStatusView) -> UnitStatusKind {
    match u {
        UnitStatusView::Pending => UnitStatusKind::Pending,
        UnitStatusView::Processing => UnitStatusKind::Processing,
        UnitStatusView::Completed(_) => UnitStatusKind::Completed,
        UnitStatusView::Failed(_) => UnitStatusKind::Failed,
    }
}

/// The suggestions a unit contributes to the session's aggregate:
/// those of a completed unit, nothing otherwise.
pub open spec fn suggestions_of(u: UnitStatusView) -> Seq<SuggestionView> {
    match u {
        UnitStatusView::Completed(s) => s,
        _ => Seq::<SuggestionView>::empty(),
    }
}

/// A unit that will never change again on its own: completed or failed.
pub open spec fn unit_terminal(u: UnitStatusView) -> bool {
    u is Completed || u is Failed
}

/// The aggregate suggestion list: every completed unit's suggestions,
/// in unit order, each unit's in detection order.
pub open spec fn flat_units(units: Seq<UnitStatusView>) -> Seq<SuggestionView>
    decreases units.len(),
{
    if units.len() == 0 {
        Seq::<SuggestionView>::empty()
    } else {
        suggestions_of(units[0]) + flat_units(units.drop_first())
    }
}

/// Mathematical value of a whole session.
#[verifier::ext_equal]
pub ghost struct SessionView {
    pub artifact_ref: Seq<char>,
    pub profile: Seq<char>,
    pub units: Seq<UnitStatusView>,
    pub next_id: u64,
    pub cancelled: bool,
}

impl SessionView {
    /// The suggestion at unit `i`, position `j`.
    pub open spec fn sug(self, i: int, j: int) -> SuggestionView {
        suggestions_of(self.units[i])[j]
    }

    /// `(i, j)` addresses a suggestion of a completed unit.
    pub open spec fn valid_loc(self, i: int, j: int) -> bool {
        0 <= i < self.units.len() && 0 <= j < suggestions_of(self.units[i]).len()
    }

    /// Session invariant: every held suggestion is well formed, tagged
    /// with its own unit, carries an id below the counter, and no two
    /// suggestions share an id.
    pub open spec fn wf(self) -> bool {
        &&& forall|i: int, j: int|
            self.valid_loc(i, j) ==> {
                let s = #[trigger] self.sug(i, j);
                s.wf() && s.id < self.next_id && s.coordinates.page == i
            }
        &&& forall|i1: int, j1: int, i2: int, j2: int|
            self.valid_loc(i1, j1) && self.valid_loc(i2, j2) && (i1 != i2 || j1 != j2)
                ==> #[trigger] self.sug(i1, j1).id != #[trigger] self.sug(i2, j2).id
    }

    /// Every unit has resolved, successfully or not.
    pub open spec fn complete(self) -> bool {
        forall|i: int| 0 <= i < self.units.len() ==> unit_terminal(#[trigger] self.units[i])
    }

    /// Some completed unit holds a suggestion with this id.
    pub open spec fn has_suggestion(self, id: u64) -> bool {
        exists|i: int, j: int| self.valid_loc(i, j) && #[trigger] self.sug(i, j).id == id
    }

    /// An advance of unit `i` is allowed: the session is not cancelled
    /// and no call for that unit is already in flight.
    pub open spec fn advance_allowed(self, i: int) -> bool {
        !self.cancelled && !(self.units[i] is Processing)
    }

    /// The same session with the suggestion carrying `id`, wherever it
    /// is, set to `accepted`.
    pub open spec fn with_acceptance(self, id: u64, accepted: bool) -> SessionView {
        SessionView {
            units: Seq::new(
                self.units.len(),
                |i: int|
                    match self.units[i] {
                        UnitStatusView::Completed(v) => UnitStatusView::Completed(
                            v.map_values(
                                |s: SuggestionView|
                                    if s.id == id {
                                        s.with_accepted(accepted)
                                    } else {
                                        s
                                    },
                            ),
                        ),
                        u => u,
                    },
            ),
            ..self
        }
    }
}

/// Replacing one unit preserves the invariant when the new unit's
/// suggestions are fresh: well formed, tagged for that unit, ids
/// counted up from the old counter, and the counter moved past them.
proof fn lemma_wf_after_update(o: SessionView, nv: SessionView, u: int, st: UnitStatusView)
    requires
        o.wf(),
        0 <= u < o.units.len(),
        nv.units == o.units.update(u, st),
        nv.next_id >= o.next_id,
        ({
            let vs = suggestions_of(st);
            &&& o.next_id + vs.len() <= nv.next_id
            &&& forall|k: int|
                0 <= k < vs.len() ==> {
                    let s = #[trigger] vs[k];
                    s.wf() && s.id == o.next_id + k && s.coordinates.page == u
                }
        }),
    ensures
        nv.wf(),
{
    let vs = suggestions_of(st);
    assert(nv.units.len() == o.units.len());
    assert forall|i: int, j: int| nv.valid_loc(i, j) implies ({
        let s = #[trigger] nv.sug(i, j);
        s.wf() && s.id < nv.next_id && s.coordinates.page == i
    }) by {
        if i == u {
            assert(nv.sug(i, j) == vs[j]);
        } else {
            assert(nv.units[i] == o.units[i]);
            assert(o.valid_loc(i, j));
            assert(nv.sug(i, j) == o.sug(i, j));
        }
    }
    assert forall|i1: int, j1: int, i2: int, j2: int|
        nv.valid_loc(i1, j1) && nv.valid_loc(i2, j2) && (i1 != i2 || j1 != j2) implies #[trigger] nv.sug(
        i1,
        j1,
    ).id != #[trigger] nv.sug(i2, j2).id by {
        if i1 == u && i2 == u {
            assert(nv.sug(i1, j1) == vs[j1]);
            assert(nv.sug(i2, j2) == vs[j2]);
        } else if i1 == u {
            assert(nv.sug(i1, j1) == vs[j1]);
            assert(nv.units[i2] == o.units[i2]);
            assert(o.valid_loc(i2, j2));
            assert(nv.sug(i2, j2) == o.sug(i2, j2));
            assert(o.sug(i2, j2).id < o.next_id);
        } else if i2 == u {
            assert(nv.sug(i2, j2) == vs[j2]);
            assert(nv.units[i1] == o.units[i1]);
            assert(o.valid_loc(i1, j1));
            assert(nv.sug(i1, j1) == o.sug(i1, j1));
            assert(o.sug(i1, j1).id < o.next_id);
        } else {
            assert(nv.units[i1] == o.units[i1]);
            assert(nv.units[i2] == o.units[i2]);
            assert(o.valid_loc(i1, j1) && o.valid_loc(i2, j2));
            assert(nv.sug(i1, j1) == o.sug(i1, j1));
            assert(nv.sug(i2, j2) == o.sug(i2, j2));
        }
    }
}

/// Aggregate view of a session at one point in time.
pub struct Snapshot {
    /// Each unit's state, by unit index.
    pub statuses: Vec<UnitStatusKind>,
    /// Every completed unit's suggestions, flattened in order.
    pub suggestions: Vec<RedactionSuggestion>,
    /// Whether the session was cancelled.
    pub cancelled: bool,
}

/// Per-document state machine: unit list, per-unit status, the
/// accumulated suggestions, the profile in effect, and the
/// suggestion-id counter.
pub struct Session {
    /// Reference to the source artifact (a path or handle).
    pub artifact_ref: String,
    /// Redaction profile in effect for inference calls.
    pub profile: String,
    /// Status of each unit, indexed by unit number.
    pub units: Vec<UnitStatus>,
    /// Next suggestion id to hand out; monotonically increasing.
    pub next_id: u64,
    /// Set by `cancel`; blocks further advances.
    pub cancelled: bool,
}

impl View for Session {
    type V = SessionView;

    open spec fn view(&self) -> SessionView {
        SessionView {
            artifact_ref: self.artifact_ref@,
            profile: self.profile@,
            units: self.units@.map_values(|u: UnitStatus| u@),
            next_id: self.next_id,
            cancelled: self.cancelled,
        }
    }
}

impl Session {
    /// Opens a session over `total_units` pending units.
    pub fn start(artifact_ref: String, total_units: usize, profile: String) -> (r: Result<
        Session,
        SessionError,
    >)
        ensures
            match r {
                Ok(s) => {
                    &&& total_units > 0
                    &&& s@.wf()
                    &&& s@.artifact_ref == artifact_ref@
                    &&& s@.profile == profile@
                    &&& s@.units.len() == total_units
                    &&& forall|i: int| 0 <= i < total_units ==> s@.units[i] is Pending
                    &&& s@.next_id == 0
                    &&& !s@.cancelled
                },
                Err(e) => total_units == 0 && e == SessionError::InvalidUnitCount,
            },
    {
        if total_units == 0 {
            return Err(SessionError::InvalidUnitCount);
        }
        let mut units: Vec<UnitStatus> = Vec::new();
        let mut i: usize = 0;
        while i < total_units
            invariant
                i <= total_units,
                units@.len() == i,
                forall|k: int| 0 <= k < i ==> (#[trigger] units@[k])@ is Pending,
            decreases total_units - i,
        {
            units.push(UnitStatus::Pending);
            i = i + 1;
        }
        let s = Session { artifact_ref, profile, units, next_id: 0, cancelled: false };
        proof {
            assert forall|k: int| 0 <= k < total_units implies s@.units[k] is Pending by {
                assert(s@.units[k] == s.units@[k]@);
            }
            assert forall|i2: int, j2: int| s@.valid_loc(i2, j2) implies false by {
                assert(suggestions_of(s@.units[i2]).len() == 0);
            }
        }
        Ok(s)
    }

    /// How many units this session covers.
    pub fn total_units(&self) -> (r: usize)
        ensures
            r == self@.units.len(),
    {
        self.units.len()
    }

    /// The id the next suggestion will get.
    pub fn peek_next_id(&self) -> (r: u64)
        ensures
            r == self@.next_id,
    {
        self.next_id
    }

    /// Summary of one unit's state.
    pub fn unit_kind(&self, unit_index: usize) -> (r: UnitStatusKind)
        requires
            unit_index < self@.units.len(),
        ensures
            r == kind_of(self@.units[unit_index as int]),
    {
        proof {
            assert(self@.units[unit_index as int] == self.units@[unit_index as int]@);
        }
        match &self.units[unit_index] {
            UnitStatus::Pending => UnitStatusKind::Pending,
            UnitStatus::Processing => UnitStatusKind::Processing,
            UnitStatus::Completed(_) => UnitStatusKind::Completed,
            UnitStatus::Failed(_) => UnitStatusKind::Failed,
        }
    }

    /// The suggestions of one unit: those it completed with, or none.
    pub fn unit_suggestions(&self, unit_index: usize) -> (r: Vec<RedactionSuggestion>)
        requires
            unit_index < self@.units.len(),
        ensures
            views_of(r@) == suggestions_of(self@.units[unit_index as int]),
    {
        proof {
            assert(self@.units[unit_index as int] == self.units@[unit_index as int]@);
        }
        let mut out: Vec<RedactionSuggestion> = Vec::new();
        match &self.units[unit_index] {
            UnitStatus::Completed(v) => {
                let n = v.len();
                let mut j: usize = 0;
                proof {
                    assert(views_of(out@) =~= views_of(v@).take(0));
                }
                while j < n
                    invariant
                        j <= n,
                        n == v@.len(),
                        views_of(out@) == views_of(v@).take(j as int),
                    decreases n - j,
                {
                    let ghost pre = out@;
                    let ghost jold = j as int;
                    let c = v[j].clone();
                    proof {
                        assert(views_of(v@)[jold] == v@[jold]@);
                    }
                    out.push(c);
                    j = j + 1;
                    proof {
                        assert(out@ == pre.push(c));
                        assert(views_of(pre).len() == pre.len());
                        assert(pre.len() == jold);
                        assert forall|m: int| 0 <= m < jold + 1 implies views_of(out@)[m]
                            == views_of(v@).take(jold + 1)[m] by {
                            assert(views_of(out@)[m] == out@[m]@);
                            if m < jold {
                                assert(out@[m] == pre[m]);
                                assert(views_of(pre)[m] == pre[m]@);
                            } else {
                                assert(out@[m] == c);
                            }
                        }
                        assert(views_of(out@) =~= views_of(v@).take(jold + 1));
                    }
                }
                proof {
                    assert(views_of(v@).take(n as int) =~= views_of(v@));
                }
            },
            _ => {
                proof {
                    assert(views_of(out@) =~= Seq::<SuggestionView>::empty());
                }
            },
        }
        out
    }

    /// True once every unit has completed or failed.
    pub fn is_complete(&self) -> (r: bool)
        ensures
            r == self@.complete(),
    {
        let n = self.units.len();
        let mut i: usize = 0;
        while i < n
            invariant
                i <= n,
                n == self.units@.len(),
                self@.units.len() == n,
                forall|k: int| 0 <= k < i ==> unit_terminal(#[trigger] self@.units[k]),
            decreases n - i,
        {
            proof {
                assert(self@.units[i as int] == self.units@[i as int]@);
            }
            match &self.units[i] {
                UnitStatus::Pending => {
                    return false;
                },
                UnitStatus::Processing => {
                    return false;
                },
                _ => {},
            }
            i = i + 1;
        }
        true
    }

    /// Marks the session cancelled; in-flight units still resolve, but
    /// no further advance is accepted.
    pub fn cancel(&mut self)
        ensures
            final(self)@ == (SessionView { cancelled: true, ..old(self)@ }),
    {
        self.cancelled = true;
        proof {
            assert(self@ =~= SessionView { cancelled: true, ..old(self)@ });
        }
    }

    /// Claims unit `unit_index` for an inference call: pending,
    /// completed and failed units may all (re-)enter processing, but a
    /// cancelled session or a unit already in flight is refused.
    pub fn begin_advance(&mut self, unit_index: usize) -> (r: Result<(), SessionError>)
        requires
            old(self)@.wf(),
            unit_index < old(self)@.units.len(),
        ensures
            final(self)@.wf(),
            match r {
                Ok(()) => old(self)@.advance_allowed(unit_index as int) && final(self)@
                    == (SessionView {
                    units: old(self)@.units.update(unit_index as int, UnitStatusView::Processing),
                    ..old(self)@
                }),
                Err(e) => {
                    &&& final(self)@ == old(self)@
                    &&& !old(self)@.advance_allowed(unit_index as int)
                    &&& (e == SessionError::SessionCancelled <==> old(self)@.cancelled)
                    &&& (e == SessionError::AlreadyInFlight <==> !old(self)@.cancelled)
                },
            },
    {
        if self.cancelled {
            return Err(SessionError::SessionCancelled);
        }
        let in_flight = match &self.units[unit_index] {
            UnitStatus::Processing => true,
            _ => false,
        };
        proof {
            assert(self@.units[unit_index as int] == self.units@[unit_index as int]@);
        }
        if in_flight {
            return Err(SessionError::AlreadyInFlight);
        }
        let ghost o = self@;
        self.units.set(unit_index, UnitStatus::Processing);
        proof {
            let nv = self@;
            assert forall|k: int| 0 <= k < nv.units.len() implies nv.units[k] == o.units.update(
                unit_index as int,
                UnitStatusView::Processing,
            )[k] by {
                assert(nv.units[k] == self.units@[k]@);
                if k != unit_index as int {
                    assert(self.units@[k] == old(self).units@[k]);
                    assert(o.units[k] == old(self).units@[k]@);
                }
            }
            assert(nv.units =~= o.units.update(unit_index as int, UnitStatusView::Processing));
            assert(nv =~= (SessionView {
                units: o.units.update(unit_index as int, UnitStatusView::Processing),
                ..o
            }));
            assert(suggestions_of(UnitStatusView::Processing).len() == 0);
            lemma_wf_after_update(o, nv, unit_index as int, UnitStatusView::Processing);
        }
        Ok(())
    }

    /// Resolves a unit in flight with the outcome of its inference
    /// call: completed with the normalized suggestions, or failed.
    /// A successful outcome's suggestions must be fresh: unaccepted,
    /// tagged for this unit, ids counted up from the session counter.
    pub fn finish_advance(
        &mut self,
        unit_index: usize,
        outcome: Result<Vec<RedactionSuggestion>, InferenceError>,
    )
        requires
            old(self)@.wf(),
            unit_index < old(self)@.units.len(),
            old(self)@.units[unit_index as int] is Processing,
            ({
                match outcome {
                    Ok(v) => {
                        let vs = views_of(v@);
                        &&& old(self)@.next_id + vs.len() <= u64::MAX
                        &&& forall|k: int|
                            0 <= k < vs.len() ==> {
                                let s = #[trigger] vs[k];
                                &&& s.wf()
                                &&& s.id == old(self)@.next_id + k
                                &&& s.coordinates.page == unit_index
                                &&& !s.accepted
                            }
                    },
                    Err(_) => true,
                }
            }),
        ensures
            final(self)@.wf(),
            ({
                let st = match outcome {
                    Ok(v) => UnitStatusView::Completed(views_of(v@)),
                    Err(e) => UnitStatusView::Failed(e@),
                };
                let grown = match outcome {
                    Ok(v) => views_of(v@).len() as int,
                    Err(_) => 0,
                };
                &&& final(self)@.units == old(self)@.units.update(unit_index as int, st)
                &&& final(self)@.next_id == old(self)@.next_id + grown
                &&& final(self)@.cancelled == old(self)@.cancelled
                &&& final(self)@.artifact_ref == old(self)@.artifact_ref
                &&& final(self)@.profile == old(self)@.profile
            }),
    {
        let ghost o = self@;
        let ghost st: UnitStatusView = match &outcome {
            Ok(v) => UnitStatusView::Completed(views_of(v@)),
            Err(e) => UnitStatusView::Failed(e@),
        };
        match outcome {
            Ok(v) => {
                let n = v.len();
                self.units.set(unit_index, UnitStatus::Completed(v));
                self.next_id = self.next_id + (n as u64);
            },
            Err(e) => {
                self.units.set(unit_index, UnitStatus::Failed(e));
            },
        }
        proof {
            let nv = self@;
            assert forall|k: int| 0 <= k < nv.units.len() implies nv.units[k] == o.units.update(
                unit_index as int,
                st,
            )[k] by {
                assert(nv.units[k] == self.units@[k]@);
                if k != unit_index as int {
                    assert(self.units@[k] == old(self).units@[k]);
                    assert(o.units[k] == old(self).units@[k]@);
                }
            }
            assert(nv.units =~= o.units.update(unit_index as int, st));
            lemma_wf_after_update(o, nv, unit_index as int, st);
        }
    }

    /// Advances one unit from the raw backend response, assigning
    /// fresh ids from the session counter: a reply is normalized by
    /// the adapter, and a reported failure is recorded as it stands.
    pub fn record_inference(&mut self, unit_index: usize, raw: Result<String, InferenceError>)
        requires
            old(self)@.wf(),
            unit_index < old(self)@.units.len(),
            old(self)@.units[unit_index as int] is Processing,
        ensures
            final(self)@.wf(),
            ({
                let st = match raw {
                    Ok(text) => {
                        let s = cleaned(text@);
                        if output_usable(s) && old(self)@.next_id + kept_entries(
                            json_items(s),
                        ).len() <= u64::MAX {
                            UnitStatusView::Completed(
                                normalized(s, unit_index, old(self)@.next_id),
                            )
                        } else {
                            UnitStatusView::Failed(InferenceErrorView::Unparseable)
                        }
                    },
                    Err(e) => UnitStatusView::Failed(e@),
                };
                &&& final(self)@.units == old(self)@.units.update(unit_index as int, st)
                &&& final(self)@.next_id == old(self)@.next_id + suggestions_of(st).len()
                &&& final(self)@.cancelled == old(self)@.cancelled
                &&& final(self)@.artifact_ref == old(self)@.artifact_ref
                &&& final(self)@.profile == old(self)@.profile
            }),
    {
        match raw {
            Ok(text) => {
                let outcome = normalize_output(text.as_str(), unit_index, self.next_id);
                self.finish_advance(unit_index, outcome);
            },
            Err(e) => {
                self.finish_advance(unit_index, Err(e));
            },
        }
    }

    /// Toggles one suggestion's acceptance flag, addressed by id.
    pub fn set_accepted(&mut self, suggestion_id: u64, accepted: bool) -> (r: Result<
        (),
        SessionError,
    >)
        requires
            old(self)@.wf(),
        ensures
            final(self)@.wf(),
            match r {
                Ok(()) => old(self)@.has_suggestion(suggestion_id) && final(self)@ == old(
                    self,
                )@.with_acceptance(suggestion_id, accepted),
                Err(e) => {
                    &&& final(self)@ == old(self)@
                    &&& !old(self)@.has_suggestion(suggestion_id)
                    &&& e == SessionError::UnknownSuggestion
                },
            },
    {
        let n = self.units.len();
        let mut i: usize = 0;
        while i < n
            invariant
                i <= n,
                n == self.units@.len(),
                self@ == old(self)@,
                self@.wf(),
                forall|i2: int, j2: int|
                    self@.valid_loc(i2, j2) && i2 < i ==> #[trigger] self@.sug(i2, j2).id
                        != suggestion_id,
            decreases n - i,
        {
            proof {
                assert(self@.units[i as int] == self.units@[i as int]@);
            }
            let mut found: Option<usize> = None;
            match &self.units[i] {
                UnitStatus::Completed(v) => {
                    let m = v.len();
                    let mut j: usize = 0;
                    while j < m
                        invariant
                            j <= m,
                            m == v@.len(),
                            views_of(v@) == suggestions_of(self@.units[i as int]),
                            found matches Some(jj) ==> jj < m && views_of(v@)[jj as int].id
                                == suggestion_id,
                            found is None ==> forall|j2: int|
                                0 <= j2 < j ==> (#[trigger] views_of(v@)[j2]).id != suggestion_id,
                        decreases m - j,
                    {
                        if found.is_none() && v[j].id == suggestion_id {
                            found = Some(j);
                            proof {
                                assert(views_of(v@)[j as int] == v@[j as int]@);
                            }
                        }
                        proof {
                            assert(views_of(v@)[j as int] == v@[j as int]@);
                        }
                        j = j + 1;
                    }
                },
                _ => {},
            }
            match found {
                Some(j) => {
                    let r = self.apply_acceptance(i, j, suggestion_id, accepted);
                    return r;
                },
                None => {
                    proof {
                        assert forall|i2: int, j2: int|
                            self@.valid_loc(i2, j2) && i2 < i + 1 implies #[trigger] self@.sug(
                            i2,
                            j2,
                        ).id != suggestion_id by {
                            if i2 == i as int {
                                assert(self@.sug(i2, j2) == suggestions_of(
                                    self@.units[i as int],
                                )[j2]);
                            }
                        }
                    }
                },
            }
            i = i + 1;
        }
        proof {
            assert(!self@.has_suggestion(suggestion_id));
        }
        Err(SessionError::UnknownSuggestion)
    }

    /// Aggregate view at call time: each unit's state and the
    /// flattened suggestion list, ordered by unit index, then by
    /// detection order within the unit.
    pub fn snapshot(&self) -> (r: Snapshot)
        ensures
            r.statuses@.len() == self@.units.len(),
            forall|i: int|
                0 <= i < self@.units.len() ==> r.statuses@[i] == kind_of(
                    #[trigger] self@.units[i],
                ),
            views_of(r.suggestions@) == flat_units(self@.units),
            r.cancelled == self@.cancelled,
    {
        let n = self.units.len();
        let mut statuses: Vec<UnitStatusKind> = Vec::new();
        let mut suggestions: Vec<RedactionSuggestion> = Vec::new();
        let mut i: usize = 0;
        proof {
            assert(self@.units.skip(0) =~= self@.units);
            assert(views_of(suggestions@) =~= Seq::<SuggestionView>::empty());
        }
        while i < n
            invariant
                i <= n,
                n == self.units@.len(),
                self@.units.len() == n,
                self@.units == self.units@.map_values(|u: UnitStatus| u@),
                statuses@.len() == i,
                forall|k: int|
                    0 <= k < i ==> statuses@[k] == kind_of(#[trigger] self@.units[k]),
                views_of(suggestions@) + flat_units(self@.units.skip(i as int)) == flat_units(
                    self@.units,
                ),
            decreases n - i,
        {
            let ghost tail = self@.units.skip(i as int);
            proof {
                assert(tail[0] == self@.units[i as int]);
                assert(tail.drop_first() =~= self@.units.skip(i as int + 1));
            }
            statuses.push(self.unit_kind(i));
            let mut us = self.unit_suggestions(i);
            let ghost usv = us@;
            let ghost pre = suggestions@;
            suggestions.append(&mut us);
            i = i + 1;
            proof {
                assert(suggestions@ == pre + usv);
                assert forall|m: int| 0 <= m < suggestions@.len() implies views_of(
                    suggestions@,
                )[m] == (views_of(pre) + views_of(usv))[m] by {
                    assert(views_of(suggestions@)[m] == suggestions@[m]@);
                    if m < pre.len() {
                        assert(suggestions@[m] == pre[m]);
                        assert(views_of(pre)[m] == pre[m]@);
                    } else {
                        assert(suggestions@[m] == usv[m - pre.len()]);
                        assert(views_of(usv)[m - pre.len()] == usv[m - pre.len()]@);
                    }
                }
                assert(views_of(suggestions@) =~= views_of(pre) + views_of(usv));
                assert(flat_units(tail) == suggestions_of(tail[0]) + flat_units(
                    tail.drop_first(),
                ));
                assert(views_of(suggestions@) + flat_units(self@.units.skip(i as int)) =~= flat_units(
                    self@.units,
                ));
            }
        }
        proof {
            assert(self@.units.skip(n as int) =~= Seq::<UnitStatusView>::empty());
            assert(views_of(suggestions@) =~= flat_units(self@.units));
        }
        Snapshot { statuses, suggestions, cancelled: self.cancelled }
    }

    /// Rewrites the suggestion at a known location with the new
    /// acceptance flag.
    fn apply_acceptance(&mut self, i: usize, j: usize, suggestion_id: u64, accepted: bool) -> (r:
        Result<(), SessionError>)
        requires
            old(self)@.wf(),
            old(self)@.valid_loc(i as int, j as int),
            old(self)@.sug(i as int, j as int).id == suggestion_id,
        ensures
            final(self)@.wf(),
            r is Ok,
            old(self)@.has_suggestion(suggestion_id),
            final(self)@ == old(self)@.with_acceptance(suggestion_id, accepted),
    {
        let ghost o = self@;
        proof {
            assert(o.sug(i as int, j as int).id == suggestion_id);
            assert(o.has_suggestion(suggestion_id));
            assert(self@.units[i as int] == self.units@[i as int]@);
        }
        let mut nv: Vec<RedactionSuggestion> = Vec::new();
        match &self.units[i] {
            UnitStatus::Completed(v) => {
                let m = v.len();
                let mut k: usize = 0;
                proof {
                    assert(views_of(v@) == suggestions_of(o.units[i as int]));
                }
                while k < m
                    invariant
                        k <= m,
                        m == v@.len(),
                        views_of(v@) == suggestions_of(o.units[i as int]),
                        views_of(nv@) == views_of(v@).take(k as int).map_values(
                            |s: SuggestionView|
                                if s.id == suggestion_id {
                                    s.with_accepted(accepted)
                                } else {
                                    s
                                },
                        ),
                    decreases m - k,
                {
                    let mut c = v[k].clone();
                    if c.id == suggestion_id {
                        c.accepted = accepted;
                    }
                    let ghost pre = nv@;
                    proof {
                        assert(v@[k as int]@ == views_of(v@)[k as int]);
                        if v@[k as int]@.id == suggestion_id {
                            assert(c@ =~= v@[k as int]@.with_accepted(accepted));
                        } else {
                            assert(c@ =~= v@[k as int]@);
                        }
                    }
                    let ghost kold = k as int;
                    let ghost cval = c@;
                    nv.push(c);
                    k = k + 1;
                    proof {
                        let f = |s: SuggestionView|
                            if s.id == suggestion_id {
                                s.with_accepted(accepted)
                            } else {
                                s
                            };
                        assert(nv@.len() == pre.len() + 1);
                        assert(views_of(pre).len() == pre.len());
                        assert(pre.len() == kold);
                        let tgt = views_of(v@).take(kold + 1).map_values(f);
                        assert forall|m2: int| 0 <= m2 < kold + 1 implies views_of(nv@)[m2]
                            == tgt[m2] by {
                            assert(views_of(nv@)[m2] == nv@[m2]@);
                            assert(tgt[m2] == f(views_of(v@)[m2]));
                            if m2 < kold {
                                assert(nv@[m2] == pre[m2]);
                                assert(views_of(pre)[m2] == pre[m2]@);
                                assert(views_of(v@).take(kold).map_values(f)[m2] == f(
                                    views_of(v@)[m2],
                                ));
                            } else {
                                assert(nv@[m2]@ == cval);
                            }
                        }
                        assert(views_of(nv@) =~= tgt);
                    }
                }
                proof {
                    assert(views_of(v@).take(m as int) =~= views_of(v@));
                }
            },
            _ => {
                proof {
                    assert(false);
                }
            },
        }
        self.units.set(i, UnitStatus::Completed(nv));
        proof {
            let nview = self@;
            let tgt = o.with_acceptance(suggestion_id, accepted);
            let f = |s: SuggestionView|
                if s.id == suggestion_id {
                    s.with_accepted(accepted)
                } else {
                    s
                };
            assert forall|k: int| 0 <= k < nview.units.len() implies nview.units[k] == tgt.units[k] by {
                assert(nview.units[k] == self.units@[k]@);
                if k == i as int {
                    assert(nview.units[k] == UnitStatusView::Completed(
                        suggestions_of(o.units[k]).map_values(f),
                    ));
                } else {
                    assert(self.units@[k] == old(self).units@[k]);
                    assert(o.units[k] == old(self).units@[k]@);
                    match o.units[k] {
                        UnitStatusView::Completed(w) => {
                            assert forall|j2: int| 0 <= j2 < w.len() implies w.map_values(f)[j2]
                                == w[j2] by {
                                assert(o.valid_loc(k, j2));
                                assert(o.sug(k, j2) == w[j2]);
                                if w[j2].id == suggestion_id {
                                    assert(o.valid_loc(i as int, j as int));
                                    assert(o.sug(i as int, j as int).id == suggestion_id);
                                    assert(false);
                                }
                            }
                            assert(w.map_values(f) =~= w);
                            assert(tgt.units[k] == UnitStatusView::Completed(w.map_values(f)));
                        },
                        _ => {
                            assert(tgt.units[k] == o.units[k]);
                        },
                    }
                }
            }
            assert(nview.units =~= tgt.units);
            assert(nview =~= tgt);
            assert forall|i2: int, j2: int| nview.valid_loc(i2, j2) implies ({
                let s = #[trigger] nview.sug(i2, j2);
                s.wf() && s.id < nview.next_id && s.coordinates.page == i2
            }) by {
                assert(o.valid_loc(i2, j2));
                assert(nview.sug(i2, j2) == f(o.sug(i2, j2)));
            }
            assert forall|i1: int, j1: int, i2: int, j2: int|
                nview.valid_loc(i1, j1) && nview.valid_loc(i2, j2) && (i1 != i2 || j1 != j2)
                implies #[trigger] nview.sug(i1, j1).id != #[trigger] nview.sug(i2, j2).id by {
                assert(o.valid_loc(i1, j1) && o.valid_loc(i2, j2));
                assert(nview.sug(i1, j1) == f(o.sug(i1, j1)));
                assert(nview.sug(i2, j2) == f(o.sug(i2, j2)));
            }
            assert(nview.wf());
        }
        Ok(())
    }
}

} // verus!
