use vstd::prelude::*;

verus! {

/// Location of one proposed redaction inside the source artifact.
///
/// Offsets are fixed-point values in thousandths of the backend's
/// reported unit, so that the whole model stays in integer arithmetic.
/// For audio artifacts, `x` carries the start time and `width` the
/// duration of the segment to silence.
#[derive(Clone, Copy, PartialEq, Eq, Structural, Debug)]
pub struct RedactionCoordinates {
    /// Index of the processing unit (document page or audio segment).
    pub page: usize,
    pub x: i64,
    pub y: i64,
    pub width: i64,
    pub height: i64,
}

impl RedactionCoordinates {
    /// A region never has a negative extent.
    pub open spec fn wf(self) -> bool {
        self.width >= 0 && self.height >= 0
    }
}

/// Mathematical value of one redaction candidate.
#[verifier::ext_equal]
pub ghost struct SuggestionView {
    pub id: u64,
    pub text: Seq<char>,
    pub confidence: u32,
    pub category: Seq<char>,
    pub reason: Option<Seq<char>>,
    pub coordinates: RedactionCoordinates,
    pub accepted: bool,
}

impl SuggestionView {
    /// Confidence is a fixed-point fraction of one, so at most 1000
    /// thousandths, and the region is well formed.
    pub open spec fn wf(self) -> bool {
        self.confidence <= 1000 && self.coordinates.wf()
    }

    /// The same candidate with only its acceptance flag changed.
    pub open spec fn with_accepted(self, accepted: bool) -> SuggestionView {
        SuggestionView { accepted, ..self }
    }
}

/// One candidate redaction produced by inference for a single unit,
/// pending user acceptance.
pub struct RedactionSuggestion {
    /// Unique within the owning session, assigned from its counter.
    pub id: u64,
    /// Detected sensitive span; may be empty for audio artifacts.
    pub text: String,
    /// Confidence in thousandths, between 0 and 1000.
    pub confidence: u32,
    /// Open enumeration such as "PII", "FINANCIAL", "MEDICAL".
    pub category: String,
    /// Optional human-readable justification.
    pub reason: Option<String>,
    pub coordinates: RedactionCoordinates,
    /// Set only by the caller, through the session; starts false.
    pub accepted: bool,
}

impl View for RedactionSuggestion {
    type V = SuggestionView;

    open spec fn view(&self) -> SuggestionView {
        SuggestionView {
            id: self.id,
            text: self.text@,
            confidence: self.confidence,
            category: self.category@,
            reason: match self.reason {
                Some(r) => Some(r@),
                None => None,
            },
            coordinates: self.coordinates,
            accepted: self.accepted,
        }
    }
}

impl Clone for RedactionSuggestion {
    fn clone(&self) -> (r: Self)
        ensures
            r@ == self@,
    {
        RedactionSuggestion {
            id: self.id,
            text: self.text.clone(),
            confidence: self.confidence,
            category: self.category.clone(),
            reason: match &self.reason {
                Some(r) => Some(r.clone()),
                None => None,
            },
            coordinates: self.coordinates,
            accepted: self.accepted,
        }
    }
}

/// The views of a list of suggestions, in order.
pub open spec fn views_of(v: Seq<RedactionSuggestion>) -> Seq<SuggestionView> {
    v.map_values(|s: RedactionSuggestion| s@)
}

/// Reported state of the inference engine after an initialization attempt.
pub struct InitializationStatus {
    /// One of "initializing", "downloading_model", "ready", "error".
    pub status: String,
    pub message: String,
}

} // verus!
