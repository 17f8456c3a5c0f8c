use vstd::prelude::*;

verus! {

/// Structural failures of session operations, surfaced synchronously
/// to the caller of the offending operation.
#[derive(Clone, Copy, PartialEq, Eq, Structural, Debug)]
pub enum SessionError {
    /// A session must cover at least one unit.
    InvalidUnitCount,
    /// The unit already has an inference call in flight.
    AlreadyInFlight,
    /// The session was cancelled; no further advance is accepted.
    SessionCancelled,
    /// No completed unit holds a suggestion with the given id.
    UnknownSuggestion,
}

/// Mathematical value of an inference failure.
#[verifier::ext_equal]
pub ghost enum InferenceErrorView {
    Unavailable,
    Unparseable,
    Rejected(Seq<char>),
}

/// Failure of one unit's inference call; recovered locally as that
/// unit's `Failed` status, never unwound past the session.
#[derive(Debug)]
pub enum InferenceError {
    /// The backend could not be invoked, or timed out.
    Unavailable,
    /// The backend responded but its output could not be interpreted.
    Unparseable,
    /// The backend explicitly reported failure, with a diagnostic.
    Rejected(String),
}

impl View for InferenceError {
    type V = InferenceErrorView;

    open spec fn view(&self) -> InferenceErrorView {
        match self {
            InferenceError::Unavailable => InferenceErrorView::Unavailable,
            InferenceError::Unparseable => InferenceErrorView::Unparseable,
            InferenceError::Rejected(d) => InferenceErrorView::Rejected(d@),
        }
    }
}

impl Clone for InferenceError {
    fn clone(&self) -> (r: Self)
        ensures
            r@ == self@,
    {
        match self {
            InferenceError::Unavailable => InferenceError::Unavailable,
            InferenceError::Unparseable => InferenceError::Unparseable,
            InferenceError::Rejected(d) => InferenceError::Rejected(d.clone()),
        }
    }
}

impl InferenceError {
    /// Diagnostic text for progress reporting.
    pub fn describe(&self) -> (r: String)
        ensures
            r@ == self@.describe_spec(),
    {
        match self {
            InferenceError::Unavailable => "inference backend unavailable".to_owned(),
            InferenceError::Unparseable => "inference output unparseable".to_owned(),
            InferenceError::Rejected(d) => d.clone(),
        }
    }
}

impl InferenceErrorView {
    pub open spec fn describe_spec(self) -> Seq<char> {
        match self {
            InferenceErrorView::Unavailable => "inference backend unavailable"@,
            InferenceErrorView::Unparseable => "inference output unparseable"@,
            InferenceErrorView::Rejected(d) => d,
        }
    }
}

/// Mathematical value of an export failure.
#[verifier::ext_equal]
pub ghost enum ExportErrorView {
    ExportCancelled,
    SerializationFailed,
    WriteBackFailed(Seq<char>),
}

/// Failure of the export sequence; always surfaced to the caller,
/// since export has no partial-success state.
#[derive(Debug)]
pub enum ExportError {
    /// The user declined to choose a destination.
    ExportCancelled,
    /// The suggestion set could not be encoded for write-back.
    SerializationFailed,
    /// The write-back capability reported failure, with a diagnostic.
    WriteBackFailed(String),
}

impl View for ExportError {
    type V = ExportErrorView;

    open spec fn view(&self) -> ExportErrorView {
        match self {
            ExportError::ExportCancelled => ExportErrorView::ExportCancelled,
            ExportError::SerializationFailed => ExportErrorView::SerializationFailed,
            ExportError::WriteBackFailed(d) => ExportErrorView::WriteBackFailed(d@),
        }
    }
}

} // verus!
