//! The ways in which a run can fail.

use vstd::prelude::*;

verus! {

/// Why a run was abandoned.
#[derive(Debug, PartialEq, Eq)]
pub enum Failure {
    /// The root path, or the inference program, does not exist. Carries the
    /// message of the system.
    NotFound(String),
    /// A directory or a file could not be read, or the output not written.
    /// Carries the message of the system.
    Io(String),
    /// The inference process ended with a failure status. Carries what the
    /// process wrote to its standard error.
    ProcessFailure(String),
    /// The collected files could not be put into their textual form.
    Serialization,
    /// The pattern for reasoning blocks was not accepted by the pattern engine.
    Pattern,
}

/// A failure with its message as a sequence of characters.
pub enum FailureView {
    NotFound(Seq<char>),
    Io(Seq<char>),
    ProcessFailure(Seq<char>),
    Serialization,
    Pattern,
}

impl View for Failure {
    type V = FailureView;

    open spec fn view(&self) -> FailureView {
        match self {
            Failure::NotFound(m) => FailureView::NotFound(m@),
            Failure::Io(m) => FailureView::Io(m@),
            Failure::ProcessFailure(m) => FailureView::ProcessFailure(m@),
            Failure::Serialization => FailureView::Serialization,
            Failure::Pattern => FailureView::Pattern,
        }
    }
}

impl FailureView {
    /// The message to show for the failure.
    pub open spec fn message(self) -> Seq<char> {
        match self {
            FailureView::NotFound(m) => m,
            FailureView::Io(m) => m,
            FailureView::ProcessFailure(m) => m,
            FailureView::Serialization => "the collected files could not be serialized"@,
            FailureView::Pattern => "the pattern of a reasoning block was not accepted"@,
        }
    }
}

impl Failure {
    /// The message to show for the failure.
    pub fn message(&self) -> (text: &str)
        ensures
            text@ == self@.message(),
    {
        match self {
            Failure::NotFound(m) => m.as_str(),
            Failure::Io(m) => m.as_str(),
            Failure::ProcessFailure(m) => m.as_str(),
            Failure::Serialization => "the collected files could not be serialized",
            Failure::Pattern => "the pattern of a reasoning block was not accepted",
        }
    }
}

/// A text, or the failure to produce it, with the text and the failure's
/// message as sequences of characters.
pub open spec fn text_or_failure(outcome: Result<String, Failure>) -> Result<
    Seq<char>,
    FailureView,
> {
    match outcome {
        Ok(text) => Ok(text@),
        Err(failure) => Err(failure@),
    }
}

} // verus!
