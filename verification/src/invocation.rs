//! The inference process: how it is invoked, and what a run makes of the way
//! it ended.

use vstd::prelude::*;
use vstd::string::StringExecFns;
use crate::error::{text_or_failure, Failure, FailureView};
use crate::sanitize::{sanitize, sanitize_outcome};

verus! {

/// The program to start and the arguments to give it.
#[derive(Debug)]
pub struct InferenceCommand {
    pub program: String,
    pub arguments: Vec<String>,
}

/// A command with its texts as sequences of characters.
pub struct InferenceCommandView {
    pub program: Seq<char>,
    pub arguments: Seq<Seq<char>>,
}

impl View for InferenceCommand {
    type V = InferenceCommandView;

    open spec fn view(&self) -> InferenceCommandView {
        InferenceCommandView {
            program: self.program@,
            arguments: Seq::new(self.arguments@.len(), |i: int| self.arguments@[i]@),
        }
    }
}

/// The command that asks the model `model` to answer `prompt`: the inference
/// program `ollama` with the arguments `run`, the model and the prompt.
pub open spec fn command_for(model: Seq<char>, prompt: Seq<char>) -> InferenceCommandView {
    InferenceCommandView { program: "ollama"@, arguments: seq!["run"@, model, prompt] }
}

/// The command that asks the model `model` to answer `prompt`.
pub fn inference_command(model: &str, prompt: &str) -> (command: InferenceCommand)
    ensures
        command@ == command_for(model@, prompt@),
{
    let mut arguments: Vec<String> = Vec::new();
    arguments.push(String::from_str("run"));
    arguments.push(String::from_str(model));
    arguments.push(String::from_str(prompt));
    let command = InferenceCommand { program: String::from_str("ollama"), arguments };
    assert(command@.arguments =~= command_for(model@, prompt@).arguments);
    command
}

/// What the inference process left behind: its standard output and standard
/// error as text, and its exit code, if it ended with one.
#[derive(Debug)]
pub struct InvocationResult {
    pub stdout: String,
    pub stderr: String,
    pub exit_code: Option<i32>,
}

/// What the process left behind, with its texts as sequences of characters.
pub struct InvocationResultView {
    pub stdout: Seq<char>,
    pub stderr: Seq<char>,
    pub exit_code: Option<i32>,
}

impl InvocationResultView {
    /// The process ended with the exit code for success.
    pub open spec fn succeeded(self) -> bool {
        self.exit_code == Some(0i32)
    }
}

impl View for InvocationResult {
    type V = InvocationResultView;

    open spec fn view(&self) -> InvocationResultView {
        InvocationResultView {
            stdout: self.stdout@,
            stderr: self.stderr@,
            exit_code: self.exit_code,
        }
    }
}

impl InvocationResult {
    /// Whether the process ended with the exit code for success.
    pub fn succeeded(&self) -> (success: bool)
        ensures
            success == self@.succeeded(),
    {
        match self.exit_code {
            Some(code) => code == 0,
            None => false,
        }
    }
}

/// What came of starting the inference process.
#[derive(Debug)]
pub enum LaunchOutcome {
    /// The process ran and ended.
    Completed(InvocationResult),
    /// The inference program does not exist.
    NotFound(String),
    /// The process could not be started or waited for.
    Failed(String),
}

/// The outcome of a launch with its texts as sequences of characters.
pub enum LaunchOutcomeView {
    Completed(InvocationResultView),
    NotFound(Seq<char>),
    Failed(Seq<char>),
}

impl View for LaunchOutcome {
    type V = LaunchOutcomeView;

    open spec fn view(&self) -> LaunchOutcomeView {
        match self {
            LaunchOutcome::Completed(result) => LaunchOutcomeView::Completed(result@),
            LaunchOutcome::NotFound(m) => LaunchOutcomeView::NotFound(m@),
            LaunchOutcome::Failed(m) => LaunchOutcomeView::Failed(m@),
        }
    }
}

/// The failure that a launch outcome amounts to, if it amounts to one.
///
/// A missing program is `NotFound`, a process that could not be started is
/// `Io`, and a process that ended with a failure status is `ProcessFailure`
/// with what it wrote to its standard error as the message.
pub open spec fn launch_failure(outcome: LaunchOutcomeView) -> Option<FailureView> {
    match outcome {
        LaunchOutcomeView::NotFound(message) => Some(FailureView::NotFound(message)),
        LaunchOutcomeView::Failed(message) => Some(FailureView::Io(message)),
        LaunchOutcomeView::Completed(result) => if result.succeeded() {
            None
        } else {
            Some(FailureView::ProcessFailure(result.stderr))
        },
    }
}

/// What a run makes of the way the inference process ended: the failure that
/// the launch outcome amounts to, or else what sanitizing the standard output
/// gives.
pub open spec fn concluded(outcome: LaunchOutcomeView) -> Result<Seq<char>, FailureView> {
    match launch_failure(outcome) {
        Some(failure) => Err(failure),
        None => sanitize_outcome(outcome->Completed_0.stdout),
    }
}

/// Concludes a run from the way the inference process ended: with the
/// document, or with the failure.
pub fn conclude(outcome: LaunchOutcome) -> (document: Result<String, Failure>)
    ensures
        text_or_failure(document) == concluded(outcome@),
{
    match outcome {
        LaunchOutcome::NotFound(message) => Err(Failure::NotFound(message)),
        LaunchOutcome::Failed(message) => Err(Failure::Io(message)),
        LaunchOutcome::Completed(result) => {
            if result.succeeded() {
                sanitize(result.stdout.as_str())
            } else {
                Err(Failure::ProcessFailure(result.stderr))
            }
        },
    }
}

} // verus!
