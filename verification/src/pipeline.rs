//! The orchestrator: one run, from the walk over the project tree to the
//! written document, as a machine that asks its caller for one thing at a time.
//!
//! A run lists and reads what the collector asks for, builds the prompt from
//! the collected files, has the inference process started, and has the
//! sanitized output written to the output file. The first failure ends the
//! run, and nothing is written unless everything before succeeded.

use vstd::prelude::*;
use crate::collector::{
    listed, loaded, proceeded, start, walk_or_failure, Collector, CollectorView, Demand,
    DemandView, ListOutcome, PendingList, PendingRead, PendingView, ReadOutcome,
};
use crate::error::{Failure, FailureView};
use crate::file_map::listing_of;
use crate::invocation::{
    command_for, conclude, concluded, inference_command, InferenceCommand, InferenceCommandView,
    LaunchOutcome, LaunchOutcomeView,
};
use crate::prompt::{build_prompt, prompt_for, DocumentType};

verus! {

/// What a run is to produce, and with which model.
#[derive(Debug)]
pub struct Job {
    pub kind: DocumentType,
    pub model: String,
}

/// A job with its model's name as a sequence of characters.
pub struct JobView {
    pub kind: DocumentType,
    pub model: Seq<char>,
}

impl View for Job {
    type V = JobView;

    open spec fn view(&self) -> JobView {
        JobView { kind: self.kind, model: self.model@ }
    }
}

/// What came of writing the document.
#[derive(Debug)]
pub enum WriteOutcome {
    /// The document was written.
    Written,
    /// The document could not be written.
    Failed(String),
}

/// The outcome of a write with its message as a sequence of characters.
pub enum WriteOutcomeView {
    Written,
    Failed(Seq<char>),
}

impl View for WriteOutcome {
    type V = WriteOutcomeView;

    open spec fn view(&self) -> WriteOutcomeView {
        match self {
            WriteOutcome::Written => WriteOutcomeView::Written,
            WriteOutcome::Failed(m) => WriteOutcomeView::Failed(m@),
        }
    }
}

/// A run that waits for an answer of the file system.
pub struct WalkRequestView {
    /// What the run is to produce.
    pub job: JobView,
    /// The walk, waiting for the outcome of its request.
    pub pending: PendingView,
}

/// A run that waits for the listing of a directory.
pub struct ListRequest {
    job: Job,
    pending: PendingList,
}

impl View for ListRequest {
    type V = WalkRequestView;

    closed spec fn view(&self) -> WalkRequestView {
        WalkRequestView { job: self.job@, pending: self.pending@ }
    }
}

/// A run that waits for the text of a file.
pub struct ReadRequest {
    job: Job,
    pending: PendingRead,
}

impl View for ReadRequest {
    type V = WalkRequestView;

    closed spec fn view(&self) -> WalkRequestView {
        WalkRequestView { job: self.job@, pending: self.pending@ }
    }
}

/// A run that waits for the inference process to end. Its view is the command
/// to run.
pub struct LaunchRequest {
    command: InferenceCommand,
}

impl View for LaunchRequest {
    type V = InferenceCommandView;

    closed spec fn view(&self) -> InferenceCommandView {
        self.command@
    }
}

/// A run that waits for the document to be written. Its view is the document.
pub struct WriteRequest {
    document: String,
}

impl View for WriteRequest {
    type V = Seq<char>;

    closed spec fn view(&self) -> Seq<char> {
        self.document@
    }
}

/// What a run asks of its caller next.
pub enum Request {
    /// List the directory at the request's path.
    List(ListRequest),
    /// Read the file at the request's path.
    Read(ReadRequest),
    /// Run the request's command and capture what the process leaves behind.
    Launch(LaunchRequest),
    /// Write the request's document to the output file, replacing the file.
    Write(WriteRequest),
    /// Nothing more: the run has ended, well or with a failure.
    Finished(Result<(), Failure>),
}

/// What a run asks next, over the states of the run.
pub enum RequestView {
    List(WalkRequestView),
    Read(WalkRequestView),
    Launch(InferenceCommandView),
    Write(Seq<char>),
    Finished(Result<(), FailureView>),
}

impl View for Request {
    type V = RequestView;

    open spec fn view(&self) -> RequestView {
        match self {
            Request::List(request) => RequestView::List(request@),
            Request::Read(request) => RequestView::Read(request@),
            Request::Launch(request) => RequestView::Launch(request@),
            Request::Write(request) => RequestView::Write(request@),
            Request::Finished(Ok(())) => RequestView::Finished(Ok(())),
            Request::Finished(Err(failure)) => RequestView::Finished(Err(failure@)),
        }
    }
}

/// The name of the file that the document is written to.
pub open spec fn output_file() -> Seq<char> {
    "output.md"@
}

/// What a run for `job` asks next, once its walk has gone on as `next` says.
///
/// A failure of the walk ends the run. A walk that asks for a listing or a
/// file has the run ask for it. When the walk is finished, the prompt is built
/// from the collected files and the inference process is to be started with
/// it; if the prompt cannot be built, the run ends with that failure.
pub open spec fn after_walk(job: JobView, next: Result<CollectorView, FailureView>) -> RequestView {
    match next {
        Err(failure) => RequestView::Finished(Err(failure)),
        Ok(walk) => match proceeded(walk) {
            DemandView::List(pending) => RequestView::List(WalkRequestView { job, pending }),
            DemandView::Read(pending) => RequestView::Read(WalkRequestView { job, pending }),
            DemandView::Finished(files) => match prompt_for(job.kind, listing_of(files)) {
                Ok(prompt) => RequestView::Launch(command_for(job.model, prompt)),
                Err(failure) => RequestView::Finished(Err(failure)),
            },
        },
    }
}

/// What a run asks next, once the inference process has ended as `outcome`
/// says: the document is to be written, or the run ends with the failure.
pub open spec fn after_launch(outcome: LaunchOutcomeView) -> RequestView {
    match concluded(outcome) {
        Ok(document) => RequestView::Write(document),
        Err(failure) => RequestView::Finished(Err(failure)),
    }
}

/// How a run ends once the document was written, or could not be.
pub open spec fn written(outcome: WriteOutcomeView) -> Result<(), FailureView> {
    match outcome {
        WriteOutcomeView::Written => Ok(()),
        WriteOutcomeView::Failed(message) => Err(FailureView::Io(message)),
    }
}

/// Begins a run: the first request is for the listing of the root.
pub fn begin(job: Job) -> (request: Request)
    ensures
        request@ == RequestView::List(WalkRequestView { job: job@, pending: start() }),
{
    Request::List(ListRequest { job, pending: Collector::begin() })
}

/// Goes on with a run whose walk has gone on as `next` says.
fn resume(job: Job, next: Result<Collector, Failure>) -> (request: Request)
    ensures
        request@ == after_walk(job@, walk_or_failure(next)),
{
    let walk = match next {
        Ok(walk) => walk,
        Err(failure) => {
            return Request::Finished(Err(failure));
        },
    };
    match walk.proceed() {
        Demand::List(pending) => Request::List(ListRequest { job, pending }),
        Demand::Read(pending) => Request::Read(ReadRequest { job, pending }),
        Demand::Finished(files) => match build_prompt(&files, job.kind) {
            Ok(prompt) => Request::Launch(
                LaunchRequest { command: inference_command(job.model.as_str(), prompt.as_str()) },
            ),
            Err(failure) => Request::Finished(Err(failure)),
        },
    }
}

impl ListRequest {
    /// The path, relative to the root, of the directory to list. The root has
    /// the empty path.
    pub fn path(&self) -> (path: &String)
        ensures
            path@ == self@.pending.path,
    {
        self.pending.path()
    }

    /// Goes on with the run, given what came of listing the directory.
    pub fn answer(self, outcome: ListOutcome) -> (request: Request)
        ensures
            request@ == after_walk(self@.job, listed(self@.pending, outcome@)),
    {
        let ListRequest { job, pending } = self;
        resume(job, pending.resolve(outcome))
    }
}

impl ReadRequest {
    /// The path, relative to the root, of the file to read.
    pub fn path(&self) -> (path: &String)
        ensures
            path@ == self@.pending.path,
    {
        self.pending.path()
    }

    /// Goes on with the run, given what came of reading the file.
    pub fn answer(self, outcome: ReadOutcome) -> (request: Request)
        ensures
            request@ == after_walk(self@.job, loaded(self@.pending, outcome@)),
    {
        let ReadRequest { job, pending } = self;
        resume(job, pending.resolve(outcome))
    }
}

impl LaunchRequest {
    /// The command to run.
    pub fn command(&self) -> (command: &InferenceCommand)
        ensures
            command@ == self@,
    {
        &self.command
    }

    /// Goes on with the run, given how the inference process ended.
    pub fn answer(self, outcome: LaunchOutcome) -> (request: Request)
        ensures
            request@ == after_launch(outcome@),
    {
        match conclude(outcome) {
            Ok(document) => Request::Write(WriteRequest { document }),
            Err(failure) => Request::Finished(Err(failure)),
        }
    }
}

impl WriteRequest {
    /// The name of the file to write.
    pub fn file(&self) -> (file: &'static str)
        ensures
            file@ == output_file(),
    {
        "output.md"
    }

    /// The document to write.
    pub fn document(&self) -> (document: &String)
        ensures
            document@ == self@,
    {
        &self.document
    }

    /// Ends the run, given what came of writing the document.
    pub fn answer(self, outcome: WriteOutcome) -> (request: Request)
        ensures
            request@ == RequestView::Finished(written(outcome@)),
    {
        match outcome {
            WriteOutcome::Written => Request::Finished(Ok(())),
            WriteOutcome::Failed(message) => Request::Finished(Err(Failure::Io(message))),
        }
    }
}

} // verus!
