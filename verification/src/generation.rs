//! What a whole run produces.
//!
//! A world is described by its project tree, by how the inference process
//! ends for each command, and by what comes of writing each document.
//! `generated` says what a run in such a world ends with and what it writes;
//! the law below shows that the orchestrator's machine, driven against the
//! world, does exactly that.

use vstd::prelude::*;
use crate::collector::{
    listed, loaded, proceeded, start, CollectorView, DemandView, ListOutcomeView,
};
use crate::error::FailureView;
use crate::file_map::listing_of;
use crate::invocation::{
    command_for, concluded, InferenceCommandView, InvocationResultView, LaunchOutcomeView,
};
use crate::pipeline::{
    after_launch, after_walk, written, JobView, RequestView, WalkRequestView, WriteOutcomeView,
};
use crate::prompt::prompt_for;
use crate::traversal::{
    collected, lemma_machine_computes_collected, run, run_from_start, Collected, Tree,
};

verus! {

/// The surroundings of a run.
pub struct World {
    /// The project tree.
    pub tree: Tree,
    /// How the inference process ends when it is started with a command.
    pub process: spec_fn(InferenceCommandView) -> LaunchOutcomeView,
    /// What comes of writing a document to the output file.
    pub disk: spec_fn(Seq<char>) -> WriteOutcomeView,
}

/// What a run has come to.
pub struct RunOutcome {
    /// How the run ended.
    pub result: Result<(), FailureView>,
    /// The document that the run has written to the output file, if any.
    pub output: Option<Seq<char>>,
}

/// A run that ended with `failure` and has written nothing.
pub open spec fn abandoned(failure: FailureView) -> RunOutcome {
    RunOutcome { result: Err(failure), output: None }
}

/// What writing `document` brings a run to: it has ended well and written the
/// document, or it has failed and written nothing.
pub open spec fn delivered(world: World, document: Seq<char>) -> RunOutcome {
    RunOutcome {
        result: written((world.disk)(document)),
        output: if (world.disk)(document) is Written {
            Some(document)
        } else {
            None
        },
    }
}

/// What a run for `job` comes to once its walk has ended as `files` says.
///
/// A failed walk ends the run. Otherwise the prompt is built from the
/// collected files, the inference process is run on it, and the sanitized
/// output is written; the first of these to fail ends the run, and then
/// nothing has been written.
pub open spec fn generated_from(world: World, job: JobView, files: Collected) -> RunOutcome {
    match files {
        Err(failure) => abandoned(failure),
        Ok(files) => match prompt_for(job.kind, listing_of(files)) {
            Err(failure) => abandoned(failure),
            Ok(prompt) => match concluded((world.process)(command_for(job.model, prompt))) {
                Err(failure) => abandoned(failure),
                Ok(document) => delivered(world, document),
            },
        },
    }
}

/// What a run for `job` comes to in a world whose tree is at most `depth`
/// directories deep; `None` if the tree is deeper.
pub open spec fn generated(world: World, job: JobView, depth: nat) -> Option<RunOutcome> {
    match collected(world.tree, depth) {
        Some(files) => Some(generated_from(world, job, files)),
        None => None,
    }
}

/// The request with which a run for `job` begins.
pub open spec fn begun(job: JobView) -> RequestView {
    RequestView::List(WalkRequestView { job, pending: start() })
}

/// What the orchestrator's machine comes to when each request is answered
/// from `world`, within `fuel` requests; `None` if it makes more.
pub open spec fn driven(world: World, request: RequestView, fuel: nat) -> Option<RunOutcome>
    decreases fuel,
{
    match request {
        RequestView::Finished(result) => Some(RunOutcome { result, output: None }),
        RequestView::Write(document) => Some(delivered(world, document)),
        RequestView::Launch(command) => if fuel == 0 {
            None
        } else {
            driven(world, after_launch((world.process)(command)), (fuel - 1) as nat)
        },
        RequestView::List(waiting) => if fuel == 0 {
            None
        } else {
            driven(
                world,
                after_walk(
                    waiting.job,
                    listed(waiting.pending, (world.tree.listings)(waiting.pending.path)),
                ),
                (fuel - 1) as nat,
            )
        },
        RequestView::Read(waiting) => if fuel == 0 {
            None
        } else {
            driven(
                world,
                after_walk(
                    waiting.job,
                    loaded(waiting.pending, (world.tree.texts)(waiting.pending.path)),
                ),
                (fuel - 1) as nat,
            )
        },
    }
}

/// Once the machine has ended within some number of requests, allowing it
/// more does not change what it comes to.
pub proof fn lemma_driven_is_stable(world: World, request: RequestView, fuel: nat, longer: nat)
    requires
        driven(world, request, fuel) is Some,
        fuel <= longer,
    ensures
        driven(world, request, longer) == driven(world, request, fuel),
    decreases fuel,
{
    match request {
        RequestView::Finished(result) => {},
        RequestView::Write(document) => {},
        RequestView::Launch(command) => {
            lemma_driven_is_stable(
                world,
                after_launch((world.process)(command)),
                (fuel - 1) as nat,
                (longer - 1) as nat,
            );
        },
        RequestView::List(waiting) => {
            lemma_driven_is_stable(
                world,
                after_walk(
                    waiting.job,
                    listed(waiting.pending, (world.tree.listings)(waiting.pending.path)),
                ),
                (fuel - 1) as nat,
                (longer - 1) as nat,
            );
        },
        RequestView::Read(waiting) => {
            lemma_driven_is_stable(
                world,
                after_walk(
                    waiting.job,
                    loaded(waiting.pending, (world.tree.texts)(waiting.pending.path)),
                ),
                (fuel - 1) as nat,
                (longer - 1) as nat,
            );
        },
    }
}

/// A run whose walk ends as `files` comes to what `generated_from` gives for
/// `files`.
proof fn lemma_run_follows_walk(world: World, job: JobView, walk: CollectorView, fuel: nat)
    requires
        run(world.tree, walk, fuel) is Some,
    ensures
        driven(world, after_walk(job, Ok(walk)), fuel + 1) == Some(
            generated_from(world, job, run(world.tree, walk, fuel)->0),
        ),
    decreases fuel,
{
    let request = after_walk(job, Ok(walk));
    let ended = run(world.tree, walk, fuel)->0;
    match proceeded(walk) {
        DemandView::List(pending) => {
            let next = listed(pending, (world.tree.listings)(pending.path));
            assert(request == RequestView::List(WalkRequestView { job, pending }));
            assert(driven(world, request, fuel + 1) == driven(world, after_walk(job, next), fuel));
            match next {
                Ok(onward) => {
                    lemma_run_follows_walk(world, job, onward, (fuel - 1) as nat);
                },
                Err(failure) => {
                    assert(ended == Err::<Map<Seq<char>, Seq<char>>, FailureView>(failure));
                },
            }
        },
        DemandView::Read(pending) => {
            let next = loaded(pending, (world.tree.texts)(pending.path));
            assert(request == RequestView::Read(WalkRequestView { job, pending }));
            assert(driven(world, request, fuel + 1) == driven(world, after_walk(job, next), fuel));
            match next {
                Ok(onward) => {
                    lemma_run_follows_walk(world, job, onward, (fuel - 1) as nat);
                },
                Err(failure) => {
                    assert(ended == Err::<Map<Seq<char>, Seq<char>>, FailureView>(failure));
                },
            }
        },
        DemandView::Finished(files) => {
            assert(ended == Ok::<Map<Seq<char>, Seq<char>>, FailureView>(files));
            if let RequestView::Launch(command) = request {
                let last = after_launch((world.process)(command));
                assert(driven(world, request, fuel + 1) == driven(world, last, fuel));
                assert(last is Write || last is Finished);
            }
        },
    }
}

/// The orchestrator computes what a run generates.
///
/// Driven against a world, the machine ends after some number of requests,
/// and whenever it has ended, it has come to what `generated` gives for that
/// world: the same result, and the same document written or none.
pub proof fn lemma_machine_computes_generated(world: World, job: JobView, depth: nat) -> (fuel:
    nat)
    requires
        generated(world, job, depth) is Some,
    ensures
        driven(world, begun(job), fuel) == generated(world, job, depth),
        forall|other: nat| #[trigger]
            driven(world, begun(job), other) is Some ==> driven(world, begun(job), other)
                == generated(world, job, depth),
{
    let walked = lemma_machine_computes_collected(world.tree, depth);
    let first = listed(start(), (world.tree.listings)(start().path));
    assert(run_from_start(world.tree, walked) == collected(world.tree, depth));
    if let Ok(walk) = first {
        lemma_run_follows_walk(world, job, walk, walked);
    }
    let fuel = walked + 2;
    assert(driven(world, begun(job), fuel) == driven(
        world,
        after_walk(job, first),
        (fuel - 1) as nat,
    ));
    assert forall|other: nat| #[trigger]
        driven(world, begun(job), other) is Some implies driven(world, begun(job), other)
        == generated(world, job, depth) by {
        if other <= fuel {
            lemma_driven_is_stable(world, begun(job), other, fuel);
        } else {
            lemma_driven_is_stable(world, begun(job), fuel, other);
        }
    }
    fuel
}

/// If the root does not exist, the run fails with `NotFound` and writes
/// nothing: the machine ends so after its first request.
pub proof fn lemma_missing_root_ends_the_run(world: World, job: JobView, message: Seq<char>)
    requires
        (world.tree.listings)(Seq::empty()) == ListOutcomeView::NotFound(message),
    ensures
        generated(world, job, 0) == Some(abandoned(FailureView::NotFound(message))),
        driven(world, begun(job), 1) == Some(abandoned(FailureView::NotFound(message))),
{
    let first = after_walk(job, listed(start(), (world.tree.listings)(start().path)));
    assert(first == RequestView::Finished(Err(FailureView::NotFound(message))));
    assert(driven(world, begun(job), 1) == driven(world, first, 0));
}

/// If the inference process ends with a failure status, the run fails with
/// exactly what the process wrote to its standard error, and writes nothing:
/// the machine ends so after some number of requests.
pub proof fn lemma_failed_process_ends_the_run(
    world: World,
    job: JobView,
    depth: nat,
    files: Map<Seq<char>, Seq<char>>,
    prompt: Seq<char>,
    left: InvocationResultView,
) -> (fuel: nat)
    requires
        collected(world.tree, depth) == Some(Ok::<Map<Seq<char>, Seq<char>>, FailureView>(files)),
        prompt_for(job.kind, listing_of(files)) == Ok::<Seq<char>, FailureView>(prompt),
        (world.process)(command_for(job.model, prompt)) == LaunchOutcomeView::Completed(left),
        !left.succeeded(),
    ensures
        generated(world, job, depth) == Some(abandoned(FailureView::ProcessFailure(left.stderr))),
        driven(world, begun(job), fuel) == Some(
            abandoned(FailureView::ProcessFailure(left.stderr)),
        ),
{
    lemma_machine_computes_generated(world, job, depth)
}

} // verus!
