//! The file collector: a depth-first walk over a project tree, written as a
//! machine that asks for one directory listing or one file at a time.
//!
//! The caller performs each request against the file system and hands the
//! outcome back. The machine decides what to visit, what to pass over, under
//! which path a file is stored, and when the walk is abandoned.

use vstd::prelude::*;
use vstd::string::StringExecFns;
use crate::error::{Failure, FailureView};
use crate::file_map::FileMap;
use crate::filter::{has_allowed_extension, is_collectable, is_vcs_marker, vcs_marker};

verus! {

/// One entry of a directory listing.
#[derive(Debug)]
pub struct DirEntry {
    /// The entry's name within its directory.
    pub name: String,
    /// Whether the entry is a directory.
    pub is_dir: bool,
}

/// A directory entry with its name as a sequence of characters.
pub struct DirEntryView {
    pub name: Seq<char>,
    pub is_dir: bool,
}

impl View for DirEntry {
    type V = DirEntryView;

    open spec fn view(&self) -> DirEntryView {
        DirEntryView { name: self.name@, is_dir: self.is_dir }
    }
}

/// The views of a sequence of entries.
pub open spec fn entry_views(entries: Seq<DirEntry>) -> Seq<DirEntryView> {
    Seq::new(entries.len(), |i: int| entries[i]@)
}

/// What came of listing a directory.
#[derive(Debug)]
pub enum ListOutcome {
    /// The directory's entries, in the order in which they are to be visited.
    Entries(Vec<DirEntry>),
    /// The directory does not exist.
    NotFound(String),
    /// The directory could not be read.
    Failed(String),
}

/// The outcome of a listing with its texts as sequences of characters.
pub enum ListOutcomeView {
    Entries(Seq<DirEntryView>),
    NotFound(Seq<char>),
    Failed(Seq<char>),
}

impl View for ListOutcome {
    type V = ListOutcomeView;

    open spec fn view(&self) -> ListOutcomeView {
        match self {
            ListOutcome::Entries(entries) => ListOutcomeView::Entries(entry_views(entries@)),
            ListOutcome::NotFound(m) => ListOutcomeView::NotFound(m@),
            ListOutcome::Failed(m) => ListOutcomeView::Failed(m@),
        }
    }
}

/// What came of reading a file as text.
#[derive(Debug)]
pub enum ReadOutcome {
    /// The file's text.
    Text(String),
    /// The file does not hold valid text.
    InvalidEncoding,
    /// The file could not be read.
    Failed(String),
}

/// The outcome of a read with its texts as sequences of characters.
pub enum ReadOutcomeView {
    Text(Seq<char>),
    InvalidEncoding,
    Failed(Seq<char>),
}

impl View for ReadOutcome {
    type V = ReadOutcomeView;

    open spec fn view(&self) -> ReadOutcomeView {
        match self {
            ReadOutcome::Text(text) => ReadOutcomeView::Text(text@),
            ReadOutcome::InvalidEncoding => ReadOutcomeView::InvalidEncoding,
            ReadOutcome::Failed(m) => ReadOutcomeView::Failed(m@),
        }
    }
}

/// The path of the entry `name` of the directory `dir`, relative to the root.
/// The root itself has the empty path.
pub open spec fn joined(dir: Seq<char>, name: Seq<char>) -> Seq<char> {
    if dir.len() == 0 {
        name
    } else {
        dir + "/"@ + name
    }
}

/// The path of the entry `name` of the directory `dir`, relative to the root.
pub fn join_path(dir: &str, name: &str) -> (path: String)
    ensures
        path@ == joined(dir@, name@),
{
    if dir.is_empty() {
        String::from_str(name)
    } else {
        let mut path = String::from_str(dir);
        path.append("/");
        path.append(name);
        path
    }
}

/// A directory whose entries are being visited.
struct Frame {
    dir: String,
    entries: Vec<DirEntry>,
    next: usize,
}

/// A directory whose entries are being visited.
pub struct FrameView {
    /// The directory's path relative to the root.
    pub dir: Seq<char>,
    /// Its entries.
    pub entries: Seq<DirEntryView>,
    /// The index of the entry to visit next.
    pub next: int,
}

impl View for Frame {
    type V = FrameView;

    closed spec fn view(&self) -> FrameView {
        FrameView { dir: self.dir@, entries: entry_views(self.entries@), next: self.next as int }
    }
}

/// A walk that is ready to take its next step.
pub struct Collector {
    frames: Vec<Frame>,
    files: FileMap,
}

/// The state of a walk.
pub struct CollectorView {
    /// The directories entered and not yet left, the innermost last.
    pub frames: Seq<FrameView>,
    /// What has been collected so far.
    pub files: Map<Seq<char>, Seq<char>>,
}

impl View for Collector {
    type V = CollectorView;

    closed spec fn view(&self) -> CollectorView {
        CollectorView {
            frames: Seq::new(self.frames@.len(), |i: int| self.frames@[i]@),
            files: self.files@,
        }
    }
}

/// A walk that waits for the outcome of a request.
pub struct PendingView {
    /// The path, relative to the root, that the request is about.
    pub path: Seq<char>,
    /// The walk as it goes on once the outcome is known.
    pub walk: CollectorView,
}

/// A walk that waits for the listing of a directory.
pub struct PendingList {
    path: String,
    walk: Collector,
}

impl View for PendingList {
    type V = PendingView;

    closed spec fn view(&self) -> PendingView {
        PendingView { path: self.path@, walk: self.walk@ }
    }
}

/// A walk that waits for the text of a file.
pub struct PendingRead {
    path: String,
    walk: Collector,
}

impl View for PendingRead {
    type V = PendingView;

    closed spec fn view(&self) -> PendingView {
        PendingView { path: self.path@, walk: self.walk@ }
    }
}

/// One step of a walk.
pub enum Step {
    /// The directory at the pending path is to be listed.
    List(PendingList),
    /// The file at the pending path is to be read.
    Read(PendingRead),
    /// An entry was passed over, or a directory left; nothing is asked for.
    Pass(Collector),
    /// The walk is complete.
    Finished(FileMap),
}

/// One step of a walk, over the states of the walk.
pub enum StepView {
    List(PendingView),
    Read(PendingView),
    Pass(CollectorView),
    Finished(Map<Seq<char>, Seq<char>>),
}

impl View for Step {
    type V = StepView;

    open spec fn view(&self) -> StepView {
        match self {
            Step::List(pending) => StepView::List(pending@),
            Step::Read(pending) => StepView::Read(pending@),
            Step::Pass(walk) => StepView::Pass(walk@),
            Step::Finished(files) => StepView::Finished(files@),
        }
    }
}

/// What a walk asks for next.
pub enum Demand {
    /// The directory at the pending path is to be listed.
    List(PendingList),
    /// The file at the pending path is to be read.
    Read(PendingRead),
    /// Nothing more: the walk is complete.
    Finished(FileMap),
}

/// What a walk asks for next, over the states of the walk.
pub enum DemandView {
    List(PendingView),
    Read(PendingView),
    Finished(Map<Seq<char>, Seq<char>>),
}

impl View for Demand {
    type V = DemandView;

    open spec fn view(&self) -> DemandView {
        match self {
            Demand::List(pending) => DemandView::List(pending@),
            Demand::Read(pending) => DemandView::Read(pending@),
            Demand::Finished(files) => DemandView::Finished(files@),
        }
    }
}

/// A walk that goes on, or the failure that ended it, over the states of the
/// walk.
pub open spec fn walk_or_failure(next: Result<Collector, Failure>) -> Result<
    CollectorView,
    FailureView,
> {
    match next {
        Ok(walk) => Ok(walk@),
        Err(failure) => Err(failure@),
    }
}

/// The walk before anything was visited: it waits for the listing of the root.
pub open spec fn start() -> PendingView {
    PendingView {
        path: Seq::empty(),
        walk: CollectorView { frames: Seq::empty(), files: Map::empty() },
    }
}

/// The next step of a walk.
///
/// With no directory open the walk is finished. Otherwise the innermost
/// directory is left if all its entries were visited; else its next entry is
/// visited: version-control metadata is passed over, a directory is to be
/// listed, a file with an allowed extension is to be read, and any other file
/// is passed over.
pub open spec fn advanced(walk: CollectorView) -> StepView {
    if walk.frames.len() == 0 {
        StepView::Finished(walk.files)
    } else {
        let top = walk.frames.last();
        let outer = walk.frames.drop_last();
        if top.next >= top.entries.len() {
            StepView::Pass(CollectorView { frames: outer, files: walk.files })
        } else {
            let entry = top.entries[top.next];
            let moved = CollectorView {
                frames: outer.push(FrameView { next: top.next + 1, ..top }),
                files: walk.files,
            };
            let pending = PendingView { path: joined(top.dir, entry.name), walk: moved };
            if entry.name == vcs_marker() {
                StepView::Pass(moved)
            } else if entry.is_dir {
                StepView::List(pending)
            } else if is_collectable(entry.name) {
                StepView::Read(pending)
            } else {
                StepView::Pass(moved)
            }
        }
    }
}

/// How a walk goes on after the listing it waited for.
///
/// The listed directory is entered. A directory that cannot be listed ends the
/// walk: with `NotFound` if it is the root and does not exist, else with `Io`.
pub open spec fn listed(pending: PendingView, outcome: ListOutcomeView) -> Result<
    CollectorView,
    FailureView,
> {
    match outcome {
        ListOutcomeView::Entries(entries) => Ok(
            CollectorView {
                frames: pending.walk.frames.push(
                    FrameView { dir: pending.path, entries, next: 0 },
                ),
                files: pending.walk.files,
            },
        ),
        ListOutcomeView::NotFound(message) => if pending.path.len() == 0 {
            Err(FailureView::NotFound(message))
        } else {
            Err(FailureView::Io(message))
        },
        ListOutcomeView::Failed(message) => Err(FailureView::Io(message)),
    }
}

/// How a walk goes on after the file it waited for.
///
/// Text is stored under the file's path; a file that does not hold valid text
/// is passed over; a file that cannot be read ends the walk with `Io`.
pub open spec fn loaded(pending: PendingView, outcome: ReadOutcomeView) -> Result<
    CollectorView,
    FailureView,
> {
    match outcome {
        ReadOutcomeView::Text(text) => Ok(
            CollectorView {
                frames: pending.walk.frames,
                files: pending.walk.files.insert(pending.path, text),
            },
        ),
        ReadOutcomeView::InvalidEncoding => Ok(pending.walk),
        ReadOutcomeView::Failed(message) => Err(FailureView::Io(message)),
    }
}

/// The number of entries of a directory that are still to visit.
pub open spec fn unvisited(frame: FrameView) -> nat {
    if frame.next < frame.entries.len() {
        (frame.entries.len() - frame.next) as nat
    } else {
        0
    }
}

/// A bound on the number of steps that a walk can take without an answer: one
/// for each entry still to visit and one for each directory still to leave.
pub open spec fn steps_left(frames: Seq<FrameView>) -> nat
    decreases frames.len(),
{
    if frames.len() == 0 {
        0
    } else {
        steps_left(frames.drop_last()) + unvisited(frames.last()) + 1
    }
}

/// A step that asks for nothing brings the walk nearer to its end.
pub proof fn lemma_pass_uses_a_step(walk: CollectorView)
    requires
        advanced(walk) is Pass,
    ensures
        steps_left(advanced(walk)->Pass_0.frames) < steps_left(walk.frames),
{
    let next = advanced(walk)->Pass_0;
    let top = walk.frames.last();
    let outer = walk.frames.drop_last();
    if top.next < top.entries.len() {
        let moved = FrameView { next: top.next + 1, ..top };
        assert(next.frames == outer.push(moved));
        assert(next.frames.drop_last() =~= outer);
        assert(next.frames.last() == moved);
    }
}

/// What a walk asks for next: the steps that ask for nothing are taken until
/// one asks for a listing or a file, or the walk is finished.
pub open spec fn proceeded(walk: CollectorView) -> DemandView
    decreases steps_left(walk.frames),
{
    match advanced(walk) {
        StepView::Pass(next) => {
            proof {
                lemma_pass_uses_a_step(walk);
            }
            proceeded(next)
        },
        StepView::List(pending) => DemandView::List(pending),
        StepView::Read(pending) => DemandView::Read(pending),
        StepView::Finished(files) => DemandView::Finished(files),
    }
}

impl Collector {
    /// Begins a walk: the first request is for the listing of the root.
    pub fn begin() -> (pending: PendingList)
        ensures
            pending@ == start(),
    {
        let pending = PendingList {
            path: String::new(),
            walk: Collector { frames: Vec::new(), files: FileMap::new() },
        };
        assert(pending@.walk.frames =~= Seq::empty());
        pending
    }

    /// Takes the next step of the walk.
    pub fn advance(self) -> (step: Step)
        ensures
            step@ == advanced(self@),
    {
        let ghost before = self@;
        let mut walk = self;
        let mut frame = match walk.frames.pop() {
            Some(frame) => frame,
            None => {
                return Step::Finished(walk.files);
            },
        };
        assert(walk@.frames =~= before.frames.drop_last());
        assert(frame@ == before.frames.last());
        if frame.next >= frame.entries.len() {
            return Step::Pass(walk);
        }
        let at: usize = frame.next;
        let marker = is_vcs_marker(frame.entries[at].name.as_str());
        let is_dir = frame.entries[at].is_dir;
        let collectable = !marker && !is_dir && has_allowed_extension(
            frame.entries[at].name.as_str(),
        );
        let path = join_path(frame.dir.as_str(), frame.entries[at].name.as_str());
        frame.next = at + 1;
        let ghost top = before.frames.last();
        assert(frame@ == FrameView { next: top.next + 1, ..top });
        walk.frames.push(frame);
        assert(walk@.frames =~= before.frames.drop_last().push(
            FrameView { next: top.next + 1, ..top },
        ));
        if marker {
            Step::Pass(walk)
        } else if is_dir {
            Step::List(PendingList { path, walk })
        } else if collectable {
            Step::Read(PendingRead { path, walk })
        } else {
            Step::Pass(walk)
        }
    }

    /// Goes on with the walk until it asks for a listing or a file, or is
    /// finished.
    pub fn proceed(self) -> (demand: Demand)
        ensures
            demand@ == proceeded(self@),
    {
        let ghost begun = self@;
        let mut walk = self;
        loop
            invariant
                begun == self@,
                proceeded(walk@) == proceeded(begun),
            decreases steps_left(walk@.frames),
        {
            let ghost before = walk@;
            match walk.advance() {
                Step::Pass(next) => {
                    proof {
                        lemma_pass_uses_a_step(before);
                    }
                    walk = next;
                },
                Step::List(pending) => {
                    return Demand::List(pending);
                },
                Step::Read(pending) => {
                    return Demand::Read(pending);
                },
                Step::Finished(files) => {
                    return Demand::Finished(files);
                },
            }
        }
    }
}

impl PendingList {
    /// The path, relative to the root, of the directory to list. The root has
    /// the empty path.
    pub fn path(&self) -> (path: &String)
        ensures
            path@ == self@.path,
    {
        &self.path
    }

    /// Goes on with the walk, given what came of listing the directory.
    pub fn resolve(self, outcome: ListOutcome) -> (next: Result<Collector, Failure>)
        ensures
            walk_or_failure(next) == listed(self@, outcome@),
    {
        let ghost before = self@;
        let PendingList { path, walk } = self;
        let mut walk = walk;
        match outcome {
            ListOutcome::Entries(entries) => {
                let frame = Frame { dir: path, entries, next: 0 };
                walk.frames.push(frame);
                assert(walk@.frames =~= before.walk.frames.push(
                    FrameView { dir: before.path, entries: entry_views(entries@), next: 0 },
                ));
                Ok(walk)
            },
            ListOutcome::NotFound(message) => {
                if path.as_str().is_empty() {
                    Err(Failure::NotFound(message))
                } else {
                    Err(Failure::Io(message))
                }
            },
            ListOutcome::Failed(message) => Err(Failure::Io(message)),
        }
    }
}

impl PendingRead {
    /// The path, relative to the root, of the file to read.
    pub fn path(&self) -> (path: &String)
        ensures
            path@ == self@.path,
    {
        &self.path
    }

    /// Goes on with the walk, given what came of reading the file.
    pub fn resolve(self, outcome: ReadOutcome) -> (next: Result<Collector, Failure>)
        ensures
            walk_or_failure(next) == loaded(self@, outcome@),
    {
        let PendingRead { path, walk } = self;
        let mut walk = walk;
        match outcome {
            ReadOutcome::Text(text) => {
                walk.files.insert(path, text);
                Ok(walk)
            },
            ReadOutcome::InvalidEncoding => Ok(walk),
            ReadOutcome::Failed(message) => Err(Failure::Io(message)),
        }
    }
}

} // verus!
