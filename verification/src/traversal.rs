//! What a walk over a whole project tree collects.
//!
//! A tree is described by what listing each directory and reading each file
//! yields. `collected` says, by recursion over the tree, which mapping a
//! traversal produces or with which failure it ends. The laws below show that
//! the collector's machine, driven against the tree, produces exactly that,
//! and that a tree of readable files with allowed extensions is collected
//! whole: one entry for each file, under its path relative to the root.

use vstd::prelude::*;
use crate::collector::{
    advanced, joined, listed, loaded, proceeded, start, CollectorView, DemandView, DirEntryView,
    FrameView, ListOutcomeView, PendingView, ReadOutcomeView, StepView,
};
use crate::error::FailureView;
use crate::filter::{is_collectable, vcs_marker};

verus! {

/// A project tree as a walk meets it. Paths are relative to the root, which
/// has the empty path.
pub struct Tree {
    /// What listing the directory at a path yields.
    pub listings: spec_fn(Seq<char>) -> ListOutcomeView,
    /// What reading the file at a path yields.
    pub texts: spec_fn(Seq<char>) -> ReadOutcomeView,
}

/// What a traversal ends with: the mapping collected, or the first failure.
pub type Collected = Result<Map<Seq<char>, Seq<char>>, FailureView>;

/// The failure with which a walk ends when the directory at `dir` cannot be
/// listed for want of the directory.
pub open spec fn missing(dir: Seq<char>, message: Seq<char>) -> FailureView {
    if dir.len() == 0 {
        FailureView::NotFound(message)
    } else {
        FailureView::Io(message)
    }
}

/// What visiting the directory at `dir` adds to `files`, for a tree that is
/// at most `depth` directories deep below `dir`; `None` if it is deeper.
pub open spec fn collect_dir(
    tree: Tree,
    dir: Seq<char>,
    files: Map<Seq<char>, Seq<char>>,
    depth: nat,
) -> Option<Collected>
    decreases depth, 1nat, 0nat,
{
    match (tree.listings)(dir) {
        ListOutcomeView::Entries(entries) => collect_entries(tree, dir, entries, 0, files, depth),
        ListOutcomeView::NotFound(message) => Some(Err(missing(dir, message))),
        ListOutcomeView::Failed(message) => Some(Err(FailureView::Io(message))),
    }
}

/// What visiting the entries of `dir` from index `from` on adds to `files`.
///
/// Entries are visited in order and the first failure ends the traversal.
/// Version-control metadata is passed over; a directory is visited in full
/// before the next entry; a file with an allowed extension is stored under its
/// path if it holds text, and passed over if it does not; other files are
/// passed over.
pub open spec fn collect_entries(
    tree: Tree,
    dir: Seq<char>,
    entries: Seq<DirEntryView>,
    from: int,
    files: Map<Seq<char>, Seq<char>>,
    depth: nat,
) -> Option<Collected>
    decreases depth, 0nat, entries.len() - from,
{
    if from < 0 || from >= entries.len() {
        Some(Ok(files))
    } else {
        let entry = entries[from];
        let path = joined(dir, entry.name);
        if entry.name == vcs_marker() {
            collect_entries(tree, dir, entries, from + 1, files, depth)
        } else if entry.is_dir {
            if depth == 0 {
                None
            } else {
                match collect_dir(tree, path, files, (depth - 1) as nat) {
                    Some(Ok(more)) => collect_entries(tree, dir, entries, from + 1, more, depth),
                    other => other,
                }
            }
        } else if is_collectable(entry.name) {
            match (tree.texts)(path) {
                ReadOutcomeView::Text(text) => collect_entries(
                    tree,
                    dir,
                    entries,
                    from + 1,
                    files.insert(path, text),
                    depth,
                ),
                ReadOutcomeView::InvalidEncoding => collect_entries(
                    tree,
                    dir,
                    entries,
                    from + 1,
                    files,
                    depth,
                ),
                ReadOutcomeView::Failed(message) => Some(Err(FailureView::Io(message))),
            }
        } else {
            collect_entries(tree, dir, entries, from + 1, files, depth)
        }
    }
}

/// What a traversal of the whole tree ends with, for a tree that is at most
/// `depth` directories deep; `None` if it is deeper.
pub open spec fn collected(tree: Tree, depth: nat) -> Option<Collected> {
    collect_dir(tree, Seq::empty(), Map::empty(), depth)
}

/// What the collector's machine ends with when each request is answered from
/// `tree`, within `fuel` requests; `None` if it makes more.
pub open spec fn run(tree: Tree, walk: CollectorView, fuel: nat) -> Option<Collected>
    decreases fuel,
{
    match proceeded(walk) {
        DemandView::Finished(files) => Some(Ok(files)),
        DemandView::List(pending) => if fuel == 0 {
            None
        } else {
            match listed(pending, (tree.listings)(pending.path)) {
                Ok(next) => run(tree, next, (fuel - 1) as nat),
                Err(failure) => Some(Err(failure)),
            }
        },
        DemandView::Read(pending) => if fuel == 0 {
            None
        } else {
            match loaded(pending, (tree.texts)(pending.path)) {
                Ok(next) => run(tree, next, (fuel - 1) as nat),
                Err(failure) => Some(Err(failure)),
            }
        },
    }
}

/// What a walk from its beginning ends with when each request is answered from
/// `tree`, within `fuel` requests after the listing of the root.
pub open spec fn run_from_start(tree: Tree, fuel: nat) -> Option<Collected> {
    match listed(start(), (tree.listings)(start().path)) {
        Ok(walk) => run(tree, walk, fuel),
        Err(failure) => Some(Err(failure)),
    }
}

/// The walk whose innermost directory is `dir`, with the entries from index
/// `from` on still to visit, inside the directories `outer`.
pub open spec fn visiting(
    outer: Seq<FrameView>,
    dir: Seq<char>,
    entries: Seq<DirEntryView>,
    from: int,
    files: Map<Seq<char>, Seq<char>>,
) -> CollectorView {
    CollectorView { frames: outer.push(FrameView { dir, entries, next: from }), files }
}

/// After `requests` requests the machine, started in `walk`, has ended as
/// `outcome` says: with a failure, or by leaving the walk's innermost directory
/// with the mapping that `outcome` holds.
pub open spec fn reaches(
    tree: Tree,
    walk: CollectorView,
    outer: Seq<FrameView>,
    outcome: Collected,
    requests: nat,
) -> bool {
    forall|fuel: nat|
        fuel >= requests ==> #[trigger] run(tree, walk, fuel) == match outcome {
            Ok(more) => run(
                tree,
                CollectorView { frames: outer, files: more },
                (fuel - requests) as nat,
            ),
            Err(failure) => Some(Err(failure)),
        }
}

/// The machine visits the rest of a directory as `collect_entries` says.
proof fn lemma_machine_visits_entries(
    tree: Tree,
    outer: Seq<FrameView>,
    dir: Seq<char>,
    entries: Seq<DirEntryView>,
    from: int,
    files: Map<Seq<char>, Seq<char>>,
    depth: nat,
) -> (requests: nat)
    requires
        0 <= from <= entries.len(),
        collect_entries(tree, dir, entries, from, files, depth) is Some,
    ensures
        collect_entries(tree, dir, entries, from, files, depth)->0 is Err ==> requests >= 1,
        reaches(
            tree,
            visiting(outer, dir, entries, from, files),
            outer,
            collect_entries(tree, dir, entries, from, files, depth)->0,
            requests,
        ),
    decreases depth, entries.len() - from,
{
    let walk = visiting(outer, dir, entries, from, files);
    let top = FrameView { dir, entries, next: from };
    assert(walk.frames.last() == top);
    assert(walk.frames.drop_last() =~= outer);
    let outcome = collect_entries(tree, dir, entries, from, files, depth)->0;
    if from >= entries.len() {
        let left = CollectorView { frames: outer, files };
        assert(advanced(walk) == StepView::Pass(left));
        assert(proceeded(walk) == proceeded(left));
        assert forall|fuel: nat| run(tree, walk, fuel) == run(tree, left, fuel) by {}
        return 0;
    }
    let entry = entries[from];
    let path = joined(dir, entry.name);
    let inner = outer.push(FrameView { dir, entries, next: from + 1 });
    let moved = visiting(outer, dir, entries, from + 1, files);
    assert(moved.frames == inner);
    let pending = PendingView { path, walk: moved };
    if entry.name == vcs_marker() || (!entry.is_dir && !is_collectable(entry.name)) {
        assert(advanced(walk) == StepView::Pass(moved));
        assert(proceeded(walk) == proceeded(moved));
        assert forall|fuel: nat| run(tree, walk, fuel) == run(tree, moved, fuel) by {}
        return lemma_machine_visits_entries(tree, outer, dir, entries, from + 1, files, depth);
    }
    if entry.is_dir {
        assert(advanced(walk) == StepView::List(pending));
        assert(proceeded(walk) == DemandView::List(pending));
        assert(depth > 0);
        let below_dir = collect_dir(tree, path, files, (depth - 1) as nat);
        assert(below_dir is Some);
        assert(outcome == match below_dir {
            Some(Ok(more)) => collect_entries(tree, dir, entries, from + 1, more, depth)->0,
            other => other->0,
        });
        match (tree.listings)(path) {
            ListOutcomeView::Entries(below) => {
                assert(below_dir == collect_entries(tree, path, below, 0, files, (depth - 1) as nat));
                let entered = visiting(inner, path, below, 0, files);
                assert(listed(pending, (tree.listings)(path)) == Ok::<CollectorView, FailureView>(
                    entered,
                ));
                let down = lemma_machine_visits_entries(
                    tree,
                    inner,
                    path,
                    below,
                    0,
                    files,
                    (depth - 1) as nat,
                );
                let sub = collect_entries(tree, path, below, 0, files, (depth - 1) as nat)->0;
                match sub {
                    Ok(more) => {
                        let back = visiting(outer, dir, entries, from + 1, more);
                        assert(back == CollectorView { frames: inner, files: more });
                        let rest = lemma_machine_visits_entries(
                            tree,
                            outer,
                            dir,
                            entries,
                            from + 1,
                            more,
                            depth,
                        );
                        let requests = 1 + down + rest;
                        assert forall|fuel: nat| fuel >= requests implies #[trigger] run(
                            tree,
                            walk,
                            fuel,
                        ) == match outcome {
                            Ok(all) => run(
                                tree,
                                CollectorView { frames: outer, files: all },
                                (fuel - requests) as nat,
                            ),
                            Err(failure) => Some(Err(failure)),
                        } by {
                            assert(run(tree, walk, fuel) == run(tree, entered, (fuel - 1) as nat));
                            assert(run(tree, entered, (fuel - 1) as nat) == run(
                                tree,
                                back,
                                (fuel - 1 - down) as nat,
                            ));
                        }
                        return requests;
                    },
                    Err(failure) => {
                        let requests = 1 + down;
                        assert forall|fuel: nat| fuel >= requests implies #[trigger] run(
                            tree,
                            walk,
                            fuel,
                        ) == Some(Err::<Map<Seq<char>, Seq<char>>, FailureView>(failure)) by {
                            assert(run(tree, walk, fuel) == run(tree, entered, (fuel - 1) as nat));
                        }
                        return requests;
                    },
                }
            },
            _ => {
                assert(reaches(tree, walk, outer, outcome, 1));
                return 1;
            },
        }
    }
    assert(advanced(walk) == StepView::Read(pending));
    assert(proceeded(walk) == DemandView::Read(pending));
    match (tree.texts)(path) {
        ReadOutcomeView::Failed(message) => {
            assert(reaches(tree, walk, outer, outcome, 1));
            1
        },
        text => {
            let kept = if let ReadOutcomeView::Text(t) = text {
                files.insert(path, t)
            } else {
                files
            };
            let next = visiting(outer, dir, entries, from + 1, kept);
            assert(loaded(pending, text) == Ok::<CollectorView, FailureView>(next));
            let rest = lemma_machine_visits_entries(tree, outer, dir, entries, from + 1, kept, depth);
            let requests = rest + 1;
            assert forall|fuel: nat| fuel >= requests implies #[trigger] run(tree, walk, fuel) == match outcome {
                Ok(more) => run(
                    tree,
                    CollectorView { frames: outer, files: more },
                    (fuel - requests) as nat,
                ),
                Err(failure) => Some(Err(failure)),
            } by {
                assert(run(tree, walk, fuel) == run(tree, next, (fuel - 1) as nat));
            }
            requests
        },
    }
}

/// Once the machine has ended within some number of requests, allowing it
/// more does not change what it ends with.
pub proof fn lemma_run_is_stable(tree: Tree, walk: CollectorView, fuel: nat, longer: nat)
    requires
        run(tree, walk, fuel) is Some,
        fuel <= longer,
    ensures
        run(tree, walk, longer) == run(tree, walk, fuel),
    decreases fuel,
{
    match proceeded(walk) {
        DemandView::Finished(files) => {},
        DemandView::List(pending) => {
            if let Ok(next) = listed(pending, (tree.listings)(pending.path)) {
                lemma_run_is_stable(tree, next, (fuel - 1) as nat, (longer - 1) as nat);
            }
        },
        DemandView::Read(pending) => {
            if let Ok(next) = loaded(pending, (tree.texts)(pending.path)) {
                lemma_run_is_stable(tree, next, (fuel - 1) as nat, (longer - 1) as nat);
            }
        },
    }
}

/// The machine computes what a traversal collects.
///
/// Driven against a tree, the collector ends after some number of requests,
/// and whenever it has ended, it has ended with the mapping or the failure
/// that `collected` gives for that tree.
pub proof fn lemma_machine_computes_collected(tree: Tree, depth: nat) -> (fuel: nat)
    requires
        collected(tree, depth) is Some,
    ensures
        run_from_start(tree, fuel) == collected(tree, depth),
        forall|other: nat| #[trigger]
            run_from_start(tree, other) is Some ==> run_from_start(tree, other) == collected(
                tree,
                depth,
            ),
{
    let root = Seq::<char>::empty();
    match (tree.listings)(root) {
        ListOutcomeView::Entries(entries) => {
            let none = Seq::<FrameView>::empty();
            let files = Map::<Seq<char>, Seq<char>>::empty();
            let fuel = lemma_machine_visits_entries(tree, none, root, entries, 0, files, depth);
            let walk = visiting(none, root, entries, 0, files);
            assert(listed(start(), (tree.listings)(root)) == Ok::<CollectorView, FailureView>(walk));
            assert(run(tree, walk, fuel) == match collected(tree, depth)->0 {
                Ok(more) => run(tree, CollectorView { frames: none, files: more }, 0),
                Err(failure) => Some(Err(failure)),
            });
            assert forall|other: nat| #[trigger]
                run_from_start(tree, other) is Some implies run_from_start(tree, other)
                == collected(tree, depth) by {
                if other <= fuel {
                    lemma_run_is_stable(tree, walk, other, fuel);
                } else {
                    lemma_run_is_stable(tree, walk, fuel, other);
                }
            }
            fuel
        },
        _ => 0,
    }
}

/// The entry `entry` of the directory `dir` is a collectable file, or a
/// directory that holds nothing but collectable files (see
/// `only_collectable_files`).
pub open spec fn is_collectable_entry(
    tree: Tree,
    dir: Seq<char>,
    entry: DirEntryView,
    depth: nat,
) -> bool
    decreases depth, 0nat,
{
    let path = joined(dir, entry.name);
    &&& entry.name != vcs_marker()
    &&& if entry.is_dir {
        depth > 0 && only_collectable_files(tree, path, (depth - 1) as nat)
    } else {
        is_collectable(entry.name) && (tree.texts)(path) is Text
    }
}

/// The tree below `dir`, at most `depth` directories deep, holds nothing but
/// files that are collected: every directory can be listed, no entry is
/// version-control metadata, and every file has an allowed extension and holds
/// text.
pub open spec fn only_collectable_files(tree: Tree, dir: Seq<char>, depth: nat) -> bool
    decreases depth, 1nat,
{
    (tree.listings)(dir) matches ListOutcomeView::Entries(entries) && forall|i: int|
        0 <= i < entries.len() ==> is_collectable_entry(tree, dir, #[trigger] entries[i], depth)
}

/// `path` is the path of the file `entry` of the directory `dir`, or of a file
/// below the directory `entry` of `dir`.
pub open spec fn is_file_at(
    tree: Tree,
    dir: Seq<char>,
    entry: DirEntryView,
    path: Seq<char>,
    depth: nat,
) -> bool
    decreases depth, 0nat,
{
    if entry.is_dir {
        depth > 0 && is_file_below(tree, joined(dir, entry.name), path, (depth - 1) as nat)
    } else {
        joined(dir, entry.name) == path
    }
}

/// `path` is the path, relative to the root, of a file in the tree below the
/// directory `dir`.
pub open spec fn is_file_below(tree: Tree, dir: Seq<char>, path: Seq<char>, depth: nat) -> bool
    decreases depth, 1nat,
{
    (tree.listings)(dir) matches ListOutcomeView::Entries(entries) && exists|i: int|
        0 <= i < entries.len() && is_file_at(tree, dir, #[trigger] entries[i], path, depth)
}

/// `path` is the path of a file at or below one of the entries of `dir` from
/// index `from` on.
pub open spec fn is_file_from(
    tree: Tree,
    dir: Seq<char>,
    entries: Seq<DirEntryView>,
    from: int,
    path: Seq<char>,
    depth: nat,
) -> bool {
    exists|i: int|
        from <= i < entries.len() && is_file_at(tree, dir, #[trigger] entries[i], path, depth)
}

/// `all` is `files` with every path in `added` mapped to the text that `tree`
/// holds there.
pub open spec fn extends_by(
    tree: Tree,
    files: Map<Seq<char>, Seq<char>>,
    all: Map<Seq<char>, Seq<char>>,
    added: spec_fn(Seq<char>) -> bool,
) -> bool {
    &&& forall|path: Seq<char>| #[trigger]
        all.contains_key(path) <==> files.contains_key(path) || added(path)
    &&& forall|path: Seq<char>| #[trigger]
        all.contains_key(path) ==> if added(path) {
            (tree.texts)(path) == ReadOutcomeView::Text(all[path])
        } else {
            all[path] == files[path]
        }
}

/// In a tree of collectable files, visiting the rest of a directory adds to the
/// mapping exactly the files at or below the entries visited.
proof fn lemma_entries_collected(
    tree: Tree,
    dir: Seq<char>,
    entries: Seq<DirEntryView>,
    from: int,
    files: Map<Seq<char>, Seq<char>>,
    depth: nat,
)
    requires
        0 <= from <= entries.len(),
        (tree.listings)(dir) == ListOutcomeView::Entries(entries),
        only_collectable_files(tree, dir, depth),
    ensures
        collect_entries(tree, dir, entries, from, files, depth) matches Some(Ok(all))
            && extends_by(
            tree,
            files,
            all,
            |path: Seq<char>| is_file_from(tree, dir, entries, from, path, depth),
        ),
    decreases depth, entries.len() - from,
{
    if from < entries.len() {
        let entry = entries[from];
        let here = joined(dir, entry.name);
        assert((tree.listings)(dir) matches ListOutcomeView::Entries(es) && forall|i: int|
            0 <= i < es.len() ==> is_collectable_entry(tree, dir, #[trigger] es[i], depth));
        assert(is_collectable_entry(tree, dir, entries[from], depth));
        let mid = if entry.is_dir {
            assert(only_collectable_files(tree, here, (depth - 1) as nat));
            let below = (tree.listings)(here)->Entries_0;
            lemma_entries_collected(tree, here, below, 0, files, (depth - 1) as nat);
            assert(collect_dir(tree, here, files, (depth - 1) as nat) == collect_entries(
                tree,
                here,
                below,
                0,
                files,
                (depth - 1) as nat,
            ));
            collect_entries(tree, here, below, 0, files, (depth - 1) as nat)->0->Ok_0
        } else {
            files.insert(here, (tree.texts)(here)->Text_0)
        };
        lemma_entries_collected(tree, dir, entries, from + 1, mid, depth);
        let all = collect_entries(tree, dir, entries, from + 1, mid, depth)->0->Ok_0;
        assert(collect_entries(tree, dir, entries, from, files, depth) == Some(
            Ok::<Map<Seq<char>, Seq<char>>, FailureView>(all),
        ));
        assert forall|path: Seq<char>|
            is_file_from(tree, dir, entries, from, path, depth) <==> is_file_at(
                tree,
                dir,
                entry,
                path,
                depth,
            ) || is_file_from(tree, dir, entries, from + 1, path, depth) by {
            if is_file_from(tree, dir, entries, from, path, depth) {
                let i = choose|i: int|
                    from <= i < entries.len() && is_file_at(
                        tree,
                        dir,
                        #[trigger] entries[i],
                        path,
                        depth,
                    );
                if i != from {
                    assert(from + 1 <= i);
                }
            }
        }
        assert forall|path: Seq<char>|
            entry.is_dir implies (is_file_at(tree, dir, entry, path, depth) <==> is_file_from(
                tree,
                here,
                (tree.listings)(here)->Entries_0,
                0,
                path,
                (depth - 1) as nat,
            )) by {}
    }
}

/// A tree of readable files with allowed extensions is collected whole.
///
/// If the tree holds nothing but collectable files, a walk driven against it
/// ends, after some number of steps, with a mapping that has an entry for a
/// path exactly if the path is that of a file of the tree, relative to the
/// root, and that maps each such path to the file's text. However many steps
/// it is given, it ends with no other result.
pub proof fn lemma_every_file_collected_once(tree: Tree, depth: nat) -> (fuel: nat)
    requires
        only_collectable_files(tree, Seq::empty(), depth),
    ensures
        run_from_start(tree, fuel) matches Some(Ok(files)) && {
            &&& forall|path: Seq<char>| #[trigger]
                files.contains_key(path) <==> is_file_below(tree, Seq::empty(), path, depth)
            &&& forall|path: Seq<char>| #[trigger]
                files.contains_key(path) ==> (tree.texts)(path) == ReadOutcomeView::Text(
                    files[path],
                )
        },
        forall|other: nat| #[trigger]
            run_from_start(tree, other) is Some ==> run_from_start(tree, other) == run_from_start(
                tree,
                fuel,
            ),
{
    let root = Seq::<char>::empty();
    let entries = (tree.listings)(root)->Entries_0;
    lemma_entries_collected(tree, root, entries, 0, Map::empty(), depth);
    lemma_machine_computes_collected(tree, depth)
}

} // verus!
