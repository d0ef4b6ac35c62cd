//! A file system as a mathematical value, and what a run of the engine
//! makes of it.
//!
//! The file system here answers every action truthfully and changes under
//! nobody else's hand. What is proved of a run in [`crate::laws`] is proved
//! of runs against such a file system.

use vstd::prelude::*;
use crate::engine::{
    begin_spec, excluded, resume_spec, ActionView, EngineView, EventView, OptsView, Outcome,
    PhaseView, ReportKind, ReportView,
};
use crate::error::SyncErrorView;
use crate::object::{EntryKind, ObjectView};
use crate::path::{join, Components};

verus! {

/// What stands at a path: a directory, or a file, known by the
/// fingerprint of its content.
pub enum Node {
    Directory,
    File(Seq<u8>),
}

/// A file system: the paths at which something stands.
pub type FileSystem = Map<Components, Node>;

/// A file stands at `path`.
pub open spec fn is_file(fs: FileSystem, path: Components) -> bool {
    fs.contains_key(path) && fs[path] is File
}

/// A directory stands at `path`.
pub open spec fn is_directory(fs: FileSystem, path: Components) -> bool {
    fs.contains_key(path) && fs[path] is Directory
}

/// Whatever stands somewhere stands in a directory, and that in a
/// directory, up to the first component.
pub open spec fn tree_shaped(fs: FileSystem) -> bool {
    forall|path: Components, n: int|
        fs.contains_key(path) && 0 < n < path.len() ==> is_directory(fs, #[trigger] path.take(n))
}

/// No file is in the way of a directory at `path`, nor of the ones above.
pub open spec fn can_create(fs: FileSystem, path: Components) -> bool {
    forall|n: int| 0 < n <= path.len() ==> !is_file(fs, #[trigger] path.take(n))
}

/// `fs` with a directory at `path` and at each place above it where
/// nothing stood.
pub open spec fn with_directories(fs: FileSystem, path: Components) -> FileSystem {
    Map::new(
        |p: Components| fs.contains_key(p) || (0 < p.len() && p.is_prefix_of(path)),
        |p: Components|
            if fs.contains_key(p) {
                fs[p]
            } else {
                Node::Directory
            },
    )
}

/// A copy from `source` to `destination` can be made: the source is a
/// file, the destination is no directory, and it lies in one.
pub open spec fn can_copy(fs: FileSystem, source: Components, destination: Components) -> bool {
    &&& is_file(fs, source)
    &&& destination.len() > 0
    &&& !is_directory(fs, destination)
    &&& (destination.len() == 1 || is_directory(fs, destination.drop_last()))
}

/// The text with which the model refuses an action.
pub open spec fn refusal() -> Seq<char> {
    Seq::empty()
}

/// What the file system makes of an action: how it stands afterwards, and
/// the answer it gives.
pub open spec fn respond(fs: FileSystem, action: ActionView) -> (FileSystem, EventView) {
    match action {
        ActionView::Probe { path } => (fs, EventView::Exists(fs.contains_key(path))),
        ActionView::CreateDirectory { path } => if can_create(fs, path) {
            (with_directories(fs, path), EventView::Done)
        } else {
            (fs, EventView::Failed(refusal()))
        },
        ActionView::Fingerprint { path } => if is_file(fs, path) {
            (fs, EventView::Fingerprint(fs[path]->File_0))
        } else {
            (fs, EventView::Failed(refusal()))
        },
        ActionView::Copy { source, destination } => if can_copy(fs, source, destination) {
            (fs.insert(destination, fs[source]), EventView::Done)
        } else {
            (fs, EventView::Failed(refusal()))
        },
        ActionView::Remove { path } => if is_file(fs, path) {
            (fs.remove(path), EventView::Done)
        } else {
            (fs, EventView::Failed(refusal()))
        },
        ActionView::Next => (fs, EventView::Done),
    }
}

/// How a run stands: the file system, the lines reported so far, and the
/// engine, or the error that ended the run.
pub struct Run {
    pub fs: FileSystem,
    pub reports: Seq<ReportView>,
    pub end: Result<EngineView, SyncErrorView>,
}

/// The most actions that one entry takes.
pub open spec fn actions_per_entry() -> nat {
    6
}

/// Carries out what the engine asks for, and hands it the answers, until
/// it asks for the next entry or fails. `fuel` bounds the actions.
pub open spec fn drive(outcome: Outcome, fs: FileSystem, reports: Seq<ReportView>, fuel: nat) -> Run
    decreases fuel,
{
    match outcome {
        Err(error) => Run { fs, reports, end: Err(error) },
        Ok((engine, step)) => {
            let reports = match step.report {
                Some(report) => reports.push(report),
                None => reports,
            };
            if step.action is Next {
                Run { fs, reports, end: Ok(engine) }
            } else if fuel == 0 {
                Run { fs, reports, end: Err(SyncErrorView::Unexpected) }
            } else {
                let (next, event) = respond(fs, step.action);
                drive(resume_spec(engine, event), next, reports, (fuel - 1) as nat)
            }
        },
    }
}

/// The run after one more entry.
pub open spec fn run_object(run: Run, object: ObjectView) -> Run {
    match run.end {
        Err(_) => run,
        Ok(engine) => drive(begin_spec(engine, object), run.fs, run.reports, actions_per_entry()),
    }
}

/// The run of an engine with settings `opts` over the entries of `walk`,
/// in their order, on the file system `fs`. It ends at the first error.
pub open spec fn run_walk(opts: OptsView, fs: FileSystem, walk: Seq<ObjectView>) -> Run
    decreases walk.len(),
{
    if walk.len() == 0 {
        Run { fs, reports: Seq::empty(), end: Ok(EngineView { opts, phase: PhaseView::Idle }) }
    } else {
        run_object(run_walk(opts, fs, walk.drop_last()), walk.last())
    }
}

/// Where the entry goes.
pub open spec fn target(opts: OptsView, object: ObjectView) -> Components {
    join(opts.destination, object.relative_path)
}

/// The run stands ready for an entry.
pub open spec fn idle(run: Run, opts: OptsView) -> bool {
    run.end == Ok::<EngineView, SyncErrorView>(EngineView { opts, phase: PhaseView::Idle })
}

/// The run, ended by the file system's refusal.
pub open spec fn refused(fs: FileSystem, reports: Seq<ReportView>) -> Run {
    Run { fs, reports, end: Err(SyncErrorView::Io(refusal())) }
}

/// The run, ready for the next entry.
pub open spec fn ready(opts: OptsView, fs: FileSystem, reports: Seq<ReportView>) -> Run {
    Run { fs, reports, end: Ok(EngineView { opts, phase: PhaseView::Idle }) }
}

/// The file of `object` is in place at its destination: the line for it,
/// and the removal of the source where that is wanted.
pub open spec fn mirror_confirmed(
    opts: OptsView,
    fs: FileSystem,
    reports: Seq<ReportView>,
    object: ObjectView,
    kind: ReportKind,
) -> Run {
    let reports = reports.push(ReportView { kind, relative_path: object.relative_path });
    if !opts.remove_copied_files {
        ready(opts, fs, reports)
    } else if is_file(fs, object.absolute_path) {
        ready(opts, fs.remove(object.absolute_path), reports)
    } else {
        refused(fs, reports)
    }
}

/// What one entry does to an idle run, said in one piece.
pub open spec fn mirror_object(
    opts: OptsView,
    fs: FileSystem,
    reports: Seq<ReportView>,
    object: ObjectView,
) -> Run {
    let source = object.absolute_path;
    let destination = target(opts, object);
    if excluded(opts, object) {
        ready(opts, fs, reports)
    } else {
        match object.file_type {
            EntryKind::Other => ready(opts, fs, reports),
            EntryKind::Directory => if fs.contains_key(destination) {
                ready(opts, fs, reports)
            } else if can_create(fs, destination) {
                ready(
                    opts,
                    with_directories(fs, destination),
                    reports.push(
                        ReportView {
                            kind: ReportKind::Created,
                            relative_path: object.relative_path,
                        },
                    ),
                )
            } else {
                refused(fs, reports)
            },
            EntryKind::File => if !is_file(fs, source) {
                refused(fs, reports)
            } else if fs.contains_key(destination) && !is_file(fs, destination) {
                refused(fs, reports)
            } else if fs.contains_key(destination) && fs[destination] == fs[source] {
                mirror_confirmed(opts, fs, reports, object, ReportKind::Exists)
            } else if source == destination {
                Run { fs, reports, end: Err(SyncErrorView::CopyToSelf) }
            } else if !can_copy(fs, source, destination) {
                refused(fs, reports)
            } else {
                mirror_confirmed(
                    opts,
                    fs.insert(destination, fs[source]),
                    reports,
                    object,
                    ReportKind::Copied,
                )
            },
        }
    }
}

/// One entry, step by step, comes to what [`mirror_object`] says.
pub proof fn lemma_run_object(
    opts: OptsView,
    fs: FileSystem,
    reports: Seq<ReportView>,
    object: ObjectView,
)
    ensures
        run_object(ready(opts, fs, reports), object) == mirror_object(opts, fs, reports, object),
{
    reveal_with_fuel(drive, 7);
    let source = object.absolute_path;
    let destination = target(opts, object);
    if !excluded(opts, object) && object.file_type == EntryKind::File && is_file(fs, source) {
        let after = fs.insert(destination, fs[source]);
        if source != destination && can_copy(fs, source, destination) {
            assert(is_file(after, destination));
            assert(after[destination]->File_0 == fs[source]->File_0);
            assert(is_file(after, source) == is_file(fs, source));
        }
    }
}

} // verus!
