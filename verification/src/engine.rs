//! The engine: what to ask of the file system for each entry of a walk,
//! and what to make of the answers.
//!
//! The engine performs nothing itself. [`Engine::begin`] takes an entry and
//! [`Engine::resume`] takes the outcome of the last action; each hands back
//! the next [`Action`] for the caller to carry out. An error consumes the
//! engine, so a failed run cannot go on to further entries.

use vstd::prelude::*;
use vstd::string::*;
use crate::error::{BadCopy, BadCopyView, SyncError, SyncErrorView};
use crate::fingerprint::Fingerprint;
use crate::object::{EntryKind, Object, ObjectView};
use crate::path::{
    has_hidden_component, is_hidden, is_hidden_name, join, render, Components, TreePath,
};

verus! {

/// The settings of a run.
#[derive(Debug, PartialEq, Eq)]
pub struct Opts {
    pub source: TreePath,
    pub destination: TreePath,
    /// Take entries with a hidden name, and what lies under them, too.
    pub include_hidden_files: bool,
    /// Remove a source file once its copy is known to be good.
    pub remove_copied_files: bool,
}

/// [`Opts`] as mathematical values.
pub struct OptsView {
    pub source: Components,
    pub destination: Components,
    pub include_hidden_files: bool,
    pub remove_copied_files: bool,
}

impl View for Opts {
    type V = OptsView;

    open spec fn view(&self) -> OptsView {
        OptsView {
            source: self.source@,
            destination: self.destination@,
            include_hidden_files: self.include_hidden_files,
            remove_copied_files: self.remove_copied_files,
        }
    }
}

impl Clone for Opts {
    fn clone(&self) -> (copy: Opts)
        ensures
            copy@ == self@,
    {
        Opts {
            source: self.source.clone(),
            destination: self.destination.clone(),
            include_hidden_files: self.include_hidden_files,
            remove_copied_files: self.remove_copied_files,
        }
    }
}

/// A walk goes into the entry called `name` that lies `depth` levels
/// under the source root: the root itself always, anything else unless
/// its name is hidden and hidden entries are not wanted.
pub open spec fn admits(opts: OptsView, depth: nat, name: Seq<char>) -> bool {
    depth == 0 || opts.include_hidden_files || !is_hidden_name(name)
}

impl Opts {
    /// The root of the destination tree.
    pub fn destination(&self) -> (root: &TreePath)
        ensures
            root == &self.destination,
            root@ == self@.destination,
    {
        &self.destination
    }

    /// Tells a walker whether to take the entry called `name`, `depth`
    /// levels under the source root, and to go on below it.
    pub fn admits(&self, depth: usize, name: &str) -> (taken: bool)
        ensures
            taken == admits(self@, depth as nat, name@),
    {
        depth == 0 || self.include_hidden_files || !is_hidden(name)
    }
}

/// What happened to an entry.
#[derive(Clone, Copy, Debug, PartialEq, Eq, Structural)]
pub enum ReportKind {
    /// A directory was made at the destination.
    Created,
    /// The destination already held the same content.
    Exists,
    /// The file was copied and read back.
    Copied,
}

/// A line of progress for one entry.
#[derive(Debug, PartialEq, Eq)]
pub struct Report {
    pub kind: ReportKind,
    pub relative_path: TreePath,
}

/// A [`Report`] as mathematical values.
pub struct ReportView {
    pub kind: ReportKind,
    pub relative_path: Components,
}

impl View for Report {
    type V = ReportView;

    open spec fn view(&self) -> ReportView {
        ReportView { kind: self.kind, relative_path: self.relative_path@ }
    }
}

/// The text of a report: the word for its kind, a space, the relative path.
pub open spec fn report_text(report: ReportView) -> Seq<char> {
    let word = match report.kind {
        ReportKind::Created => "created "@,
        ReportKind::Exists => "exists "@,
        ReportKind::Copied => "copied "@,
    };
    word + render(report.relative_path)
}

impl Report {
    /// The line to print for this report.
    pub fn line(&self) -> (text: String)
        ensures
            text@ == report_text(self@),
    {
        let mut text = match self.kind {
            ReportKind::Created => String::from_str("created "),
            ReportKind::Exists => String::from_str("exists "),
            ReportKind::Copied => String::from_str("copied "),
        };
        let path = self.relative_path.display();
        text.append(path.as_str());
        text
    }
}

/// What the engine asks its caller to do next.
#[derive(Debug, PartialEq, Eq)]
pub enum Action {
    /// Find out whether anything exists at `path`; answer with
    /// [`Event::Exists`].
    Probe { path: TreePath },
    /// Make the directory at `path` and every missing one above it; answer
    /// with [`Event::Done`].
    CreateDirectory { path: TreePath },
    /// Take the fingerprint of the file at `path`; answer with
    /// [`Event::Fingerprint`].
    Fingerprint { path: TreePath },
    /// Copy the bytes of `source` to `destination`, over what is there;
    /// answer with [`Event::Done`].
    Copy { source: TreePath, destination: TreePath },
    /// Remove the file at `path`; answer with [`Event::Done`].
    Remove { path: TreePath },
    /// The entry is dealt with: hand over the next one.
    Next,
}

/// An [`Action`] as mathematical values.
pub enum ActionView {
    Probe { path: Components },
    CreateDirectory { path: Components },
    Fingerprint { path: Components },
    Copy { source: Components, destination: Components },
    Remove { path: Components },
    Next,
}

impl View for Action {
    type V = ActionView;

    open spec fn view(&self) -> ActionView {
        match self {
            Action::Probe { path } => ActionView::Probe { path: path@ },
            Action::CreateDirectory { path } => ActionView::CreateDirectory { path: path@ },
            Action::Fingerprint { path } => ActionView::Fingerprint { path: path@ },
            Action::Copy { source, destination } => ActionView::Copy {
                source: source@,
                destination: destination@,
            },
            Action::Remove { path } => ActionView::Remove { path: path@ },
            Action::Next => ActionView::Next,
        }
    }
}

/// The outcome of an action, as its caller found it.
#[derive(Debug, PartialEq, Eq)]
pub enum Event {
    /// Whether the probed path exists.
    Exists(bool),
    /// The fingerprint that was asked for.
    Fingerprint(Fingerprint),
    /// The action was carried out.
    Done,
    /// The file system refused the action; the text says why.
    Failed(String),
}

/// An [`Event`] as mathematical values.
pub enum EventView {
    Exists(bool),
    Fingerprint(Seq<u8>),
    Done,
    Failed(Seq<char>),
}

impl View for Event {
    type V = EventView;

    open spec fn view(&self) -> EventView {
        match self {
            Event::Exists(exists) => EventView::Exists(*exists),
            Event::Fingerprint(fingerprint) => EventView::Fingerprint(fingerprint@),
            Event::Done => EventView::Done,
            Event::Failed(text) => EventView::Failed(text@),
        }
    }
}

/// An entry together with the path it goes to.
#[derive(Debug, PartialEq, Eq)]
pub struct Job {
    pub object: Object,
    pub destination: TreePath,
}

/// A [`Job`] as mathematical values.
pub struct JobView {
    pub object: ObjectView,
    pub destination: Components,
}

impl View for Job {
    type V = JobView;

    open spec fn view(&self) -> JobView {
        JobView { object: self.object@, destination: self.destination@ }
    }
}

/// Where the engine stands with the entry at hand. Each phase but `Idle`
/// waits for the outcome of one action.
#[derive(Debug, PartialEq, Eq)]
pub enum Phase {
    /// No entry at hand.
    Idle,
    /// Probing the destination of a directory.
    ProbeDirectory(Job),
    /// Making the directory.
    CreateDirectory(Job),
    /// Taking the fingerprint of the source file.
    SourceFingerprint(Job),
    /// Probing the destination of a file.
    ProbeFile(Job, Fingerprint),
    /// Taking the fingerprint of what the destination holds already.
    ExistingFingerprint(Job, Fingerprint),
    /// Copying.
    Copy(Job, Fingerprint),
    /// Taking the fingerprint of the fresh copy.
    Verify(Job, Fingerprint),
    /// Removing the source file.
    Remove,
}

/// A [`Phase`] as mathematical values.
pub enum PhaseView {
    Idle,
    ProbeDirectory(JobView),
    CreateDirectory(JobView),
    SourceFingerprint(JobView),
    ProbeFile(JobView, Seq<u8>),
    ExistingFingerprint(JobView, Seq<u8>),
    Copy(JobView, Seq<u8>),
    Verify(JobView, Seq<u8>),
    Remove,
}

impl View for Phase {
    type V = PhaseView;

    open spec fn view(&self) -> PhaseView {
        match self {
            Phase::Idle => PhaseView::Idle,
            Phase::ProbeDirectory(job) => PhaseView::ProbeDirectory(job@),
            Phase::CreateDirectory(job) => PhaseView::CreateDirectory(job@),
            Phase::SourceFingerprint(job) => PhaseView::SourceFingerprint(job@),
            Phase::ProbeFile(job, source) => PhaseView::ProbeFile(job@, source@),
            Phase::ExistingFingerprint(job, source) => PhaseView::ExistingFingerprint(
                job@,
                source@,
            ),
            Phase::Copy(job, source) => PhaseView::Copy(job@, source@),
            Phase::Verify(job, source) => PhaseView::Verify(job@, source@),
            Phase::Remove => PhaseView::Remove,
        }
    }
}

/// What the engine hands back: a line to report, if any, and then the
/// action to carry out. The report comes first.
#[derive(Debug, PartialEq, Eq)]
pub struct Step {
    pub report: Option<Report>,
    pub action: Action,
}

/// A [`Step`] as mathematical values.
pub struct StepView {
    pub report: Option<ReportView>,
    pub action: ActionView,
}

impl View for Step {
    type V = StepView;

    open spec fn view(&self) -> StepView {
        StepView {
            report: match self.report {
                Some(report) => Some(report@),
                None => None,
            },
            action: self.action@,
        }
    }
}

/// The engine of a run.
#[derive(Debug, PartialEq, Eq)]
pub struct Engine {
    pub opts: Opts,
    pub phase: Phase,
}

/// An [`Engine`] as mathematical values.
pub struct EngineView {
    pub opts: OptsView,
    pub phase: PhaseView,
}

impl View for Engine {
    type V = EngineView;

    open spec fn view(&self) -> EngineView {
        EngineView { opts: self.opts@, phase: self.phase@ }
    }
}

/// What a call of the engine gives, as mathematical values.
pub type Outcome = Result<(EngineView, StepView), SyncErrorView>;

/// The view of what a call of the engine gives.
pub open spec fn outcome_view(outcome: Result<(Engine, Step), SyncError>) -> Outcome {
    match outcome {
        Ok((engine, step)) => Ok((engine@, step@)),
        Err(error) => Err(error@),
    }
}

/// The entry is left out: hidden entries are not wanted, and the entry, or
/// a directory above it, has a hidden name.
pub open spec fn excluded(opts: OptsView, object: ObjectView) -> bool {
    !opts.include_hidden_files && has_hidden_component(object.relative_path)
}

/// The entry is done: the engine is idle again and asks for the next one.
pub open spec fn entry_done(opts: OptsView, report: Option<ReportView>) -> Outcome {
    Ok((EngineView { opts, phase: PhaseView::Idle }, StepView { report, action: ActionView::Next }))
}

/// The engine moves to `phase` and asks for `action`.
pub open spec fn proceed(opts: OptsView, phase: PhaseView, action: ActionView) -> Outcome {
    Ok((EngineView { opts, phase }, StepView { report: None, action }))
}

/// What [`Engine::begin`] gives.
pub open spec fn begin_spec(engine: EngineView, object: ObjectView) -> Outcome {
    let opts = engine.opts;
    let job = JobView { object, destination: join(opts.destination, object.relative_path) };
    if engine.phase != PhaseView::Idle {
        Err(SyncErrorView::Unexpected)
    } else if excluded(opts, object) {
        entry_done(opts, None)
    } else {
        match object.file_type {
            EntryKind::Directory => proceed(
                opts,
                PhaseView::ProbeDirectory(job),
                ActionView::Probe { path: job.destination },
            ),
            EntryKind::File => proceed(
                opts,
                PhaseView::SourceFingerprint(job),
                ActionView::Fingerprint { path: object.absolute_path },
            ),
            EntryKind::Other => entry_done(opts, None),
        }
    }
}

/// The file of `job` has to be copied: the copy is asked for, unless it
/// would go onto the file itself.
pub open spec fn start_copy(opts: OptsView, job: JobView, source: Seq<u8>) -> Outcome {
    if job.object.absolute_path == job.destination {
        Err(SyncErrorView::CopyToSelf)
    } else {
        proceed(
            opts,
            PhaseView::Copy(job, source),
            ActionView::Copy { source: job.object.absolute_path, destination: job.destination },
        )
    }
}

/// The destination of `job` is known to hold the content of the source:
/// this is reported, and the source is removed where that is wanted.
pub open spec fn confirm(opts: OptsView, job: JobView, kind: ReportKind) -> Outcome {
    let report = Some(ReportView { kind, relative_path: job.object.relative_path });
    if opts.remove_copied_files {
        Ok(
            (
                EngineView { opts, phase: PhaseView::Remove },
                StepView { report, action: ActionView::Remove { path: job.object.absolute_path } },
            ),
        )
    } else {
        entry_done(opts, report)
    }
}

/// What [`Engine::resume`] gives.
pub open spec fn resume_spec(engine: EngineView, event: EventView) -> Outcome {
    let opts = engine.opts;
    match engine.phase {
        PhaseView::Idle => Err(SyncErrorView::Unexpected),
        PhaseView::ProbeDirectory(job) => match event {
            EventView::Exists(true) => entry_done(opts, None),
            EventView::Exists(false) => proceed(
                opts,
                PhaseView::CreateDirectory(job),
                ActionView::CreateDirectory { path: job.destination },
            ),
            EventView::Failed(text) => Err(SyncErrorView::Io(text)),
            _ => Err(SyncErrorView::Unexpected),
        },
        PhaseView::CreateDirectory(job) => match event {
            EventView::Done => entry_done(
                opts,
                Some(
                    ReportView {
                        kind: ReportKind::Created,
                        relative_path: job.object.relative_path,
                    },
                ),
            ),
            EventView::Failed(text) => Err(SyncErrorView::Io(text)),
            _ => Err(SyncErrorView::Unexpected),
        },
        PhaseView::SourceFingerprint(job) => match event {
            EventView::Fingerprint(source) => proceed(
                opts,
                PhaseView::ProbeFile(job, source),
                ActionView::Probe { path: job.destination },
            ),
            EventView::Failed(text) => Err(SyncErrorView::Io(text)),
            _ => Err(SyncErrorView::Unexpected),
        },
        PhaseView::ProbeFile(job, source) => match event {
            EventView::Exists(true) => proceed(
                opts,
                PhaseView::ExistingFingerprint(job, source),
                ActionView::Fingerprint { path: job.destination },
            ),
            EventView::Exists(false) => start_copy(opts, job, source),
            EventView::Failed(text) => Err(SyncErrorView::Io(text)),
            _ => Err(SyncErrorView::Unexpected),
        },
        PhaseView::ExistingFingerprint(job, source) => match event {
            EventView::Fingerprint(existing) => if existing == source {
                confirm(opts, job, ReportKind::Exists)
            } else {
                start_copy(opts, job, source)
            },
            EventView::Failed(text) => Err(SyncErrorView::Io(text)),
            _ => Err(SyncErrorView::Unexpected),
        },
        PhaseView::Copy(job, source) => match event {
            EventView::Done => proceed(
                opts,
                PhaseView::Verify(job, source),
                ActionView::Fingerprint { path: job.destination },
            ),
            EventView::Failed(text) => Err(SyncErrorView::Io(text)),
            _ => Err(SyncErrorView::Unexpected),
        },
        PhaseView::Verify(job, source) => match event {
            EventView::Fingerprint(copied) => if copied == source {
                confirm(opts, job, ReportKind::Copied)
            } else {
                Err(
                    SyncErrorView::BadCopy(
                        BadCopyView {
                            source: job.object.absolute_path,
                            destination: job.destination,
                        },
                    ),
                )
            },
            EventView::Failed(text) => Err(SyncErrorView::Io(text)),
            _ => Err(SyncErrorView::Unexpected),
        },
        PhaseView::Remove => match event {
            EventView::Done => entry_done(opts, None),
            EventView::Failed(text) => Err(SyncErrorView::Io(text)),
            _ => Err(SyncErrorView::Unexpected),
        },
    }
}

/// The error for an event that the phase at hand did not wait for.
fn refuse(event: Event) -> (error: SyncError)
    ensures
        error@ == match event@ {
            EventView::Failed(text) => SyncErrorView::Io(text),
            _ => SyncErrorView::Unexpected,
        },
{
    match event {
        Event::Failed(text) => SyncError::Io(text),
        _ => SyncError::Unexpected,
    }
}

/// The engine is idle again and asks for the next entry.
fn done(opts: Opts, report: Option<Report>) -> (outcome: Result<(Engine, Step), SyncError>)
    ensures
        outcome_view(outcome) == entry_done(
            opts@,
            match report {
                Some(report) => Some(report@),
                None => None,
            },
        ),
{
    Ok((Engine { opts, phase: Phase::Idle }, Step { report, action: Action::Next }))
}

/// Asks for the copy of the job's file, unless it would go onto itself.
fn copy(opts: Opts, job: Job, source: Fingerprint) -> (outcome: Result<(Engine, Step), SyncError>)
    ensures
        outcome_view(outcome) == start_copy(opts@, job@, source@),
{
    match job.object.copy_to(&job.destination) {
        Err(error) => Err(error),
        Ok(action) => Ok(
            (Engine { opts, phase: Phase::Copy(job, source) }, Step { report: None, action }),
        ),
    }
}

/// Reports the job's file as in place and asks for the removal of its
/// source where that is wanted.
fn settle(opts: Opts, job: Job, kind: ReportKind) -> (outcome: Result<(Engine, Step), SyncError>)
    ensures
        outcome_view(outcome) == confirm(opts@, job@, kind),
{
    let Job { object, destination: _ } = job;
    let Object { file_type: _, absolute_path, relative_path } = object;
    let report = Some(Report { kind, relative_path });
    if opts.remove_copied_files {
        Ok(
            (
                Engine { opts, phase: Phase::Remove },
                Step { report, action: Action::Remove { path: absolute_path } },
            ),
        )
    } else {
        done(opts, report)
    }
}

impl Engine {
    /// An idle engine with the given settings.
    pub fn new(opts: Opts) -> (engine: Engine)
        ensures
            engine.opts == opts,
            engine@ == (EngineView { opts: opts@, phase: PhaseView::Idle }),
    {
        Engine { opts, phase: Phase::Idle }
    }

    /// Tells whether the engine waits for an entry.
    pub fn is_idle(&self) -> (idle: bool)
        ensures
            idle == (self@.phase == PhaseView::Idle),
    {
        match &self.phase {
            Phase::Idle => true,
            _ => false,
        }
    }

    /// Takes the next entry of the walk and says what to do first for it.
    pub fn begin(self, object: Object) -> (outcome: Result<(Engine, Step), SyncError>)
        ensures
            outcome_view(outcome) == begin_spec(self@, object@),
    {
        let Engine { opts, phase } = self;
        match phase {
            Phase::Idle => {},
            _ => {
                return Err(SyncError::Unexpected);
            },
        }
        if !opts.include_hidden_files && object.relative_path.has_hidden_component() {
            return done(opts, None);
        }
        match object.file_type {
            EntryKind::Directory => {
                let destination = opts.destination().join(&object.relative_path);
                let path = destination.clone();
                let job = Job { object, destination };
                Ok(
                    (
                        Engine { opts, phase: Phase::ProbeDirectory(job) },
                        Step { report: None, action: Action::Probe { path } },
                    ),
                )
            },
            EntryKind::File => {
                let destination = opts.destination().join(&object.relative_path);
                let path = object.absolute_path.clone();
                let job = Job { object, destination };
                Ok(
                    (
                        Engine { opts, phase: Phase::SourceFingerprint(job) },
                        Step { report: None, action: Action::Fingerprint { path } },
                    ),
                )
            },
            EntryKind::Other => done(opts, None),
        }
    }

    /// Takes the outcome of the last action and says what to do next.
    pub fn resume(self, event: Event) -> (outcome: Result<(Engine, Step), SyncError>)
        ensures
            outcome_view(outcome) == resume_spec(self@, event@),
    {
        let Engine { opts, phase } = self;
        match phase {
            Phase::Idle => Err(SyncError::Unexpected),
            Phase::ProbeDirectory(job) => match event {
                Event::Exists(true) => done(opts, None),
                Event::Exists(false) => {
                    let path = job.destination.clone();
                    Ok(
                        (
                            Engine { opts, phase: Phase::CreateDirectory(job) },
                            Step { report: None, action: Action::CreateDirectory { path } },
                        ),
                    )
                },
                other => Err(refuse(other)),
            },
            Phase::CreateDirectory(job) => match event {
                Event::Done => {
                    let report = Report {
                        kind: ReportKind::Created,
                        relative_path: job.object.relative_path,
                    };
                    done(opts, Some(report))
                },
                other => Err(refuse(other)),
            },
            Phase::SourceFingerprint(job) => match event {
                Event::Fingerprint(source) => {
                    let path = job.destination.clone();
                    Ok(
                        (
                            Engine { opts, phase: Phase::ProbeFile(job, source) },
                            Step { report: None, action: Action::Probe { path } },
                        ),
                    )
                },
                other => Err(refuse(other)),
            },
            Phase::ProbeFile(job, source) => match event {
                Event::Exists(true) => {
                    let path = job.destination.clone();
                    Ok(
                        (
                            Engine { opts, phase: Phase::ExistingFingerprint(job, source) },
                            Step { report: None, action: Action::Fingerprint { path } },
                        ),
                    )
                },
                Event::Exists(false) => copy(opts, job, source),
                other => Err(refuse(other)),
            },
            Phase::ExistingFingerprint(job, source) => match event {
                Event::Fingerprint(existing) => {
                    if existing.same_as(&source) {
                        settle(opts, job, ReportKind::Exists)
                    } else {
                        copy(opts, job, source)
                    }
                },
                other => Err(refuse(other)),
            },
            Phase::Copy(job, source) => match event {
                Event::Done => {
                    let path = job.destination.clone();
                    Ok(
                        (
                            Engine { opts, phase: Phase::Verify(job, source) },
                            Step { report: None, action: Action::Fingerprint { path } },
                        ),
                    )
                },
                other => Err(refuse(other)),
            },
            Phase::Verify(job, source) => match event {
                Event::Fingerprint(copied) => {
                    if copied.same_as(&source) {
                        settle(opts, job, ReportKind::Copied)
                    } else {
                        let Job { object, destination } = job;
                        Err(SyncError::BadCopy(BadCopy::new(object.absolute_path, destination)))
                    }
                },
                other => Err(refuse(other)),
            },
            Phase::Remove => match event {
                Event::Done => done(opts, None),
                other => Err(refuse(other)),
            },
        }
    }
}

} // verus!
