//! What ends a run early.

use vstd::prelude::*;
use vstd::string::*;
use crate::path::{render, Components, TreePath};

verus! {

/// A copy whose destination, read back, did not match its source.
#[derive(Debug, PartialEq, Eq)]
pub struct BadCopy {
    pub source: TreePath,
    pub destination: TreePath,
}

/// A [`BadCopy`] as mathematical values.
pub struct BadCopyView {
    pub source: Components,
    pub destination: Components,
}

impl View for BadCopy {
    type V = BadCopyView;

    open spec fn view(&self) -> BadCopyView {
        BadCopyView { source: self.source@, destination: self.destination@ }
    }
}

/// The text of a bad copy: a heading, then the two paths, one per line.
pub open spec fn bad_copy_text(source: Components, destination: Components) -> Seq<char> {
    "bad copy:\n  source: "@ + render(source) + "\n  destination: "@ + render(destination)
        + "\n"@
}

impl BadCopy {
    /// Records the two paths of a copy that went wrong.
    pub fn new(source: TreePath, destination: TreePath) -> (bad: BadCopy)
        ensures
            bad.source == source,
            bad.destination == destination,
            bad@ == (BadCopyView { source: source@, destination: destination@ }),
    {
        BadCopy { source, destination }
    }

    /// The diagnostic that names both paths.
    pub fn message(&self) -> (text: String)
        ensures
            text@ == bad_copy_text(self@.source, self@.destination),
    {
        let mut text = String::from_str("bad copy:\n  source: ");
        let source = self.source.display();
        text.append(source.as_str());
        text.append("\n  destination: ");
        let destination = self.destination.display();
        text.append(destination.as_str());
        text.append("\n");
        text
    }
}

/// Why a run stopped before the walk was done.
#[derive(Debug, PartialEq, Eq)]
pub enum SyncError {
    /// The file system refused an operation; the text is its own.
    Io(String),
    /// Source and destination of a copy are the same path.
    CopyToSelf,
    /// A copy did not read back as it was written.
    BadCopy(BadCopy),
    /// The engine was handed something it had not asked for.
    Unexpected,
}

/// A [`SyncError`] as mathematical values.
pub enum SyncErrorView {
    Io(Seq<char>),
    CopyToSelf,
    BadCopy(BadCopyView),
    Unexpected,
}

impl View for SyncError {
    type V = SyncErrorView;

    open spec fn view(&self) -> SyncErrorView {
        match self {
            SyncError::Io(text) => SyncErrorView::Io(text@),
            SyncError::CopyToSelf => SyncErrorView::CopyToSelf,
            SyncError::BadCopy(bad) => SyncErrorView::BadCopy(bad@),
            SyncError::Unexpected => SyncErrorView::Unexpected,
        }
    }
}

/// The line, or block of lines, that an error is reported with.
pub open spec fn error_text(error: SyncErrorView) -> Seq<char> {
    match error {
        SyncErrorView::Io(text) => text,
        SyncErrorView::CopyToSelf => "attempt to copy to self"@,
        SyncErrorView::BadCopy(bad) => bad_copy_text(bad.source, bad.destination),
        SyncErrorView::Unexpected => "unexpected event"@,
    }
}

impl SyncError {
    /// The text to show for this error.
    pub fn message(&self) -> (text: String)
        ensures
            text@ == error_text(self@),
    {
        match self {
            SyncError::Io(text) => text.clone(),
            SyncError::CopyToSelf => String::from_str("attempt to copy to self"),
            SyncError::BadCopy(bad) => bad.message(),
            SyncError::Unexpected => String::from_str("unexpected event"),
        }
    }
}

} // verus!
