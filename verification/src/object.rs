//! The entries of a walk.

use vstd::prelude::*;
use crate::engine::Action;
use crate::error::SyncError;
use crate::path::{Components, TreePath};

verus! {

/// What kind of file system object an entry is.
#[derive(Clone, Copy, Debug, PartialEq, Eq, Structural)]
pub enum EntryKind {
    Directory,
    File,
    Other,
}

/// One object found under the root of a walk.
#[derive(Debug, PartialEq, Eq)]
pub struct Object {
    pub file_type: EntryKind,
    pub absolute_path: TreePath,
    pub relative_path: TreePath,
}

/// An [`Object`] as mathematical values.
pub struct ObjectView {
    pub file_type: EntryKind,
    pub absolute_path: Components,
    pub relative_path: Components,
}

impl ObjectView {
    /// The relative path is the tail of the absolute path.
    pub open spec fn well_formed(self) -> bool {
        &&& self.relative_path.len() <= self.absolute_path.len()
        &&& self.relative_path == self.absolute_path.skip(
            self.absolute_path.len() - self.relative_path.len(),
        )
    }

    /// The object lies under `base`, at its relative path.
    pub open spec fn is_under(self, base: Components) -> bool {
        self.absolute_path == base + self.relative_path
    }
}

impl View for Object {
    type V = ObjectView;

    open spec fn view(&self) -> ObjectView {
        ObjectView {
            file_type: self.file_type,
            absolute_path: self.absolute_path@,
            relative_path: self.relative_path@,
        }
    }
}

impl Clone for Object {
    fn clone(&self) -> (copy: Object)
        ensures
            copy@ == self@,
    {
        Object {
            file_type: self.file_type,
            absolute_path: self.absolute_path.clone(),
            relative_path: self.relative_path.clone(),
        }
    }
}

impl Object {
    /// The object at `absolute_path`, found by a walk that started at
    /// `base_path`. Its relative path is what follows `base_path`.
    pub fn new(base_path: &TreePath, absolute_path: TreePath, file_type: EntryKind) -> (object:
        Object)
        requires
            base_path@.is_prefix_of(absolute_path@),
        ensures
            object@ == (ObjectView {
                file_type,
                absolute_path: absolute_path@,
                relative_path: absolute_path@.skip(base_path@.len() as int),
            }),
            object@.well_formed(),
            object@.is_under(base_path@),
    {
        let stripped = absolute_path.strip_prefix(base_path);
        let relative_path = match stripped {
            Some(rest) => rest,
            None => TreePath::new(),
        };
        proof {
            let n = base_path@.len() as int;
            assert(absolute_path@.skip(absolute_path@.len() - relative_path@.len())
                =~= relative_path@);
            assert(absolute_path@ =~= base_path@ + relative_path@);
        }
        Object { file_type, absolute_path, relative_path }
    }

    /// Decides the copy of this object to `destination`: the copy to carry
    /// out, or the refusal to copy a file onto itself.
    pub fn copy_to(&self, destination: &TreePath) -> (decision: Result<Action, SyncError>)
        ensures
            self@.absolute_path == destination@ ==> decision == Err::<Action, SyncError>(
                SyncError::CopyToSelf,
            ),
            self@.absolute_path != destination@ ==> decision is Ok && decision->Ok_0@ == (
            crate::engine::ActionView::Copy {
                source: self@.absolute_path,
                destination: destination@,
            }),
    {
        if self.absolute_path.same_as(destination) {
            return Err(SyncError::CopyToSelf);
        }
        Ok(Action::Copy { source: self.absolute_path.clone(), destination: destination.clone() })
    }
}

} // verus!
