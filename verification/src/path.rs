//! Paths as sequences of components.

use vstd::prelude::*;
use vstd::string::*;

verus! {

/// The components of a path, as mathematical values.
pub type Components = Seq<Seq<char>>;

/// A name is hidden when it starts with a dot.
pub open spec fn is_hidden_name(name: Seq<char>) -> bool {
    name.len() > 0 && name[0] == '.'
}

/// Some component of `path` is hidden.
pub open spec fn has_hidden_component(path: Components) -> bool {
    exists|i: int| 0 <= i < path.len() && is_hidden_name(#[trigger] path[i])
}

/// The component that stands for the root of the file system.
pub open spec fn root_name() -> Seq<char> {
    seq!['/']
}

/// A path is absolute when its first component is the root.
pub open spec fn is_absolute(path: Components) -> bool {
    path.len() > 0 && path[0] == root_name()
}

/// `rel` appended to `base`; an absolute `rel` replaces `base`.
pub open spec fn join(base: Components, rel: Components) -> Components {
    if is_absolute(rel) {
        rel
    } else {
        base + rel
    }
}

/// The text of a path: its components, separated by `/` except directly
/// after a component that already ends in one.
pub open spec fn render(path: Components) -> Seq<char>
    decreases path.len(),
{
    if path.len() == 0 {
        Seq::empty()
    } else if path.len() == 1 {
        path[0]
    } else {
        let head = render(path.drop_last());
        if head.len() > 0 && head.last() == '/' {
            head + path.last()
        } else {
            head + seq!['/'] + path.last()
        }
    }
}

/// Tells whether `name` is hidden.
pub fn is_hidden(name: &str) -> (hidden: bool)
    ensures
        hidden == is_hidden_name(name@),
{
    if name.unicode_len() == 0 {
        false
    } else {
        name.get_char(0) == '.'
    }
}

/// A path, held as the list of its components.
#[derive(Debug, PartialEq, Eq)]
pub struct TreePath {
    pub components: Vec<String>,
}

impl View for TreePath {
    type V = Components;

    open spec fn view(&self) -> Components {
        Seq::new(self.components@.len(), |i: int| self.components@[i]@)
    }
}

impl Clone for TreePath {
    fn clone(&self) -> (copy: TreePath)
        ensures
            copy@ == self@,
    {
        let mut components: Vec<String> = Vec::new();
        let mut i: usize = 0;
        while i < self.components.len()
            invariant
                i <= self.components.len(),
                components@.len() == i,
                forall|k: int| 0 <= k < i ==> components@[k]@ == self.components@[k]@,
            decreases self.components.len() - i,
        {
            components.push(self.components[i].clone());
            i = i + 1;
        }
        let copy = TreePath { components };
        assert(copy@ =~= self@);
        copy
    }
}

impl TreePath {
    /// The empty path.
    pub fn new() -> (path: TreePath)
        ensures
            path@ == Components::empty(),
    {
        let path = TreePath { components: Vec::new() };
        assert(path@ =~= Components::empty());
        path
    }

    /// The path with the given components.
    pub fn from_components(components: Vec<String>) -> (path: TreePath)
        ensures
            path.components == components,
    {
        TreePath { components }
    }

    /// The number of components.
    pub fn len(&self) -> (n: usize)
        ensures
            n == self@.len(),
    {
        self.components.len()
    }

    /// Appends one component.
    pub fn push(&mut self, name: String)
        ensures
            final(self)@ == old(self)@.push(name@),
    {
        self.components.push(name);
        assert(self@ =~= old(self)@.push(name@));
    }

    /// Tells whether the two paths have the same components.
    pub fn same_as(&self, other: &TreePath) -> (same: bool)
        ensures
            same == (self@ == other@),
    {
        if self.components.len() != other.components.len() {
            assert(self@.len() != other@.len());
            return false;
        }
        let mut i: usize = 0;
        while i < self.components.len()
            invariant
                i <= self.components.len(),
                self.components.len() == other.components.len(),
                forall|k: int| 0 <= k < i ==> self@[k] == other@[k],
            decreases self.components.len() - i,
        {
            if self.components[i] != other.components[i] {
                assert(self@[i as int] != other@[i as int]);
                return false;
            }
            i = i + 1;
        }
        assert(self@ =~= other@);
        true
    }

    /// Tells whether `base` is a prefix of this path, component by component.
    pub fn starts_with(&self, base: &TreePath) -> (under: bool)
        ensures
            under == base@.is_prefix_of(self@),
    {
        if base.components.len() > self.components.len() {
            return false;
        }
        let mut i: usize = 0;
        while i < base.components.len()
            invariant
                i <= base.components.len(),
                base.components.len() <= self.components.len(),
                forall|k: int| 0 <= k < i ==> self@[k] == base@[k],
            decreases base.components.len() - i,
        {
            if self.components[i] != base.components[i] {
                assert(self@.subrange(0, base@.len() as int)[i as int] != base@[i as int]);
                return false;
            }
            i = i + 1;
        }
        assert(base@ =~= self@.subrange(0, base@.len() as int));
        true
    }

    /// This path without the leading `base`, where `base` is a prefix of it.
    pub fn strip_prefix(&self, base: &TreePath) -> (rest: Option<TreePath>)
        ensures
            rest is Some <==> base@.is_prefix_of(self@),
            rest is Some ==> rest->0@ == self@.skip(base@.len() as int),
    {
        if !self.starts_with(base) {
            return None;
        }
        let mut rest = TreePath::new();
        let mut i: usize = base.components.len();
        while i < self.components.len()
            invariant
                base.components.len() <= i <= self.components.len(),
                rest@ == self@.subrange(base@.len() as int, i as int),
            decreases self.components.len() - i,
        {
            rest.push(self.components[i].clone());
            assert(rest@ =~= self@.subrange(base@.len() as int, i + 1));
            i = i + 1;
        }
        assert(rest@ =~= self@.skip(base@.len() as int));
        Some(rest)
    }

    /// Tells whether the path starts at the root of the file system.
    pub fn is_absolute(&self) -> (absolute: bool)
        ensures
            absolute == is_absolute(self@),
    {
        if self.components.len() == 0 {
            return false;
        }
        let first = self.components[0].as_str();
        proof {
            assert(self@[0] == first@);
            assert(root_name().len() == 1 && root_name()[0] == '/');
        }
        if first.unicode_len() != 1 {
            return false;
        }
        let absolute = first.get_char(0) == '/';
        assert(absolute ==> first@ =~= root_name());
        absolute
    }

    /// `rel` under this path; an absolute `rel` stands for itself.
    pub fn join(&self, rel: &TreePath) -> (joined: TreePath)
        ensures
            joined@ == join(self@, rel@),
    {
        if rel.is_absolute() {
            return rel.clone();
        }
        let mut joined = self.clone();
        let mut i: usize = 0;
        while i < rel.components.len()
            invariant
                i <= rel.components.len(),
                joined@ == self@ + rel@.subrange(0, i as int),
            decreases rel.components.len() - i,
        {
            joined.push(rel.components[i].clone());
            assert(joined@ =~= self@ + rel@.subrange(0, i + 1));
            i = i + 1;
        }
        assert(joined@ =~= self@ + rel@);
        joined
    }

    /// Tells whether some component of the path is hidden.
    pub fn has_hidden_component(&self) -> (hidden: bool)
        ensures
            hidden == has_hidden_component(self@),
    {
        let mut i: usize = 0;
        while i < self.components.len()
            invariant
                i <= self.components.len(),
                forall|k: int| 0 <= k < i ==> !is_hidden_name(#[trigger] self@[k]),
            decreases self.components.len() - i,
        {
            if is_hidden(self.components[i].as_str()) {
                assert(is_hidden_name(self@[i as int]));
                return true;
            }
            i = i + 1;
        }
        false
    }

    /// The text of the path.
    pub fn display(&self) -> (text: String)
        ensures
            text@ == render(self@),
    {
        let mut text = String::new();
        let mut i: usize = 0;
        while i < self.components.len()
            invariant
                i <= self.components.len(),
                text@ == render(self@.take(i as int)),
            decreases self.components.len() - i,
        {
            let ghost before = self@.take(i as int);
            let ghost after = self@.take(i + 1);
            proof {
                assert(after.drop_last() =~= before);
                assert(after.last() == self@[i as int]);
                reveal_strlit("/");
            }
            if i > 0 && !ends_with_separator(text.as_str()) {
                text.append("/");
            }
            text.append(self.components[i].as_str());
            proof {
                if i == 0 {
                    assert(text@ =~= after[0]);
                } else {
                    assert(text@ =~= render(after));
                }
            }
            i = i + 1;
        }
        assert(self@.take(self@.len() as int) =~= self@);
        text
    }
}

/// Tells whether `text` ends in the separator.
fn ends_with_separator(text: &str) -> (ends: bool)
    ensures
        ends == (text@.len() > 0 && text@.last() == '/'),
{
    let n: usize = text.unicode_len();
    if n == 0 {
        false
    } else {
        text.get_char(n - 1) == '/'
    }
}

} // verus!
