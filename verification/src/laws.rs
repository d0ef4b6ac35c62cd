//! What holds of every run against a truthful file system.

use vstd::prelude::*;
use crate::engine::{
    admits, excluded, resume_spec, EngineView, EventView, OptsView, ReportKind, ReportView,
};
use crate::error::{BadCopyView, SyncErrorView};
use crate::model::{
    can_copy, can_create, idle, is_directory, is_file, lemma_run_object, mirror_object, ready,
    run_walk, target, tree_shaped, with_directories, FileSystem, Run,
};
use crate::object::{EntryKind, ObjectView};
use crate::path::{has_hidden_component, is_absolute, is_hidden_name, join, Components};

verus! {

/// Neither path lies at or under the other.
pub open spec fn apart(a: Components, b: Components) -> bool {
    !a.is_prefix_of(b) && !b.is_prefix_of(a)
}

/// The entry takes part in the run.
pub open spec fn admitted(opts: OptsView, object: ObjectView) -> bool {
    !excluded(opts, object)
}

/// The entry is one of the tree under the source root as `fs` has it: it
/// lies under the root at its relative path, a file entry is a file, and
/// the root itself is a directory.
pub open spec fn listed(opts: OptsView, fs: FileSystem, object: ObjectView) -> bool {
    &&& object.is_under(opts.source)
    &&& !is_absolute(object.relative_path)
    &&& (object.file_type == EntryKind::File ==> is_file(fs, object.absolute_path))
    &&& (object.relative_path.len() == 0 ==> object.file_type == EntryKind::Directory)
}

/// `parent` is the directory that `child` lies in.
pub open spec fn is_parent(parent: ObjectView, child: ObjectView) -> bool {
    parent.file_type == EntryKind::Directory && parent.relative_path
        == child.relative_path.drop_last()
}

/// The directory of entry `i` comes before it in the walk.
pub open spec fn has_parent_before(walk: Seq<ObjectView>, i: int) -> bool {
    exists|j: int| 0 <= j < i && is_parent(#[trigger] walk[j], walk[i])
}

/// `walk` lists entries of the source tree of `fs`, each once, and each
/// directory before what lies in it.
pub open spec fn ordered_walk(opts: OptsView, fs: FileSystem, walk: Seq<ObjectView>) -> bool {
    &&& forall|i: int| 0 <= i < walk.len() ==> listed(opts, fs, #[trigger] walk[i])
    &&& forall|i: int, j: int|
        0 <= i < j < walk.len() ==> (#[trigger] walk[i]).relative_path != (
        #[trigger] walk[j]).relative_path
    &&& forall|i: int|
        0 <= i < walk.len() && (#[trigger] walk[i]).relative_path.len() > 0
            ==> has_parent_before(walk, i)
}

/// What stands at `destination` is not of the other kind than `object`.
pub open spec fn fits(fs: FileSystem, object: ObjectView, destination: Components) -> bool {
    match object.file_type {
        EntryKind::Directory => !is_file(fs, destination),
        EntryKind::File => !is_directory(fs, destination),
        EntryKind::Other => true,
    }
}

/// Nothing in `fs` stands in the way of the run: source and destination
/// lie apart, no file stands at the destination root or above it, and
/// where an entry goes there is nothing of the other kind.
pub open spec fn open_way(opts: OptsView, fs: FileSystem, walk: Seq<ObjectView>) -> bool {
    &&& opts.destination.len() > 0
    &&& apart(opts.source, opts.destination)
    &&& tree_shaped(fs)
    &&& can_create(fs, opts.destination)
    &&& forall|i: int|
        0 <= i < walk.len() && admitted(opts, #[trigger] walk[i]) ==> fits(
            fs,
            walk[i],
            target(opts, walk[i]),
        )
}

/// The entry is in place in `after`: a directory stands at its
/// destination, or a file with the fingerprint that the source had in
/// `before`.
pub open spec fn in_place(
    opts: OptsView,
    before: FileSystem,
    after: FileSystem,
    object: ObjectView,
) -> bool {
    match object.file_type {
        EntryKind::File => after.contains_key(target(opts, object)) && after[target(opts, object)]
            == before[object.absolute_path],
        EntryKind::Directory => is_directory(after, target(opts, object)),
        EntryKind::Other => true,
    }
}

/// The two file systems differ at `path`.
pub open spec fn changed(before: FileSystem, after: FileSystem, path: Components) -> bool {
    before.contains_key(path) != after.contains_key(path) || (before.contains_key(path)
        && before[path] != after[path])
}

/// The run may write or remove at `path` for this entry: at its
/// destination; for the root, above the destination too; for a file that
/// is to be removed, at its source.
pub open spec fn touches(opts: OptsView, object: ObjectView, path: Components) -> bool {
    admitted(opts, object) && match object.file_type {
        EntryKind::Directory => path == target(opts, object) || (object.relative_path.len() == 0
            && 0 < path.len() && path.is_prefix_of(opts.destination)),
        EntryKind::File => path == target(opts, object) || (opts.remove_copied_files && path
            == object.absolute_path),
        EntryKind::Other => false,
    }
}

/// The run may have written or removed at `path` for one of the first
/// `k` entries.
pub open spec fn touched(opts: OptsView, walk: Seq<ObjectView>, k: int, path: Components) -> bool {
    exists|j: int| 0 <= j < k && touches(opts, #[trigger] walk[j], path)
}

/// The line that the run reports for an entry, going by how the file
/// system stood at the start.
pub open spec fn report_for(opts: OptsView, start: FileSystem, object: ObjectView) -> Option<
    ReportView,
> {
    let destination = target(opts, object);
    if excluded(opts, object) {
        None
    } else {
        match object.file_type {
            EntryKind::Directory => if start.contains_key(destination) {
                None
            } else {
                Some(ReportView { kind: ReportKind::Created, relative_path: object.relative_path })
            },
            EntryKind::File => if start.contains_key(destination) && start[destination]
                == start[object.absolute_path] {
                Some(ReportView { kind: ReportKind::Exists, relative_path: object.relative_path })
            } else {
                Some(ReportView { kind: ReportKind::Copied, relative_path: object.relative_path })
            },
            EntryKind::Other => None,
        }
    }
}

/// The lines that a run over `walk` reports, in their order.
pub open spec fn expected_reports(
    opts: OptsView,
    start: FileSystem,
    walk: Seq<ObjectView>,
) -> Seq<ReportView>
    decreases walk.len(),
{
    if walk.len() == 0 {
        Seq::empty()
    } else {
        let before = expected_reports(opts, start, walk.drop_last());
        match report_for(opts, start, walk.last()) {
            Some(report) => before.push(report),
            None => before,
        }
    }
}

/// The source file of the entry is gone.
pub open spec fn source_removed(opts: OptsView, fs: FileSystem, object: ObjectView) -> bool {
    opts.remove_copied_files && admitted(opts, object) && object.file_type == EntryKind::File
        ==> !fs.contains_key(object.absolute_path)
}

/// How a run stands after the first `k` entries of a walk that started
/// on `start`.
pub open spec fn kept(
    opts: OptsView,
    start: FileSystem,
    walk: Seq<ObjectView>,
    k: int,
    run: Run,
) -> bool {
    &&& idle(run, opts)
    &&& tree_shaped(run.fs)
    &&& can_create(run.fs, opts.destination)
    &&& forall|j: int|
        0 <= j < k && admitted(opts, #[trigger] walk[j]) ==> in_place(opts, start, run.fs, walk[j])
    &&& forall|j: int| 0 <= j < k ==> source_removed(opts, run.fs, #[trigger] walk[j])
    &&& forall|path: Components| #[trigger]
        changed(start, run.fs, path) ==> touched(opts, walk, k, path)
    &&& run.reports == expected_reports(opts, start, walk.take(k))
}

/// Two paths that lie apart differ at some place that both have.
proof fn lemma_fork(a: Components, b: Components)
    requires
        apart(a, b),
    ensures
        exists|m: int| 0 <= m < a.len() && m < b.len() && a[m] != b[m],
{
    if forall|m: int| 0 <= m < a.len() && m < b.len() ==> a[m] == b[m] {
        if a.len() <= b.len() {
            assert(a =~= b.subrange(0, a.len() as int));
        } else {
            assert(b =~= a.subrange(0, b.len() as int));
        }
    }
}

/// What lies under one of two paths that lie apart is not what lies
/// under the other, nor above or below it.
proof fn lemma_apart_under(a: Components, b: Components, x: Components, y: Components)
    requires
        apart(a, b),
        a.is_prefix_of(x),
        b.is_prefix_of(y),
    ensures
        x != y,
        !x.is_prefix_of(y),
        !y.is_prefix_of(x),
        !x.is_prefix_of(b),
        !y.is_prefix_of(a),
{
    lemma_fork(a, b);
    let m = choose|m: int| 0 <= m < a.len() && m < b.len() && a[m] != b[m];
    assert(x[m] == x.subrange(0, a.len() as int)[m]);
    assert(y[m] == y.subrange(0, b.len() as int)[m]);
    if x.is_prefix_of(y) {
        assert(x[m] == y.subrange(0, x.len() as int)[m]);
    }
    if y.is_prefix_of(x) {
        assert(y[m] == x.subrange(0, y.len() as int)[m]);
    }
    if x.is_prefix_of(b) {
        assert(x[m] == b.subrange(0, x.len() as int)[m]);
    }
    if y.is_prefix_of(a) {
        assert(y[m] == a.subrange(0, y.len() as int)[m]);
    }
}

/// Where a relative path goes under a root.
proof fn lemma_join(base: Components, rel: Components)
    requires
        !is_absolute(rel),
    ensures
        join(base, rel) == base + rel,
        base.is_prefix_of(join(base, rel)),
        join(base, rel).len() == base.len() + rel.len(),
        join(base, rel).skip(base.len() as int) == rel,
        forall|n: int| 0 <= n <= base.len() ==> #[trigger] join(base, rel).take(n) == base.take(n),
        rel.len() > 0 ==> join(base, rel).drop_last() == join(base, rel.drop_last()),
        rel.len() > 0 ==> !is_absolute(rel.drop_last()),
{
    let whole = base + rel;
    assert(base =~= whole.subrange(0, base.len() as int));
    assert(whole.skip(base.len() as int) =~= rel);
    assert forall|n: int| 0 <= n <= base.len() implies #[trigger] whole.take(n) == base.take(n) by {
        assert(whole.take(n) =~= base.take(n));
    }
    if rel.len() > 0 {
        assert(whole.drop_last() =~= base + rel.drop_last());
        if rel.len() > 1 {
            assert(rel.drop_last()[0] == rel[0]);
        }
    }
}

/// Entries with different relative paths go to different places.
proof fn lemma_targets_differ(opts: OptsView, a: ObjectView, b: ObjectView)
    requires
        !is_absolute(a.relative_path),
        !is_absolute(b.relative_path),
        a.relative_path != b.relative_path,
    ensures
        target(opts, a) != target(opts, b),
        a.is_under(opts.source) && b.is_under(opts.source) ==> a.absolute_path != b.absolute_path,
{
    lemma_join(opts.destination, a.relative_path);
    lemma_join(opts.destination, b.relative_path);
    if a.is_under(opts.source) && b.is_under(opts.source) {
        lemma_join(opts.source, a.relative_path);
        lemma_join(opts.source, b.relative_path);
    }
}

/// An entry that takes part lies in a directory that takes part.
proof fn lemma_parent_admitted(opts: OptsView, parent: ObjectView, child: ObjectView)
    requires
        admitted(opts, child),
        child.relative_path.len() > 0,
        parent.relative_path == child.relative_path.drop_last(),
    ensures
        admitted(opts, parent),
{
    if has_hidden_component(parent.relative_path) {
        let i = choose|i: int|
            0 <= i < parent.relative_path.len() && is_hidden_name(
                #[trigger] parent.relative_path[i],
            );
        assert(child.relative_path[i] == parent.relative_path[i]);
    }
}

/// Before an entry's turn the run has left its source and its
/// destination alone.
proof fn lemma_untouched(
    opts: OptsView,
    start: FileSystem,
    walk: Seq<ObjectView>,
    k: int,
    run: Run,
)
    requires
        ordered_walk(opts, start, walk),
        apart(opts.source, opts.destination),
        0 <= k < walk.len(),
        kept(opts, start, walk, k, run),
    ensures
        !changed(start, run.fs, walk[k].absolute_path),
        !changed(start, run.fs, target(opts, walk[k])),
{
    let object = walk[k];
    let source = object.absolute_path;
    let destination = target(opts, object);
    lemma_join(opts.destination, object.relative_path);
    lemma_join(opts.source, object.relative_path);
    assert(listed(opts, start, object));
    if changed(start, run.fs, source) {
        lemma_apart_under(opts.source, opts.destination, source, opts.destination);
        let j = choose|j: int| 0 <= j < k && touches(opts, #[trigger] walk[j], source);
        assert(listed(opts, start, walk[j]));
        lemma_join(opts.destination, walk[j].relative_path);
        lemma_targets_differ(opts, walk[j], object);
        lemma_apart_under(opts.source, opts.destination, source, target(opts, walk[j]));
        assert(false);
    }
    if changed(start, run.fs, destination) {
        let j = choose|j: int| 0 <= j < k && touches(opts, #[trigger] walk[j], destination);
        assert(listed(opts, start, walk[j]));
        lemma_join(opts.source, walk[j].relative_path);
        lemma_targets_differ(opts, walk[j], object);
        lemma_apart_under(opts.source, opts.destination, walk[j].absolute_path, destination);
        assert(false);
    }
}

/// When an entry's turn comes, directories stand all the way above its
/// destination.
proof fn lemma_parent_in_place(
    opts: OptsView,
    start: FileSystem,
    walk: Seq<ObjectView>,
    k: int,
    run: Run,
)
    requires
        ordered_walk(opts, start, walk),
        0 <= k < walk.len(),
        kept(opts, start, walk, k, run),
        admitted(opts, walk[k]),
        walk[k].relative_path.len() > 0,
    ensures
        forall|n: int|
            0 < n < target(opts, walk[k]).len() ==> is_directory(
                run.fs,
                #[trigger] target(opts, walk[k]).take(n),
            ),
{
    let object = walk[k];
    let destination = target(opts, object);
    assert(listed(opts, start, object));
    assert(has_parent_before(walk, k));
    let j = choose|j: int| 0 <= j < k && is_parent(#[trigger] walk[j], walk[k]);
    let parent = walk[j];
    lemma_parent_admitted(opts, parent, object);
    assert(listed(opts, start, parent));
    lemma_join(opts.destination, object.relative_path);
    lemma_join(opts.destination, parent.relative_path);
    let above = target(opts, parent);
    assert(above == destination.drop_last());
    assert(in_place(opts, start, run.fs, parent));
    assert forall|n: int| 0 < n < destination.len() implies is_directory(
        run.fs,
        #[trigger] destination.take(n),
    ) by {
        if n == destination.len() - 1 {
            assert(destination.take(n) =~= above);
        } else {
            assert(destination.take(n) =~= above.take(n));
        }
    }
}

/// An entry that is left out, or is neither file nor directory, changes
/// nothing.
proof fn lemma_step_skip(
    opts: OptsView,
    start: FileSystem,
    walk: Seq<ObjectView>,
    k: int,
    run: Run,
)
    requires
        0 <= k < walk.len(),
        kept(opts, start, walk, k, run),
        !admitted(opts, walk[k]) || walk[k].file_type == EntryKind::Other,
    ensures
        kept(opts, start, walk, k + 1, run),
{
    lemma_expected_step(opts, start, walk, k);
    assert forall|path: Components| #[trigger] changed(start, run.fs, path) implies touched(
        opts,
        walk,
        k + 1,
        path,
    ) by {
        lemma_touched_later(opts, walk, k, path);
    }
}

/// The lines for one entry more are the lines so far and the line for
/// that entry.
proof fn lemma_expected_step(opts: OptsView, start: FileSystem, walk: Seq<ObjectView>, k: int)
    requires
        0 <= k < walk.len(),
    ensures
        expected_reports(opts, start, walk.take(k + 1)) == match report_for(
            opts,
            start,
            walk[k],
        ) {
            Some(report) => expected_reports(opts, start, walk.take(k)).push(report),
            None => expected_reports(opts, start, walk.take(k)),
        },
{
    assert(walk.take(k + 1).drop_last() =~= walk.take(k));
    assert(walk.take(k + 1).last() == walk[k]);
}

/// What the first `k` entries may have touched, the first `k + 1` may
/// have touched.
proof fn lemma_touched_later(opts: OptsView, walk: Seq<ObjectView>, k: int, path: Components)
    requires
        touched(opts, walk, k, path),
    ensures
        touched(opts, walk, k + 1, path),
{
    let j = choose|j: int| 0 <= j < k && touches(opts, #[trigger] walk[j], path);
    assert(0 <= j < k + 1 && touches(opts, walk[j], path));
}

/// The turn of a directory keeps the run as it should be.
proof fn lemma_step_directory(
    opts: OptsView,
    start: FileSystem,
    walk: Seq<ObjectView>,
    k: int,
    run: Run,
)
    requires
        ordered_walk(opts, start, walk),
        open_way(opts, start, walk),
        0 <= k < walk.len(),
        kept(opts, start, walk, k, run),
        admitted(opts, walk[k]),
        walk[k].file_type == EntryKind::Directory,
    ensures
        kept(opts, start, walk, k + 1, mirror_object(opts, run.fs, run.reports, walk[k])),
{
    let object = walk[k];
    let fs = run.fs;
    let destination = target(opts, object);
    let after = mirror_object(opts, fs, run.reports, object);
    assert(listed(opts, start, object));
    lemma_join(opts.destination, object.relative_path);
    lemma_untouched(opts, start, walk, k, run);
    lemma_expected_step(opts, start, walk, k);
    assert(fits(start, object, destination));
    if object.relative_path.len() > 0 {
        lemma_parent_in_place(opts, start, walk, k, run);
    } else {
        assert(destination =~= opts.destination);
        assert(opts.destination.take(opts.destination.len() as int) =~= opts.destination);
    }
    assert(!is_file(fs, destination));
    if fs.contains_key(destination) {
        assert(after.fs == fs);
        assert forall|path: Components| #[trigger] changed(start, fs, path) implies touched(
            opts,
            walk,
            k + 1,
            path,
        ) by {
            lemma_touched_later(opts, walk, k, path);
        }
    } else {
        assert(can_create(fs, destination)) by {
            assert forall|n: int| 0 < n <= destination.len() implies !is_file(
                fs,
                #[trigger] destination.take(n),
            ) by {
                if n == destination.len() {
                    assert(destination.take(n) =~= destination);
                }
            }
        }
        let made = with_directories(fs, destination);
        assert(after.fs == made);
        assert(is_directory(made, destination));
        assert(tree_shaped(made)) by {
            assert forall|path: Components, n: int|
                made.contains_key(path) && 0 < n < path.len() implies is_directory(
                made,
                #[trigger] path.take(n),
            ) by {
                if fs.contains_key(path) {
                    assert(is_directory(fs, path.take(n)));
                } else {
                    assert(path.is_prefix_of(destination));
                    assert(path.take(n) =~= destination.take(n));
                    assert(path.take(n).is_prefix_of(destination));
                    assert(!is_file(fs, destination.take(n)));
                }
            }
        }
        assert(can_create(made, opts.destination)) by {
            assert forall|n: int| 0 < n <= opts.destination.len() implies !is_file(
                made,
                #[trigger] opts.destination.take(n),
            ) by {
                assert(!is_file(fs, opts.destination.take(n)));
            }
        }
        assert forall|path: Components| #[trigger] changed(start, made, path) implies touched(
            opts,
            walk,
            k + 1,
            path,
        ) by {
            if changed(start, fs, path) {
                lemma_touched_later(opts, walk, k, path);
            } else {
                assert(!fs.contains_key(path) && 0 < path.len() && path.is_prefix_of(destination));
                if path.len() == destination.len() {
                    assert(path =~= destination);
                } else if object.relative_path.len() > 0 {
                    assert(path =~= destination.take(path.len() as int));
                    assert(is_directory(fs, destination.take(path.len() as int)));
                }
                assert(touches(opts, walk[k], path));
            }
        }
        assert forall|j: int| 0 <= j < k + 1 implies source_removed(
            opts,
            made,
            #[trigger] walk[j],
        ) by {
            if j < k && opts.remove_copied_files && admitted(opts, walk[j]) && walk[j].file_type
                == EntryKind::File {
                assert(source_removed(opts, fs, walk[j]));
                assert(listed(opts, start, walk[j]));
                lemma_join(opts.source, walk[j].relative_path);
                lemma_apart_under(
                    opts.source,
                    opts.destination,
                    walk[j].absolute_path,
                    destination,
                );
            }
        }
        assert forall|j: int| 0 <= j < k + 1 && admitted(opts, #[trigger] walk[j]) implies in_place(
            opts,
            start,
            made,
            walk[j],
        ) by {
            if j < k {
                assert(in_place(opts, start, fs, walk[j]));
            }
        }
    }
}

/// The turn of a file keeps the run as it should be.
proof fn lemma_step_file(
    opts: OptsView,
    start: FileSystem,
    walk: Seq<ObjectView>,
    k: int,
    run: Run,
)
    requires
        ordered_walk(opts, start, walk),
        open_way(opts, start, walk),
        0 <= k < walk.len(),
        kept(opts, start, walk, k, run),
        admitted(opts, walk[k]),
        walk[k].file_type == EntryKind::File,
    ensures
        kept(opts, start, walk, k + 1, mirror_object(opts, run.fs, run.reports, walk[k])),
{
    let object = walk[k];
    let fs = run.fs;
    let source = object.absolute_path;
    let destination = target(opts, object);
    let after = mirror_object(opts, fs, run.reports, object);
    assert(listed(opts, start, object));
    lemma_join(opts.destination, object.relative_path);
    lemma_join(opts.source, object.relative_path);
    lemma_untouched(opts, start, walk, k, run);
    lemma_expected_step(opts, start, walk, k);
    lemma_parent_in_place(opts, start, walk, k, run);
    lemma_apart_under(opts.source, opts.destination, source, destination);
    assert(fits(start, object, destination));
    assert(is_file(fs, source));
    assert(!is_directory(fs, destination));
    assert(fs[source] == start[source]);
    let synced = fs.contains_key(destination) && fs[destination] == fs[source];
    if !synced {
        assert(can_copy(fs, source, destination)) by {
            if destination.len() > 1 {
                assert(destination.drop_last() =~= destination.take(destination.len() - 1));
            }
        }
    }
    let copied = if synced {
        fs
    } else {
        fs.insert(destination, fs[source])
    };
    let last = if opts.remove_copied_files {
        copied.remove(source)
    } else {
        copied
    };
    assert(is_file(copied, source));
    assert(after.fs == last);
    assert(idle(after, opts));
    assert(tree_shaped(last)) by {
        assert forall|path: Components, n: int|
            last.contains_key(path) && 0 < n < path.len() implies is_directory(
            last,
            #[trigger] path.take(n),
        ) by {
            if path == destination {
                assert(is_directory(fs, destination.take(n)));
            } else {
                assert(fs.contains_key(path));
                assert(is_directory(fs, path.take(n)));
            }
        }
    }
    assert(can_create(last, opts.destination)) by {
        assert forall|n: int| 0 < n <= opts.destination.len() implies !is_file(
            last,
            #[trigger] opts.destination.take(n),
        ) by {
            assert(!is_file(fs, opts.destination.take(n)));
            assert(opts.destination.take(n).len() < destination.len());
        }
    }
    assert forall|path: Components| #[trigger] changed(start, last, path) implies touched(
        opts,
        walk,
        k + 1,
        path,
    ) by {
        if changed(start, fs, path) {
            lemma_touched_later(opts, walk, k, path);
        } else {
            assert(path == destination || (opts.remove_copied_files && path == source));
            assert(touches(opts, walk[k], path));
        }
    }
    assert forall|j: int| 0 <= j < k + 1 implies source_removed(opts, last, #[trigger] walk[j]) by {
        if j < k && opts.remove_copied_files && admitted(opts, walk[j]) && walk[j].file_type
            == EntryKind::File {
            assert(source_removed(opts, fs, walk[j]));
            assert(listed(opts, start, walk[j]));
            lemma_join(opts.source, walk[j].relative_path);
            lemma_apart_under(opts.source, opts.destination, walk[j].absolute_path, destination);
        }
    }
    assert forall|j: int| 0 <= j < k + 1 && admitted(opts, #[trigger] walk[j]) implies in_place(
        opts,
        start,
        last,
        walk[j],
    ) by {
        if j < k {
            assert(in_place(opts, start, fs, walk[j]));
            assert(listed(opts, start, walk[j]));
            lemma_targets_differ(opts, walk[j], object);
            lemma_join(opts.destination, walk[j].relative_path);
            lemma_apart_under(
                opts.source,
                opts.destination,
                source,
                target(opts, walk[j]),
            );
        }
    }
}

/// After any number of entries the run stands as it should.
proof fn lemma_walk(opts: OptsView, start: FileSystem, walk: Seq<ObjectView>, k: int)
    requires
        ordered_walk(opts, start, walk),
        open_way(opts, start, walk),
        0 <= k <= walk.len(),
    ensures
        kept(opts, start, walk, k, run_walk(opts, start, walk.take(k))),
    decreases k,
{
    if k > 0 {
        lemma_walk(opts, start, walk, k - 1);
        let before = run_walk(opts, start, walk.take(k - 1));
        let object = walk[k - 1];
        assert(walk.take(k).drop_last() =~= walk.take(k - 1));
        assert(walk.take(k).last() == object);
        assert(before == ready(opts, before.fs, before.reports));
        lemma_run_object(opts, before.fs, before.reports, object);
        if !admitted(opts, object) || object.file_type == EntryKind::Other {
            lemma_step_skip(opts, start, walk, k - 1, before);
        } else if object.file_type == EntryKind::Directory {
            lemma_step_directory(opts, start, walk, k - 1, before);
        } else {
            lemma_step_file(opts, start, walk, k - 1, before);
        }
    }
}

/// The destination root stands empty, or does not stand yet and can be
/// made.
pub open spec fn empty_destination(opts: OptsView, fs: FileSystem) -> bool {
    &&& forall|path: Components|
        fs.contains_key(path) && #[trigger] opts.destination.is_prefix_of(path) ==> path
            == opts.destination && fs[path] is Directory
    &&& can_create(fs, opts.destination)
}

/// Every entry that takes part is in place already.
pub open spec fn mirrored(opts: OptsView, fs: FileSystem, walk: Seq<ObjectView>) -> bool {
    forall|i: int|
        0 <= i < walk.len() && admitted(opts, #[trigger] walk[i]) ==> in_place(
            opts,
            fs,
            fs,
            walk[i],
        )
}

/// The line for an entry is among the lines for the walk.
proof fn lemma_reported(opts: OptsView, start: FileSystem, walk: Seq<ObjectView>, i: int)
    requires
        0 <= i < walk.len(),
        report_for(opts, start, walk[i]) is Some,
    ensures
        expected_reports(opts, start, walk).contains(report_for(opts, start, walk[i])->0),
    decreases walk.len(),
{
    let wanted = report_for(opts, start, walk[i])->0;
    let before = expected_reports(opts, start, walk.drop_last());
    let all = expected_reports(opts, start, walk);
    if i == walk.len() - 1 {
        assert(all == before.push(wanted));
        assert(all[before.len() as int] == wanted);
    } else {
        assert(walk.drop_last()[i] == walk[i]);
        lemma_reported(opts, start, walk.drop_last(), i);
        let n = choose|n: int| 0 <= n < before.len() && before[n] == wanted;
        assert(all[n] == wanted);
    }
}

/// Over a mirrored tree, with nothing to remove, a run changes nothing
/// and reports each file as existing.
proof fn lemma_settled_walk(opts: OptsView, fs: FileSystem, walk: Seq<ObjectView>, k: int)
    requires
        forall|i: int|
            0 <= i < walk.len() && (#[trigger] walk[i]).file_type == EntryKind::File ==> is_file(
                fs,
                walk[i].absolute_path,
            ),
        mirrored(opts, fs, walk),
        !opts.remove_copied_files,
        0 <= k <= walk.len(),
    ensures
        run_walk(opts, fs, walk.take(k)) == ready(
            opts,
            fs,
            expected_reports(opts, fs, walk.take(k)),
        ),
        forall|n: int|
            0 <= n < expected_reports(opts, fs, walk.take(k)).len() ==> (
            #[trigger] expected_reports(opts, fs, walk.take(k))[n]).kind == ReportKind::Exists,
    decreases k,
{
    if k > 0 {
        lemma_settled_walk(opts, fs, walk, k - 1);
        let before = run_walk(opts, fs, walk.take(k - 1));
        let object = walk[k - 1];
        assert(walk.take(k).drop_last() =~= walk.take(k - 1));
        assert(walk.take(k).last() == object);
        lemma_run_object(opts, fs, before.reports, object);
        if admitted(opts, object) {
            assert(in_place(opts, fs, fs, object));
        }
    }
}

/// A run into an empty destination brings every entry that takes part
/// into place: under the destination root, at the entry's relative path,
/// stands a directory for a directory, and for a file a file with the
/// fingerprint of the source. The run ends without an error.
pub proof fn law_mirrors_into_empty_destination(
    opts: OptsView,
    fs: FileSystem,
    walk: Seq<ObjectView>,
)
    requires
        ordered_walk(opts, fs, walk),
        opts.destination.len() > 0,
        apart(opts.source, opts.destination),
        tree_shaped(fs),
        empty_destination(opts, fs),
    ensures
        idle(run_walk(opts, fs, walk), opts),
        forall|i: int|
            0 <= i < walk.len() && admitted(opts, #[trigger] walk[i]) ==> in_place(
                opts,
                fs,
                run_walk(opts, fs, walk).fs,
                walk[i],
            ),
{
    assert forall|i: int| 0 <= i < walk.len() && admitted(opts, #[trigger] walk[i]) implies fits(
        fs,
        walk[i],
        target(opts, walk[i]),
    ) by {
        assert(listed(opts, fs, walk[i]));
        lemma_join(opts.destination, walk[i].relative_path);
        let destination = target(opts, walk[i]);
        if fs.contains_key(destination) {
            assert(opts.destination.is_prefix_of(destination));
            assert(walk[i].relative_path.len() == 0);
        }
    }
    lemma_walk(opts, fs, walk, walk.len() as int);
    assert(walk.take(walk.len() as int) =~= walk);
}

/// A second run over what the first has left copies nothing: the file
/// system stays as it is, and every line reported says that a file
/// exists, one for each file that takes part.
pub proof fn law_second_run_copies_nothing(opts: OptsView, fs: FileSystem, walk: Seq<ObjectView>)
    requires
        ordered_walk(opts, fs, walk),
        open_way(opts, fs, walk),
        !opts.remove_copied_files,
    ensures
        ({
            let first = run_walk(opts, fs, walk);
            let second = run_walk(opts, first.fs, walk);
            &&& idle(first, opts)
            &&& idle(second, opts)
            &&& second.fs == first.fs
            &&& forall|n: int|
                0 <= n < second.reports.len() ==> (#[trigger] second.reports[n]).kind
                    == ReportKind::Exists
            &&& forall|i: int|
                0 <= i < walk.len() && admitted(opts, #[trigger] walk[i]) && walk[i].file_type
                    == EntryKind::File ==> second.reports.contains(
                    ReportView { kind: ReportKind::Exists, relative_path: walk[i].relative_path },
                )
        }),
{
    let first = run_walk(opts, fs, walk);
    lemma_walk(opts, fs, walk, walk.len() as int);
    assert(walk.take(walk.len() as int) =~= walk);
    law_sources_after_run(opts, fs, walk);
    assert forall|i: int| 0 <= i < walk.len() implies !changed(
        fs,
        first.fs,
        (#[trigger] walk[i]).absolute_path,
    ) by {
        assert(listed(opts, fs, walk[i]));
        lemma_join(opts.source, walk[i].relative_path);
    }
    assert(mirrored(opts, first.fs, walk)) by {
        assert forall|i: int| 0 <= i < walk.len() && admitted(opts, #[trigger] walk[i]) implies in_place(
            opts,
            first.fs,
            first.fs,
            walk[i],
        ) by {
            assert(in_place(opts, fs, first.fs, walk[i]));
            assert(!changed(fs, first.fs, walk[i].absolute_path));
            assert(listed(opts, fs, walk[i]));
        }
    }
    assert forall|i: int|
        0 <= i < walk.len() && (#[trigger] walk[i]).file_type == EntryKind::File implies is_file(
        first.fs,
        walk[i].absolute_path,
    ) by {
        assert(listed(opts, fs, walk[i]));
        assert(!changed(fs, first.fs, walk[i].absolute_path));
    }
    lemma_settled_walk(opts, first.fs, walk, walk.len() as int);
    let second = run_walk(opts, first.fs, walk);
    assert forall|i: int|
        0 <= i < walk.len() && admitted(opts, #[trigger] walk[i]) && walk[i].file_type
            == EntryKind::File implies second.reports.contains(
        ReportView { kind: ReportKind::Exists, relative_path: walk[i].relative_path },
    ) by {
        assert(in_place(opts, first.fs, first.fs, walk[i]));
        lemma_reported(opts, first.fs, walk, i);
    }
}

/// Where the destination holds a file with another content than the
/// source, a run overwrites it: afterwards the destination has the
/// fingerprint of the source, and the file is reported as copied.
pub proof fn law_differing_file_is_overwritten(
    opts: OptsView,
    fs: FileSystem,
    walk: Seq<ObjectView>,
    i: int,
)
    requires
        ordered_walk(opts, fs, walk),
        open_way(opts, fs, walk),
        0 <= i < walk.len(),
        admitted(opts, walk[i]),
        walk[i].file_type == EntryKind::File,
        is_file(fs, target(opts, walk[i])),
        fs[target(opts, walk[i])] != fs[walk[i].absolute_path],
    ensures
        idle(run_walk(opts, fs, walk), opts),
        is_file(run_walk(opts, fs, walk).fs, target(opts, walk[i])),
        run_walk(opts, fs, walk).fs[target(opts, walk[i])] == fs[walk[i].absolute_path],
        run_walk(opts, fs, walk).reports.contains(
            ReportView { kind: ReportKind::Copied, relative_path: walk[i].relative_path },
        ),
{
    lemma_walk(opts, fs, walk, walk.len() as int);
    assert(walk.take(walk.len() as int) =~= walk);
    assert(listed(opts, fs, walk[i]));
    assert(in_place(opts, fs, run_walk(opts, fs, walk).fs, walk[i]));
    lemma_reported(opts, fs, walk, i);
}

/// With hidden entries left out, a run changes nothing at any place under
/// the destination root that has a hidden name on its way: what was not
/// there before is not there afterwards. With hidden entries taken in,
/// every entry of the walk is brought into place.
pub proof fn law_hidden_entries(opts: OptsView, fs: FileSystem, walk: Seq<ObjectView>)
    requires
        ordered_walk(opts, fs, walk),
        open_way(opts, fs, walk),
    ensures
        !opts.include_hidden_files ==> forall|path: Components|
            opts.destination.is_prefix_of(path) && has_hidden_component(
                path.skip(opts.destination.len() as int),
            ) ==> !(#[trigger] changed(fs, run_walk(opts, fs, walk).fs, path)),
        opts.include_hidden_files ==> forall|i: int|
            0 <= i < walk.len() ==> in_place(
                opts,
                fs,
                run_walk(opts, fs, walk).fs,
                #[trigger] walk[i],
            ),
{
    let run = run_walk(opts, fs, walk);
    lemma_walk(opts, fs, walk, walk.len() as int);
    assert(walk.take(walk.len() as int) =~= walk);
    if !opts.include_hidden_files {
        assert forall|path: Components|
            opts.destination.is_prefix_of(path) && has_hidden_component(
                path.skip(opts.destination.len() as int),
            ) implies !(#[trigger] changed(fs, run.fs, path)) by {
            if changed(fs, run.fs, path) {
                let j = choose|j: int|
                    0 <= j < walk.len() && touches(opts, #[trigger] walk[j], path);
                let object = walk[j];
                assert(listed(opts, fs, object));
                lemma_join(opts.destination, object.relative_path);
                lemma_join(opts.source, object.relative_path);
                lemma_apart_under(opts.source, opts.destination, object.absolute_path, path);
                let rest = path.skip(opts.destination.len() as int);
                if path == target(opts, object) {
                    assert(rest == object.relative_path);
                } else {
                    assert(path.len() <= opts.destination.len());
                    assert(rest.len() == 0);
                }
                assert(false);
            }
        }
    }
}

/// With removal wanted, the source of every file that takes part is gone
/// after the run. Without it, the run changes nothing at or under the
/// source root.
pub proof fn law_sources_after_run(opts: OptsView, fs: FileSystem, walk: Seq<ObjectView>)
    requires
        ordered_walk(opts, fs, walk),
        open_way(opts, fs, walk),
    ensures
        idle(run_walk(opts, fs, walk), opts),
        opts.remove_copied_files ==> forall|i: int|
            0 <= i < walk.len() && admitted(opts, #[trigger] walk[i]) && walk[i].file_type
                == EntryKind::File ==> !run_walk(opts, fs, walk).fs.contains_key(
                walk[i].absolute_path,
            ),
        !opts.remove_copied_files ==> forall|path: Components|
            opts.source.is_prefix_of(path) ==> !(#[trigger] changed(
                fs,
                run_walk(opts, fs, walk).fs,
                path,
            )),
{
    let run = run_walk(opts, fs, walk);
    lemma_walk(opts, fs, walk, walk.len() as int);
    assert(walk.take(walk.len() as int) =~= walk);
    if opts.remove_copied_files {
        assert forall|i: int|
            0 <= i < walk.len() && admitted(opts, #[trigger] walk[i]) && walk[i].file_type
                == EntryKind::File implies !run.fs.contains_key(walk[i].absolute_path) by {
            assert(source_removed(opts, run.fs, walk[i]));
        }
    } else {
        assert forall|path: Components| opts.source.is_prefix_of(path) implies !(#[trigger] changed(
            fs,
            run.fs,
            path,
        )) by {
            if changed(fs, run.fs, path) {
                let j = choose|j: int|
                    0 <= j < walk.len() && touches(opts, #[trigger] walk[j], path);
                assert(listed(opts, fs, walk[j]));
                lemma_join(opts.destination, walk[j].relative_path);
                lemma_apart_under(opts.source, opts.destination, path, target(opts, walk[j]));
                assert(false);
            }
        }
    }
}

/// Once a run has ended in an error, no further entry changes anything:
/// the run over the whole walk is the run up to the failed entry.
pub proof fn law_error_ends_the_run(opts: OptsView, fs: FileSystem, walk: Seq<ObjectView>, k: int)
    requires
        0 <= k <= walk.len(),
        run_walk(opts, fs, walk.take(k)).end is Err,
    ensures
        run_walk(opts, fs, walk) == run_walk(opts, fs, walk.take(k)),
    decreases walk.len() - k,
{
    if k < walk.len() {
        assert(walk.take(k + 1).drop_last() =~= walk.take(k));
        law_error_ends_the_run(opts, fs, walk, k + 1);
    } else {
        assert(walk.take(k) =~= walk);
    }
}

/// A copy that does not read back with the fingerprint of its source
/// ends the run, whatever the settings, with an error that names the
/// source and the destination of that copy.
pub proof fn law_mismatch_is_bad_copy(engine: EngineView, copied: Seq<u8>)
    requires
        engine.phase is Verify,
        copied != engine.phase->Verify_1,
    ensures
        resume_spec(engine, EventView::Fingerprint(copied)) is Err,
        resume_spec(engine, EventView::Fingerprint(copied))->Err_0 == SyncErrorView::BadCopy(
            BadCopyView {
                source: engine.phase->Verify_0.object.absolute_path,
                destination: engine.phase->Verify_0.destination,
            },
        ),
{
}

/// The engine leaves out exactly the entries that a walker, asking
/// [`crate::engine::Opts::admits`] at each level, would not have come to.
pub proof fn law_left_out_is_not_walked(opts: OptsView, object: ObjectView)
    ensures
        excluded(opts, object) <==> exists|i: int|
            0 <= i < object.relative_path.len() && !admits(
                opts,
                (i + 1) as nat,
                #[trigger] object.relative_path[i],
            ),
{
    let rel = object.relative_path;
    if excluded(opts, object) {
        let i = choose|i: int| 0 <= i < rel.len() && is_hidden_name(#[trigger] rel[i]);
        assert(!admits(opts, (i + 1) as nat, rel[i]));
    }
    if exists|i: int| 0 <= i < rel.len() && !admits(opts, (i + 1) as nat, #[trigger] rel[i]) {
        let i = choose|i: int|
            0 <= i < rel.len() && !admits(opts, (i + 1) as nat, #[trigger] rel[i]);
        assert(is_hidden_name(rel[i]));
    }
}

} // verus!
