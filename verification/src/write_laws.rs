//! What holds of the files of a store while memories are written and deleted.

use crate::path::PartView;
use crate::store::{exact, located, FileView};
use crate::writes::{
    create_all, create_one, deletion, removals, repeats, replacement, superseded, Deletion,
    PlacedView, Progress, StepView,
};
use vstd::prelude::*;

verus! {

/// The files after some steps, of which each is done in one go.
pub open spec fn run(files: Set<Seq<PartView>>, steps: Seq<StepView>) -> Set<Seq<PartView>>
    decreases steps.len(),
{
    if steps.len() == 0 {
        files
    } else {
        let before = run(files, steps.drop_last());
        match steps.last() {
            StepView::Write(p) => before.insert(p),
            StepView::Remove(p) => before.remove(p),
        }
    }
}

proof fn lemma_run_add(files: Set<Seq<PartView>>, a: Seq<StepView>, b: Seq<StepView>)
    ensures
        run(files, a + b) == run(run(files, a), b),
    decreases b.len(),
{
    if b.len() == 0 {
        assert(a + b =~= a);
    } else {
        lemma_run_add(files, a, b.drop_last());
        assert((a + b).drop_last() =~= a + b.drop_last());
        assert((a + b).last() == b.last());
    }
}

proof fn lemma_run_write(files: Set<Seq<PartView>>, path: Seq<PartView>)
    ensures
        run(files, seq![StepView::Write(path)]) == files.insert(path),
{
    let first = seq![StepView::Write(path)];
    assert(first.drop_last() =~= Seq::empty());
    assert(run(files, first.drop_last()) == files);
}

/// Steps that only remove, and never the file at `keep`.
pub open spec fn only_removes(steps: Seq<StepView>, keep: Seq<PartView>) -> bool {
    forall|i: int|
        0 <= i < steps.len() ==> (#[trigger] steps[i] matches StepView::Remove(p) && p != keep)
}

proof fn lemma_only_removes(files: Set<Seq<PartView>>, steps: Seq<StepView>, keep: Seq<PartView>)
    requires
        only_removes(steps, keep),
    ensures
        files.contains(keep) ==> run(files, steps).contains(keep),
        forall|p: Seq<PartView>| #[trigger]
            run(files, steps).contains(p) <==> files.contains(p) && !steps.contains(
                StepView::Remove(p),
            ),
    decreases steps.len(),
{
    if steps.len() > 0 {
        let t = steps.drop_last();
        assert forall|i: int| 0 <= i < t.len() implies (#[trigger] t[i] matches StepView::Remove(p)
            && p != keep) by {
            assert(t[i] == steps[i]);
        }
        lemma_only_removes(files, t, keep);
        let last = steps[steps.len() - 1];
        assert forall|p: Seq<PartView>| #[trigger]
            run(files, steps).contains(p) <==> files.contains(p) && !steps.contains(
                StepView::Remove(p),
            ) by {
            let gone = StepView::Remove(p);
            if t.contains(gone) {
                let i = choose|i: int| 0 <= i < t.len() && t[i] == gone;
                assert(steps[i] == gone);
            }
            if steps.contains(gone) {
                let i = choose|i: int| 0 <= i < steps.len() && steps[i] == gone;
                if i < t.len() {
                    assert(t[i] == gone);
                }
            }
            assert(steps.contains(last));
            assert(run(files, t).contains(p) <==> files.contains(p) && !t.contains(gone));
        }
    }
}

proof fn lemma_removals(old: Seq<FileView>, path: Seq<PartView>)
    ensures
        only_removes(removals(old, path), path),
        forall|p: Seq<PartView>| #[trigger]
            removals(old, path).contains(StepView::Remove(p)) <==> p != path && exists|i: int|
                0 <= i < old.len() && (#[trigger] old[i]).path == p,
{
    let other = |f: FileView| f.path != path;
    let gone = |f: FileView| StepView::Remove(f.path);
    let kept = old.filter(other);
    let steps = removals(old, path);
    assert forall|i: int| 0 <= i < steps.len() implies (#[trigger] steps[i] matches StepView::Remove(
        p,
    ) && p != path) by {
        assert(kept.contains(kept[i]));
        crate::seqs::lemma_filter_contains(old, other, kept[i]);
    }
    assert forall|p: Seq<PartView>| #[trigger]
        steps.contains(StepView::Remove(p)) <==> p != path && exists|i: int|
            0 <= i < old.len() && (#[trigger] old[i]).path == p by {
        if steps.contains(StepView::Remove(p)) {
            let i = choose|i: int| 0 <= i < steps.len() && steps[i] == StepView::Remove(p);
            assert(kept.contains(kept[i]));
            crate::seqs::lemma_filter_contains(old, other, kept[i]);
            let j = choose|j: int| 0 <= j < old.len() && old[j] == kept[i];
            assert(old[j].path == p);
        }
        if p != path && exists|i: int| 0 <= i < old.len() && (#[trigger] old[i]).path == p {
            let i = choose|i: int| 0 <= i < old.len() && (#[trigger] old[i]).path == p;
            assert(old.contains(old[i]));
            crate::seqs::lemma_filter_contains(old, other, old[i]);
            let j = choose|j: int| 0 <= j < kept.len() && kept[j] == old[i];
            assert(steps[j] == StepView::Remove(p));
        }
    }
}

/// However far the replacement of a memory's files gets, the memory has a file:
/// before the first step its old ones, and from then on the new one.
pub proof fn a_memory_is_never_without_a_file(
    files: Set<Seq<PartView>>,
    path: Seq<PartView>,
    old: Seq<FileView>,
    done: int,
)
    requires
        0 <= done <= replacement(path, old).len(),
    ensures
        done == 0 ==> run(files, replacement(path, old).take(done)) == files,
        done > 0 ==> run(files, replacement(path, old).take(done)).contains(path),
{
    let steps = replacement(path, old);
    let first = seq![StepView::Write(path)];
    if done == 0 {
        assert(steps.take(0) =~= Seq::empty());
    } else {
        let rest = removals(old, path).take(done - 1);
        assert(steps.take(done) =~= first + rest);
        lemma_run_add(files, first, rest);
        lemma_run_write(files, path);
        lemma_removals(old, path);
        assert(only_removes(rest, path)) by {
            assert forall|i: int| 0 <= i < rest.len() implies (
            #[trigger] rest[i] matches StepView::Remove(p) && p != path) by {
                assert(rest[i] == removals(old, path)[i]);
            }
        }
        lemma_only_removes(files.insert(path), rest, path);
    }
}

/// Replacing a memory's files leaves the new one of them and nothing else of
/// them, and touches no other file.
pub proof fn replacing_leaves_one_file(
    files: Set<Seq<PartView>>,
    path: Seq<PartView>,
    old: Seq<FileView>,
    p: Seq<PartView>,
)
    ensures
        run(files, replacement(path, old)).contains(p) <==> p == path || (files.contains(p)
            && !exists|i: int| 0 <= i < old.len() && (#[trigger] old[i]).path == p),
{
    let first = seq![StepView::Write(path)];
    let rest = removals(old, path);
    lemma_run_add(files, first, rest);
    lemma_run_write(files, path);
    lemma_removals(old, path);
    lemma_only_removes(files.insert(path), rest, path);
    assert(run(files, replacement(path, old)).contains(p) <==> files.insert(path).contains(p)
        && !rest.contains(StepView::Remove(p)));
    assert(rest.contains(StepView::Remove(p)) <==> p != path && exists|i: int|
        0 <= i < old.len() && (#[trigger] old[i]).path == p);
}

/// What is left of files when some are removed.
pub open spec fn without(files: Seq<FileView>, removed: Seq<FileView>) -> Seq<FileView> {
    files.filter(|f: FileView| !removed.contains(f))
}

proof fn lemma_without_exact(files: Seq<FileView>, id: Seq<char>)
    ensures
        exact(without(files, exact(files, id)), id).len() == 0,
{
    let same = |f: FileView| f.id == id;
    let found = exact(files, id);
    let keep = |f: FileView| !found.contains(f);
    let rest = without(files, found);
    if exact(rest, id).len() > 0 {
        let f = exact(rest, id)[0];
        assert(exact(rest, id).contains(f));
        crate::seqs::lemma_filter_contains(rest, same, f);
        crate::seqs::lemma_filter_contains(files, keep, f);
        crate::seqs::lemma_filter_contains(files, same, f);
    }
}

/// Deleting a memory by its full id removes every file that its directory has
/// for it, the leftovers of an earlier update included.
pub proof fn a_deleted_memory_leaves_no_file(
    shared: Seq<FileView>,
    personal: Seq<FileView>,
    id: Seq<char>,
    found: Seq<FileView>,
    k: int,
)
    requires
        deletion(shared, personal, id) == Deletion::Files(found),
        0 <= k < found.len(),
        found[k].id == id,
    ensures
        located(shared, id) == Some(found) ==> exact(without(shared, found), id).len() == 0,
        located(shared, id) != Some(found) ==> exact(without(personal, found), id).len() == 0
            && exact(shared, id).len() == 0,
{
    let files = if located(shared, id) == Some(found) {
        shared
    } else {
        personal
    };
    crate::store_laws::located_files_are_of_one_memory(files, id, found, k, k);
    let i = choose|i: int| 0 <= i < files.len() && files[i] == found[k];
    crate::store_laws::an_exact_id_beats_every_prefix(files, id, i);
    assert(found == exact(files, id));
    lemma_without_exact(files, id);
    if located(shared, id) != Some(found) {
        let same = |f: FileView| f.id == id;
        if exact(shared, id).len() > 0 {
            let f = exact(shared, id)[0];
            assert(exact(shared, id).contains(f));
            crate::seqs::lemma_filter_contains(shared, same, f);
            let j = choose|j: int| 0 <= j < shared.len() && shared[j] == f;
            crate::store_laws::an_exact_id_beats_every_prefix(shared, id, j);
            assert(false);
        }
    }
}

/// Deleting a memory removes only files of one memory, whose id begins with the
/// given text.
pub proof fn deleting_spares_the_other_memories(
    shared: Seq<FileView>,
    personal: Seq<FileView>,
    id: Seq<char>,
    found: Seq<FileView>,
    i: int,
    j: int,
)
    requires
        deletion(shared, personal, id) == Deletion::Files(found),
        0 <= i < found.len(),
        0 <= j < found.len(),
    ensures
        found[i].id == found[j].id,
        id.is_prefix_of(found[i].id),
        shared.contains(found[i]) || personal.contains(found[i]),
{
    let files = if located(shared, id) == Some(found) {
        shared
    } else {
        personal
    };
    crate::store_laws::located_files_are_of_one_memory(files, id, found, i, j);
}

// ---------------------------------------------------------------------------
// Batches
// ---------------------------------------------------------------------------

/// The paths of files.
pub open spec fn paths_of(files: Seq<PlacedView>) -> Set<Seq<PartView>> {
    Set::new(
        |p: Seq<PartView>| exists|i: int| 0 <= i < files.len() && (#[trigger] files[i]).path == p,
    )
}

/// The steps that creating one more memory adds.
pub open spec fn added_steps(p: Progress, new: PlacedView, known: bool) -> Seq<StepView> {
    let written = p.files.filter(|f: PlacedView| f.path != new.path).push(new);
    if known {
        seq![StepView::Write(new.path)] + written.filter(
            |f: PlacedView| superseded(f, new),
        ).map_values(|f: PlacedView| StepView::Remove(f.path))
    } else {
        seq![StepView::Write(new.path)]
    }
}

pub(crate) proof fn lemma_added(p: Progress, new: PlacedView, known: bool)
    ensures
        create_one(p, new, known).steps == p.steps + added_steps(p, new, known),
        added_steps(p, new, known).len() > 0,
        added_steps(p, new, known)[0] == StepView::Write(new.path),
        only_removes(added_steps(p, new, known).drop_first(), new.path),
{
    let stale = |f: PlacedView| superseded(f, new);
    let written = p.files.filter(|f: PlacedView| f.path != new.path).push(new);
    let removed = written.filter(stale);
    let steps = added_steps(p, new, known);
    let rest = steps.drop_first();
    assert(create_one(p, new, known).steps =~= p.steps + steps);
    assert forall|i: int| 0 <= i < rest.len() implies (#[trigger] rest[i] matches StepView::Remove(
        q,
    ) && q != new.path) by {
        assert(removed.contains(removed[i]));
        crate::seqs::lemma_filter_contains(written, stale, removed[i]);
        assert(rest[i] == StepView::Remove(removed[i].path));
    }
}

/// However far the creation of one memory of a batch gets, the memory has the
/// file that was just written, and every file of another memory stays.
pub proof fn creating_never_leaves_a_memory_without_a_file(
    p: Progress,
    new: PlacedView,
    known: bool,
    done: int,
    f: PlacedView,
)
    requires
        0 <= done <= added_steps(p, new, known).len(),
        p.files.contains(f),
        forall|g: PlacedView| #[trigger]
            p.files.contains(g) && g.path == f.path ==> g.id == f.id,
    ensures
        done > 0 ==> run(paths_of(p.files), added_steps(p, new, known).take(done)).contains(
            new.path,
        ),
        f.id != new.id ==> run(paths_of(p.files), added_steps(p, new, known).take(done)).contains(
            f.path,
        ),
{
    let steps = added_steps(p, new, known);
    let start = paths_of(p.files);
    lemma_added(p, new, known);
    let k = choose|k: int| 0 <= k < p.files.len() && p.files[k] == f;
    assert(p.files[k].path == f.path);
    assert(start.contains(f.path));
    if done == 0 {
        assert(steps.take(0) =~= Seq::empty());
    } else {
        let first = seq![StepView::Write(new.path)];
        let rest = steps.drop_first().take(done - 1);
        assert(steps.take(done) =~= first + rest);
        lemma_run_add(start, first, rest);
        lemma_run_write(start, new.path);
        assert(only_removes(rest, new.path)) by {
            assert forall|i: int| 0 <= i < rest.len() implies (
            #[trigger] rest[i] matches StepView::Remove(q) && q != new.path) by {
                assert(rest[i] == steps.drop_first()[i]);
            }
        }
        lemma_only_removes(start.insert(new.path), rest, new.path);
        if f.id != new.id && rest.contains(StepView::Remove(f.path)) {
            let i = choose|i: int| 0 <= i < rest.len() && rest[i] == StepView::Remove(f.path);
            let stale = |g: PlacedView| superseded(g, new);
            let elsewhere = |g: PlacedView| g.path != new.path;
            let others = p.files.filter(elsewhere);
            let written = others.push(new);
            let removed = written.filter(stale);
            assert(rest[i] == StepView::Remove(removed[i].path));
            let g = removed[i];
            assert(removed.contains(g));
            crate::seqs::lemma_filter_contains(written, stale, g);
            let j = choose|j: int| 0 <= j < written.len() && written[j] == g;
            assert(j < others.len());
            assert(others.contains(others[j]));
            crate::seqs::lemma_filter_contains(p.files, elsewhere, g);
            assert(p.files.contains(g));
        }
    }
}

pub(crate) proof fn lemma_create_one_files(p: Progress, new: PlacedView, known: bool, f: PlacedView)
    ensures
        create_one(p, new, known).files.contains(f) <==> f == new || (p.files.contains(f) && f.path
            != new.path && !(known && f.id == new.id)),
{
    let elsewhere = |g: PlacedView| g.path != new.path;
    let fresh = |g: PlacedView| !superseded(g, new);
    let others = p.files.filter(elsewhere);
    let written = others.push(new);
    crate::seqs::lemma_filter_contains(p.files, elsewhere, f);
    crate::seqs::lemma_filter_contains(written, fresh, f);
    assert(written.contains(f) <==> others.contains(f) || f == new) by {
        if others.contains(f) {
            let i = choose|i: int| 0 <= i < others.len() && others[i] == f;
            assert(written[i] == f);
        }
        assert(written[others.len() as int] == new);
        if written.contains(f) && f != new {
            let i = choose|i: int| 0 <= i < written.len() && written[i] == f;
            assert(others[i] == f);
        }
    }
}

/// Whether no two files of different memories have one path.
pub open spec fn paths_tell_ids(new: Seq<PlacedView>) -> bool {
    forall|i: int, j: int|
        0 <= i < new.len() && 0 <= j < new.len() && (#[trigger] new[i]).path == (
        #[trigger] new[j]).path ==> new[i].id == new[j].id
}

/// Whether the file at `k` is the last one of its memory.
pub open spec fn is_last_of_id(new: Seq<PlacedView>, k: int) -> bool {
    &&& 0 <= k < new.len()
    &&& forall|i: int| k < i < new.len() ==> (#[trigger] new[i]).id != new[k].id
}

/// A batch of no memories takes no step and leaves every file.
pub proof fn an_empty_batch_changes_nothing(
    files: Seq<PlacedView>,
    known: spec_fn(Seq<char>) -> bool,
)
    ensures
        create_all(files, Seq::empty(), known).steps == Seq::<StepView>::empty(),
        create_all(files, Seq::empty(), known).files == files,
{
}

/// A batch leaves the files of the memories that it does not write, but for one
/// whose path it writes to.
pub proof fn a_batch_spares_the_other_memories(
    files: Seq<PlacedView>,
    new: Seq<PlacedView>,
    known: spec_fn(Seq<char>) -> bool,
    f: PlacedView,
)
    requires
        forall|i: int|
            0 <= i < new.len() ==> (#[trigger] new[i]).id != f.id && new[i].path != f.path,
    ensures
        create_all(files, new, known).files.contains(f) <==> files.contains(f),
    decreases new.len(),
{
    if new.len() > 0 {
        let before = new.drop_last();
        let p = create_all(files, before, known);
        assert forall|i: int| 0 <= i < before.len() implies (#[trigger] before[i]).id != f.id
            && before[i].path != f.path by {
            assert(before[i] == new[i]);
        }
        a_batch_spares_the_other_memories(files, before, known, f);
        assert(new.last() == new[new.len() - 1]);
        lemma_create_one_files(p, new.last(), known(new.last().id) || repeats(new), f);
    }
}

proof fn lemma_no_new_file(
    files: Seq<PlacedView>,
    new: Seq<PlacedView>,
    known: spec_fn(Seq<char>) -> bool,
    f: PlacedView,
)
    requires
        !files.contains(f),
        forall|i: int| 0 <= i < new.len() ==> (#[trigger] new[i]).id != f.id,
    ensures
        !create_all(files, new, known).files.contains(f),
    decreases new.len(),
{
    if new.len() > 0 {
        let before = new.drop_last();
        let p = create_all(files, before, known);
        assert forall|i: int| 0 <= i < before.len() implies (#[trigger] before[i]).id != f.id by {
            assert(before[i] == new[i]);
        }
        lemma_no_new_file(files, before, known, f);
        assert(new.last() == new[new.len() - 1]);
        lemma_create_one_files(p, new.last(), known(new.last().id) || repeats(new), f);
    }
}

/// After a batch, each id of it has exactly one file: the one that was written
/// for it last. A file that the id had before goes, given that the store knew
/// the id.
pub proof fn a_batch_leaves_one_file_for_each_id(
    files: Seq<PlacedView>,
    new: Seq<PlacedView>,
    known: spec_fn(Seq<char>) -> bool,
    last: int,
    f: PlacedView,
)
    requires
        is_last_of_id(new, last),
        paths_tell_ids(new),
        known(new[last].id) || forall|g: PlacedView| #[trigger]
            files.contains(g) ==> g.id != new[last].id,
    ensures
        f.id == new[last].id ==> (create_all(files, new, known).files.contains(f) <==> f
            == new[last]),
    decreases new.len(),
{
    let before = new.drop_last();
    let top = new.last();
    let p = create_all(files, before, known);
    let k = known(top.id) || repeats(new);
    lemma_create_one_files(p, top, k, f);
    assert(top == new[new.len() - 1]);
    if last < new.len() - 1 {
        assert(before[last] == new[last]);
        assert forall|i: int| last < i < before.len() implies (#[trigger] before[i]).id
            != before[last].id by {
            assert(before[i] == new[i]);
        }
        assert forall|i: int, j: int|
            0 <= i < before.len() && 0 <= j < before.len() && (#[trigger] before[i]).path == (
            #[trigger] before[j]).path implies before[i].id == before[j].id by {
            assert(before[i] == new[i] && before[j] == new[j]);
        }
        a_batch_leaves_one_file_for_each_id(files, before, known, last, f);
        assert(new[last].path == new[new.len() - 1].path ==> new[last].id == new[new.len() - 1].id);
    } else if !k && f.id == top.id {
        assert forall|i: int| 0 <= i < before.len() implies (#[trigger] before[i]).id != f.id by {
            assert(before[i] == new[i]);
            assert(new[i].id != top.id);
        }
        lemma_no_new_file(files, before, known, f);
    }
}

/// The steps of a batch lead from the files before it to the files after it.
pub proof fn the_steps_of_a_batch_make_its_files(
    files: Seq<PlacedView>,
    new: Seq<PlacedView>,
    known: spec_fn(Seq<char>) -> bool,
)
    requires
        paths_tell_ids(files),
    ensures
        run(paths_of(files), create_all(files, new, known).steps) == paths_of(
            create_all(files, new, known).files,
        ),
        forall|f: PlacedView, g: PlacedView| #[trigger]
            create_all(files, new, known).files.contains(f) && #[trigger] create_all(
                files,
                new,
                known,
            ).files.contains(g) && f.path == g.path ==> f.id == g.id,
    decreases new.len(),
{
    let all = create_all(files, new, known);
    if new.len() == 0 {
        assert forall|f: PlacedView, g: PlacedView| #[trigger]
            all.files.contains(f) && #[trigger] all.files.contains(g) && f.path
                == g.path implies f.id == g.id by {
            let i = choose|i: int| 0 <= i < files.len() && files[i] == f;
            let j = choose|j: int| 0 <= j < files.len() && files[j] == g;
            assert(files[i].path == files[j].path);
        }
    } else {
        let before = new.drop_last();
        let top = new.last();
        let p = create_all(files, before, known);
        let k = known(top.id) || repeats(new);
        the_steps_of_a_batch_make_its_files(files, before, known);
        assert forall|f: PlacedView, g: PlacedView| #[trigger]
            all.files.contains(f) && #[trigger] all.files.contains(g) && f.path
                == g.path implies f.id == g.id by {
            lemma_create_one_files(p, top, k, f);
            lemma_create_one_files(p, top, k, g);
        }
        lemma_added(p, top, k);
        let steps = added_steps(p, top, k);
        let first = seq![StepView::Write(top.path)];
        let rest = steps.drop_first();
        let start = paths_of(files);
        lemma_run_add(start, p.steps, steps);
        assert(steps =~= first + rest);
        lemma_run_add(paths_of(p.files), first, rest);
        lemma_run_write(paths_of(p.files), top.path);
        lemma_only_removes(paths_of(p.files).insert(top.path), rest, top.path);
        let after = run(start, all.steps);
        assert forall|q: Seq<PartView>| #[trigger]
            after.contains(q) <==> paths_of(all.files).contains(q) by {
            assert(after.contains(q) <==> paths_of(p.files).insert(top.path).contains(q)
                && !rest.contains(StepView::Remove(q)));
            lemma_rest(p, top, k, q);
            if paths_of(all.files).contains(q) {
                let i = choose|i: int| 0 <= i < all.files.len() && (#[trigger] all.files[i]).path == q;
                let f = all.files[i];
                assert(all.files.contains(f));
                lemma_create_one_files(p, top, k, f);
                if f != top {
                    let j = choose|j: int| 0 <= j < p.files.len() && p.files[j] == f;
                    assert(p.files[j].path == q);
                    if rest.contains(StepView::Remove(q)) {
                        let g = choose|g: PlacedView| p.files.contains(g) && g.path == q && g.id == top.id;
                        assert(p.files.contains(f) && p.files.contains(g));
                    }
                }
            }
            if after.contains(q) {
                if q == top.path {
                    lemma_create_one_files(p, top, k, top);
                    let j = choose|j: int| 0 <= j < all.files.len() && all.files[j] == top;
                    assert(all.files[j].path == q);
                } else {
                    let i = choose|i: int| 0 <= i < p.files.len() && (#[trigger] p.files[i]).path == q;
                    let f = p.files[i];
                    assert(p.files.contains(f));
                    lemma_create_one_files(p, top, k, f);
                    let j = choose|j: int| 0 <= j < all.files.len() && all.files[j] == f;
                    assert(all.files[j].path == q);
                }
            }
        }
        assert(after =~= paths_of(all.files));
    }
}

/// Which removals creating one more memory adds.
pub(crate) proof fn lemma_rest(p: Progress, new: PlacedView, known: bool, q: Seq<PartView>)
    ensures
        added_steps(p, new, known).drop_first().contains(StepView::Remove(q)) <==> known && q
            != new.path && exists|g: PlacedView|
            p.files.contains(g) && g.path == q && g.id == new.id,
{
    let stale = |g: PlacedView| superseded(g, new);
    let elsewhere = |g: PlacedView| g.path != new.path;
    let others = p.files.filter(elsewhere);
    let written = others.push(new);
    let removed = written.filter(stale);
    let rest = added_steps(p, new, known).drop_first();
    let gone = StepView::Remove(q);
    if rest.contains(gone) {
        let i = choose|i: int| 0 <= i < rest.len() && rest[i] == gone;
        assert(known);
        assert(rest[i] == StepView::Remove(removed[i].path));
        let g = removed[i];
        assert(removed.contains(g));
        crate::seqs::lemma_filter_contains(written, stale, g);
        let j = choose|j: int| 0 <= j < written.len() && written[j] == g;
        assert(others.contains(others[j]));
        crate::seqs::lemma_filter_contains(p.files, elsewhere, g);
        assert(p.files.contains(g) && g.path == q && g.id == new.id);
    }
    if known && q != new.path && exists|g: PlacedView|
        p.files.contains(g) && g.path == q && g.id == new.id {
        let g = choose|g: PlacedView| p.files.contains(g) && g.path == q && g.id == new.id;
        crate::seqs::lemma_filter_contains(p.files, elsewhere, g);
        let i = choose|i: int| 0 <= i < others.len() && others[i] == g;
        assert(written[i] == g);
        assert(written.contains(g));
        crate::seqs::lemma_filter_contains(written, stale, g);
        let j = choose|j: int| 0 <= j < removed.len() && removed[j] == g;
        assert(rest[j] == gone);
    }
}

} // verus!
