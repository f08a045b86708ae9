//! What a read of a store finds after a write.

use crate::memory::Visibility;
use crate::path::PartView;
use crate::store::{
    age_and_place, exact, hits, is_newest, located, lookup, lookup_both, newer, FileView, Lookup,
};
use crate::store_laws::{
    an_exact_id_beats_every_prefix, located_files_are_of_one_memory, some_file_is_the_newest,
};
use crate::write_laws::{
    a_batch_leaves_one_file_for_each_id, is_last_of_id, paths_tell_ids, without,
};
use crate::writes::{
    create_all, creation, deletion, known_ids, placing, removals, replacement, Deletion, PlacedView,
    StepView,
};
use vstd::prelude::*;

verus! {

/// Whether `after` lists, in whatever order, what a directory holds after some
/// steps, which may have written one file there.
pub open spec fn relisted(
    before: Seq<FileView>,
    steps: Seq<StepView>,
    written: Option<FileView>,
    after: Seq<FileView>,
) -> bool {
    forall|f: FileView| #[trigger]
        after.contains(f) <==> written == Some(f) || (before.contains(f) && !steps.contains(
            StepView::Write(f.path),
        ) && !steps.contains(StepView::Remove(f.path)))
}

/// The file that is written to a directory, where it is that directory.
pub open spec fn written_to(dir: Visibility, visibility: Visibility, new: FileView) -> Option<
    FileView,
> {
    if dir == visibility {
        Some(new)
    } else {
        None
    }
}

/// The files of the directory that memories of a visibility lie in.
pub open spec fn dir_of(
    shared: Seq<FileView>,
    personal: Seq<FileView>,
    visibility: Visibility,
) -> Seq<FileView> {
    match visibility {
        Visibility::Shared => shared,
        Visibility::Personal => personal,
    }
}

/// Whether every other file with the id of a new one, at another path, is older.
pub open spec fn others_are_older(files: Seq<FileView>, new: FileView) -> bool {
    forall|f: FileView| #[trigger]
        files.contains(f) && f.id == new.id ==> f.path == new.path || newer(
            age_and_place(new),
            age_and_place(f),
        )
}

/// Whether a file is the only one with its id, or newer than every other one.
pub open spec fn is_current(files: Seq<FileView>, new: FileView) -> bool {
    &&& files.contains(new)
    &&& forall|f: FileView| #[trigger]
        files.contains(f) && f.id == new.id ==> f == new || newer(
            age_and_place(new),
            age_and_place(f),
        )
}

/// Whether the ids of files that begin with `id` are that id.
pub open spec fn no_longer_id(files: Seq<FileView>, id: Seq<char>) -> bool {
    forall|f: FileView| #[trigger] files.contains(f) && id.is_prefix_of(f.id) ==> f.id == id
}

/// Whether no file has the id.
pub open spec fn no_file(files: Seq<FileView>, id: Seq<char>) -> bool {
    forall|f: FileView| #[trigger] files.contains(f) ==> f.id != id
}

proof fn lemma_newest_is_found(files: Seq<FileView>, new: FileView)
    requires
        is_current(files, new),
    ensures
        lookup(files, new.id) == Lookup::Found(new.path),
{
    let id = new.id;
    let same = |f: FileView| f.id == id;
    let i = choose|i: int| 0 <= i < files.len() && files[i] == new;
    an_exact_id_beats_every_prefix(files, id, i);
    let found = exact(files, id);
    let j = choose|j: int| 0 <= j < found.len() && found[j] == new;
    let k = some_file_is_the_newest(found);
    let best = choose|k: int| is_newest(found, k);
    assert(is_newest(found, best));
    assert(found.contains(found[best]));
    crate::seqs::lemma_filter_contains(files, same, found[best]);
    if found[best] != new {
        assert(newer(age_and_place(found[j]), age_and_place(found[best])));
    }
}

proof fn lemma_nothing_is_found(files: Seq<FileView>, id: Seq<char>)
    requires
        no_file(files, id),
        no_longer_id(files, id),
    ensures
        lookup(files, id) == Lookup::Missing,
{
    let fits = |f: FileView| id.is_prefix_of(f.id);
    let found = hits(files, id);
    if found.len() > 0 {
        assert(found.contains(found[0]));
        crate::seqs::lemma_filter_contains(files, fits, found[0]);
    }
    assert(found =~= Seq::empty());
    assert(crate::store::ids_of(found) =~= Set::empty());
}

proof fn lemma_removal_of(old: Seq<FileView>, path: Seq<PartView>, f: FileView)
    requires
        old.contains(f),
        f.path != path,
    ensures
        replacement(path, old).contains(StepView::Remove(f.path)),
{
    let other = |f: FileView| f.path != path;
    let kept = old.filter(other);
    crate::seqs::lemma_filter_contains(old, other, f);
    let k = choose|k: int| 0 <= k < kept.len() && kept[k] == f;
    let steps = replacement(path, old);
    assert(removals(old, path)[k] == StepView::Remove(f.path));
    assert(steps[k + 1] == StepView::Remove(f.path));
}

proof fn lemma_read_back(
    shared: Seq<FileView>,
    personal: Seq<FileView>,
    visibility: Visibility,
    new: FileView,
)
    requires
        is_current(dir_of(shared, personal, visibility), new),
        visibility is Personal ==> no_file(shared, new.id) && no_longer_id(shared, new.id),
    ensures
        lookup_both(shared, personal, new.id) == Lookup::Found(new.path),
{
    lemma_newest_is_found(dir_of(shared, personal, visibility), new);
    if visibility is Personal {
        lemma_nothing_is_found(shared, new.id);
    }
}

/// A memory that was created is found at its new file, whether its id was known
/// before or not. A file of an id that the index did not know stays; it must be
/// older, and must not lie in the directory that is read first. A personal
/// memory is found where no shared one has an id that begins with its id.
pub proof fn a_created_memory_is_read_back(
    shared: Seq<FileView>,
    personal: Seq<FileView>,
    visibility: Visibility,
    new: FileView,
    known: bool,
    shared_after: Seq<FileView>,
    personal_after: Seq<FileView>,
)
    requires
        relisted(
            shared,
            creation(shared, personal, new.id, new.path, known),
            written_to(Visibility::Shared, visibility, new),
            shared_after,
        ),
        relisted(
            personal,
            creation(shared, personal, new.id, new.path, known),
            written_to(Visibility::Personal, visibility, new),
            personal_after,
        ),
        visibility is Personal ==> no_longer_id(shared, new.id) && (known || no_file(
            shared,
            new.id,
        )),
        !known ==> others_are_older(dir_of(shared, personal, visibility), new),
    ensures
        lookup_both(shared_after, personal_after, new.id) == Lookup::Found(new.path),
{
    let id = new.id;
    let same = |f: FileView| f.id == id;
    let steps = creation(shared, personal, id, new.path, known);
    let old = exact(shared, id) + exact(personal, id);
    assert(steps[0] == StepView::Write(new.path));
    assert(steps.contains(StepView::Write(new.path)));
    assert forall|f: FileView|
        #![trigger shared.contains(f)]
        #![trigger personal.contains(f)]
        known && f.id == id && f.path != new.path && (shared.contains(f) || personal.contains(
            f,
        )) implies steps.contains(StepView::Remove(f.path)) by {
        crate::seqs::lemma_filter_contains(shared, same, f);
        crate::seqs::lemma_filter_contains(personal, same, f);
        if exact(shared, id).contains(f) {
            let k = choose|k: int| 0 <= k < exact(shared, id).len() && exact(shared, id)[k] == f;
            assert(old[k] == f);
        } else {
            let k = choose|k: int| 0 <= k < exact(personal, id).len() && exact(personal, id)[k] == f;
            assert(old[exact(shared, id).len() + k] == f);
        }
        lemma_removal_of(old, new.path, f);
    }
    let before = dir_of(shared, personal, visibility);
    let after = dir_of(shared_after, personal_after, visibility);
    assert(is_current(after, new)) by {
        assert(after.contains(new));
        assert forall|f: FileView| #[trigger] after.contains(f) && f.id == id implies f == new
            || newer(age_and_place(new), age_and_place(f)) by {
            assert(f != new ==> before.contains(f));
        }
    }
    if visibility is Personal {
        assert forall|f: FileView| #[trigger] shared_after.contains(f) implies f.id != id by {
            assert(shared.contains(f));
        }
        assert forall|f: FileView| #[trigger] shared_after.contains(f) && id.is_prefix_of(
            f.id,
        ) implies f.id == id by {
            assert(shared.contains(f));
        }
    }
    lemma_read_back(shared_after, personal_after, visibility, new);
}

/// A memory that was changed is found at its new file, also where it moved to
/// the other directory, by whichever beginning of its id it was asked for. It
/// had files only in the directory that it was in, and a memory that becomes
/// personal is found where no shared one has an id that begins with its id.
pub proof fn an_updated_memory_is_read_back(
    shared: Seq<FileView>,
    personal: Seq<FileView>,
    asked: Seq<char>,
    old_visibility: Visibility,
    old: Seq<FileView>,
    visibility: Visibility,
    new: FileView,
    shared_after: Seq<FileView>,
    personal_after: Seq<FileView>,
)
    requires
        located(dir_of(shared, personal, old_visibility), asked) == Some(old),
        old.len() > 0,
        old[0].id == new.id,
        no_file(dir_of(personal, shared, old_visibility), new.id),
        relisted(
            shared,
            replacement(new.path, old),
            written_to(Visibility::Shared, visibility, new),
            shared_after,
        ),
        relisted(
            personal,
            replacement(new.path, old),
            written_to(Visibility::Personal, visibility, new),
            personal_after,
        ),
        visibility is Personal ==> no_longer_id(shared, new.id),
    ensures
        lookup_both(shared_after, personal_after, new.id) == Lookup::Found(new.path),
{
    let id = new.id;
    let dir = dir_of(shared, personal, old_visibility);
    let steps = replacement(new.path, old);
    let fits = |f: FileView| asked.is_prefix_of(f.id);
    let same = |f: FileView| f.id == asked;
    assert(steps[0] == StepView::Write(new.path));
    assert(steps.contains(StepView::Write(new.path)));
    located_files_are_of_one_memory(dir, asked, old, 0, 0);
    assert forall|f: FileView| #[trigger] dir.contains(f) && f.id == id implies f.path == new.path
        || steps.contains(StepView::Remove(f.path)) by {
        crate::seqs::lemma_filter_contains(dir, fits, f);
        let first = hits(dir, asked);
        if crate::store::ids_of(first).len() > 1 {
            assert(old == exact(first, asked));
            assert(old.contains(old[0]));
            crate::seqs::lemma_filter_contains(first, same, old[0]);
            crate::seqs::lemma_filter_contains(first, same, f);
        }
        assert(old.contains(f));
        if f.path != new.path {
            lemma_removal_of(old, new.path, f);
        }
    }
    let before = dir_of(shared, personal, visibility);
    let after = dir_of(shared_after, personal_after, visibility);
    assert(is_current(after, new)) by {
        assert(after.contains(new));
        assert forall|f: FileView| #[trigger] after.contains(f) && f.id == id implies f == new
            || newer(age_and_place(new), age_and_place(f)) by {
            assert(f != new ==> before.contains(f));
        }
    }
    if visibility is Personal {
        assert forall|f: FileView| #[trigger] shared_after.contains(f) implies f.id != id by {
            assert(shared.contains(f));
        }
        assert forall|f: FileView| #[trigger] shared_after.contains(f) && id.is_prefix_of(
            f.id,
        ) implies f.id == id by {
            assert(shared.contains(f));
        }
    }
    lemma_read_back(shared_after, personal_after, visibility, new);
}

/// A memory that was deleted by its full id is not found again, unless the
/// other directory has a file for it too, or some id begins with its id.
pub proof fn a_deleted_memory_is_not_found(
    shared: Seq<FileView>,
    personal: Seq<FileView>,
    id: Seq<char>,
    found: Seq<FileView>,
)
    requires
        deletion(shared, personal, id) == Deletion::Files(found),
        no_longer_id(shared, id),
        no_longer_id(personal, id),
        no_file(shared, id) || no_file(personal, id),
    ensures
        lookup_both(without(shared, found), without(personal, found), id) == Lookup::Missing,
{
    let left = |f: FileView| !found.contains(f);
    let same = |f: FileView| f.id == id;
    let dir = if located(shared, id) == Some(found) {
        shared
    } else {
        personal
    };
    located_files_are_of_one_memory(dir, id, found, 0, 0);
    let i = choose|i: int| 0 <= i < dir.len() && dir[i] == found[0];
    assert(dir[i].id == id);
    an_exact_id_beats_every_prefix(dir, id, i);
    assert forall|f: FileView|
        #![trigger shared.contains(f)]
        #![trigger personal.contains(f)]
        (shared.contains(f) || personal.contains(f)) && f.id == id implies found.contains(f) by {
        assert(dir.contains(f));
        crate::seqs::lemma_filter_contains(dir, same, f);
    }
    assert forall|f: FileView| #[trigger] without(shared, found).contains(f) implies f.id != id
        && (id.is_prefix_of(f.id) ==> f.id == id) by {
        crate::seqs::lemma_filter_contains(shared, left, f);
    }
    assert forall|f: FileView| #[trigger] without(personal, found).contains(f) implies f.id != id
        && (id.is_prefix_of(f.id) ==> f.id == id) by {
        crate::seqs::lemma_filter_contains(personal, left, f);
    }
    lemma_nothing_is_found(without(shared, found), id);
    lemma_nothing_is_found(without(personal, found), id);
}

// ---------------------------------------------------------------------------
// Batches
// ---------------------------------------------------------------------------

/// Whether `listed` shows, in whatever order, those of the files that lie inside
/// a directory.
pub open spec fn lists(
    listed: Seq<FileView>,
    files: Seq<PlacedView>,
    inside: spec_fn(Seq<PartView>) -> bool,
) -> bool {
    forall|p: PlacedView| #[trigger]
        placing(listed).contains(p) <==> files.contains(p) && inside(p.path)
}

/// The files of a store after a batch.
pub open spec fn after_batch(
    shared: Seq<FileView>,
    personal: Seq<FileView>,
    new: Seq<PlacedView>,
) -> Seq<PlacedView> {
    create_all(placing(shared) + placing(personal), new, known_ids(shared, personal)).files
}

proof fn lemma_listed(files: Seq<FileView>, f: FileView)
    requires
        files.contains(f),
    ensures
        placing(files).contains(PlacedView { path: f.path, id: f.id }),
{
    let i = choose|i: int| 0 <= i < files.len() && files[i] == f;
    assert(placing(files)[i] == (PlacedView { path: f.path, id: f.id }));
}

proof fn lemma_placed(files: Seq<FileView>, p: PlacedView) -> (f: FileView)
    requires
        placing(files).contains(p),
    ensures
        files.contains(f),
        f.path == p.path,
        f.id == p.id,
{
    let i = choose|i: int| 0 <= i < placing(files).len() && placing(files)[i] == p;
    assert(files.contains(files[i]));
    files[i]
}

proof fn lemma_one_path_is_found(files: Seq<FileView>, f: FileView)
    requires
        files.contains(f),
        forall|g: FileView| #[trigger] files.contains(g) && g.id == f.id ==> g.path == f.path,
    ensures
        lookup(files, f.id) == Lookup::Found(f.path),
{
    let id = f.id;
    let same = |g: FileView| g.id == id;
    let i = choose|i: int| 0 <= i < files.len() && files[i] == f;
    an_exact_id_beats_every_prefix(files, id, i);
    let found = exact(files, id);
    let k = some_file_is_the_newest(found);
    let best = choose|k: int| is_newest(found, k);
    assert(is_newest(found, best));
    assert(found.contains(found[best]));
    crate::seqs::lemma_filter_contains(files, same, found[best]);
}

proof fn lemma_after_batch_comes_from(
    files: Seq<PlacedView>,
    new: Seq<PlacedView>,
    known: spec_fn(Seq<char>) -> bool,
    f: PlacedView,
)
    requires
        create_all(files, new, known).files.contains(f),
    ensures
        files.contains(f) || new.contains(f),
    decreases new.len(),
{
    if new.len() > 0 {
        let before = new.drop_last();
        let p = create_all(files, before, known);
        let top = new.last();
        crate::write_laws::lemma_create_one_files(
            p,
            top,
            known(top.id) || crate::writes::repeats(new),
            f,
        );
        assert(new[new.len() - 1] == top);
        if f != top {
            lemma_after_batch_comes_from(files, before, known, f);
            if before.contains(f) {
                let i = choose|i: int| 0 <= i < before.len() && before[i] == f;
                assert(new[i] == f);
            }
        }
    }
}

/// After a batch, each memory of it is found at the file that was written for it
/// last, and has no other file in either directory; whether its id was known
/// before, is given twice, or moves to the other directory. A file that the id
/// had before is a memory file, and a personal memory is found where no shared
/// one has an id that begins with its id.
pub proof fn a_created_batch_is_read_back(
    shared: Seq<FileView>,
    personal: Seq<FileView>,
    in_shared: spec_fn(Seq<PartView>) -> bool,
    new: Seq<PlacedView>,
    last: int,
    shared_after: Seq<FileView>,
    personal_after: Seq<FileView>,
)
    requires
        forall|f: FileView| #[trigger] shared.contains(f) ==> in_shared(f.path),
        forall|f: FileView| #[trigger] personal.contains(f) ==> !in_shared(f.path),
        lists(shared_after, after_batch(shared, personal, new), in_shared),
        lists(
            personal_after,
            after_batch(shared, personal, new),
            |p: Seq<PartView>| !in_shared(p),
        ),
        is_last_of_id(new, last),
        paths_tell_ids(new),
        known_ids(shared, personal)(new[last].id) || no_file(shared, new[last].id) && no_file(
            personal,
            new[last].id,
        ),
        !in_shared(new[last].path) ==> no_longer_id(shared, new[last].id) && forall|j: int|
            0 <= j < new.len() && in_shared((#[trigger] new[j]).path)
                && new[last].id.is_prefix_of(new[j].id) ==> new[j].id == new[last].id,
    ensures
        lookup_both(shared_after, personal_after, new[last].id) == Lookup::Found(new[last].path),
        forall|f: FileView|
            #![trigger shared_after.contains(f)]
            #![trigger personal_after.contains(f)]
            (shared_after.contains(f) || personal_after.contains(f)) && f.id == new[last].id
                ==> f.path == new[last].path,
        in_shared(new[last].path) ==> no_file(personal_after, new[last].id),
        !in_shared(new[last].path) ==> no_file(shared_after, new[last].id),
{
    let id = new[last].id;
    let start = placing(shared) + placing(personal);
    let known = known_ids(shared, personal);
    let files = after_batch(shared, personal, new);
    let outside = |p: Seq<PartView>| !in_shared(p);
    assert forall|g: PlacedView| #[trigger] start.contains(g) implies placing(shared).contains(g)
        || placing(personal).contains(g) by {
        let i = choose|i: int| 0 <= i < start.len() && start[i] == g;
        if i < shared.len() {
            assert(placing(shared)[i] == g);
        } else {
            assert(placing(personal)[i - shared.len()] == g);
        }
    }
    if !known(id) {
        assert forall|g: PlacedView| #[trigger] start.contains(g) implies g.id != id by {
            if placing(shared).contains(g) {
                let f = lemma_placed(shared, g);
            } else {
                let f = lemma_placed(personal, g);
            }
        }
    }
    assert forall|f: PlacedView| f.id == id implies (#[trigger] files.contains(f) <==> f
        == new[last]) by {
        a_batch_leaves_one_file_for_each_id(start, new, known, last, f);
    }
    assert(files.contains(new[last]));
    assert forall|f: FileView| #[trigger] shared_after.contains(f) && f.id == id implies f.path
        == new[last].path && in_shared(f.path) by {
        lemma_listed(shared_after, f);
    }
    assert forall|f: FileView| #[trigger] personal_after.contains(f) && f.id == id implies f.path
        == new[last].path && !in_shared(f.path) by {
        lemma_listed(personal_after, f);
        assert(outside(f.path));
    }
    if in_shared(new[last].path) {
        assert(placing(shared_after).contains(new[last]));
        let f = lemma_placed(shared_after, new[last]);
        lemma_one_path_is_found(shared_after, f);
    } else {
        assert(outside(new[last].path));
        assert(placing(personal_after).contains(new[last]));
        let f = lemma_placed(personal_after, new[last]);
        lemma_one_path_is_found(personal_after, f);
        assert forall|g: FileView| #[trigger] shared_after.contains(g) && id.is_prefix_of(
            g.id,
        ) implies g.id == id by {
            let p = PlacedView { path: g.path, id: g.id };
            lemma_listed(shared_after, g);
            lemma_after_batch_comes_from(start, new, known, p);
            if new.contains(p) {
                let j = choose|j: int| 0 <= j < new.len() && new[j] == p;
                assert(in_shared(new[j].path));
            } else if placing(shared).contains(p) {
                let f = lemma_placed(shared, p);
            } else {
                let f = lemma_placed(personal, p);
            }
        }
        lemma_nothing_is_found(shared_after, id);
    }
}

/// A batch of one memory is the creation of that memory.
pub proof fn a_batch_of_one_is_a_creation(
    shared: Seq<FileView>,
    personal: Seq<FileView>,
    new: PlacedView,
)
    ensures
        create_all(
            placing(shared) + placing(personal),
            seq![new],
            known_ids(shared, personal),
        ).steps == creation(
            shared,
            personal,
            new.id,
            new.path,
            known_ids(shared, personal)(new.id),
        ),
{
    let start = placing(shared) + placing(personal);
    let known = known_ids(shared, personal);
    let one = seq![new];
    assert(one.drop_last() =~= Seq::empty());
    assert(one.last() == new);
    assert(!crate::writes::repeats(one));
    let p = create_all(start, one.drop_last(), known);
    assert(p.files == start && p.steps =~= Seq::empty());
    if known(new.id) {
        let elsewhere = |f: PlacedView| f.path != new.path;
        let stale = |f: PlacedView| crate::writes::superseded(f, new);
        let gone = |f: PlacedView| StepView::Remove(f.path);
        let written = start.filter(elsewhere).push(new);
        lemma_filter_push_out(start.filter(elsewhere), stale, new);
        crate::seqs::lemma_filter_twice(start, elsewhere, stale);
        Seq::filter_distributes_over_add(placing(shared), placing(personal), stale);
        lemma_stale_of_listing(shared, new);
        lemma_stale_of_listing(personal, new);
        let other = |f: FileView| f.path != new.path;
        let dropped = |f: FileView| StepView::Remove(f.path);
        let a = exact(shared, new.id);
        let b = exact(personal, new.id);
        Seq::filter_distributes_over_add(a, b, other);
        assert((a.filter(other) + b.filter(other)).map_values(dropped) =~= a.filter(
            other,
        ).map_values(dropped) + b.filter(other).map_values(dropped));
        assert((placing(shared).filter(stale) + placing(personal).filter(stale)).map_values(gone)
            =~= placing(shared).filter(stale).map_values(gone) + placing(personal).filter(
            stale,
        ).map_values(gone));
        assert(create_all(start, one, known).steps =~= creation(
            shared,
            personal,
            new.id,
            new.path,
            true,
        ));
    } else {
        assert(create_all(start, one, known).steps =~= seq![StepView::Write(new.path)]);
    }
}

proof fn lemma_filter_push_out<T>(s: Seq<T>, keep: spec_fn(T) -> bool, x: T)
    requires
        !keep(x),
    ensures
        s.push(x).filter(keep) == s.filter(keep),
{
    reveal(Seq::filter);
    assert(s.push(x).drop_last() =~= s);
}

proof fn lemma_stale_of_listing(files: Seq<FileView>, new: PlacedView)
    ensures
        placing(files).filter(|f: PlacedView| crate::writes::superseded(f, new)).map_values(
            |f: PlacedView| StepView::Remove(f.path),
        ) == removals(exact(files, new.id), new.path),
    decreases files.len(),
{
    reveal(Seq::filter);
    let stale = |f: PlacedView| crate::writes::superseded(f, new);
    let gone = |f: PlacedView| StepView::Remove(f.path);
    let same = |f: FileView| f.id == new.id;
    let other = |f: FileView| f.path != new.path;
    let dropped = |f: FileView| StepView::Remove(f.path);
    if files.len() == 0 {
        assert(placing(files).filter(stale).map_values(gone) =~= removals(
            exact(files, new.id),
            new.path,
        ));
    } else {
        let rest = files.drop_last();
        let f = files.last();
        lemma_stale_of_listing(rest, new);
        assert(placing(files).drop_last() =~= placing(rest));
        let x = placing(rest).filter(stale);
        let y = exact(rest, new.id);
        if same(f) {
            assert(y.push(f).drop_last() =~= y);
            if other(f) {
                let p = placing(files).last();
                assert(x.push(p).map_values(gone) =~= x.map_values(gone).push(gone(p)));
                let z = y.filter(other);
                assert(z.push(f).map_values(dropped) =~= z.map_values(dropped).push(dropped(f)));
            }
        }
    }
}

} // verus!
