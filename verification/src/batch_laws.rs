//! What a store holds after a batch of memories was created in it.

use crate::batches::{are_rows_of, is_last_write, IndexRow, RowView};
use crate::memory::{Memory, MemoryView};
use crate::path::PartView;
use crate::read_back::{a_created_batch_is_read_back, lists, no_longer_id};
use crate::store::{hits, lookup, lookup_both, FileView, Lookup};
use crate::store_laws::{lookup_does_not_depend_on_the_order_listed, same_files};
use crate::time::Timestamp;
use crate::write_laws::{
    added_steps, is_last_of_id, lemma_added, lemma_create_one_files, lemma_rest, only_removes,
    paths_tell_ids,
};
use crate::writes::{
    create_all, ids_placed, known_ids, placing, repeats, PlacedView, StepView,
};
use vstd::prelude::*;

verus! {

// ---------------------------------------------------------------------------
// A store on disk and in the index
// ---------------------------------------------------------------------------

/// What a memory file holds, and when it was modified.
#[verifier::ext_equal]
pub struct Written {
    pub memory: MemoryView,
    pub modified: Timestamp,
}

/// All that a store keeps.
#[verifier::ext_equal]
pub struct StoreState {
    /// The memory files of both directories.
    pub files: Map<Seq<PartView>, Written>,
    /// The rows of the index, by memory id.
    pub rows: Map<Seq<char>, RowView>,
    /// The ids of the memories that vectors are stored for.
    pub embedded: Set<Seq<char>>,
}

/// How paths are made: which memory's id the name of a file carries, and which
/// paths lie in the shared directory.
pub struct Naming {
    pub id_of: spec_fn(Seq<PartView>) -> Seq<char>,
    pub in_shared: spec_fn(Seq<PartView>) -> bool,
}

/// Whether every file is a Markdown file whose name carries the id of the memory
/// that it holds.
pub open spec fn well_named(files: Map<Seq<PartView>, Written>, naming: Naming) -> bool {
    forall|p: Seq<PartView>| #[trigger]
        files.contains_key(p) ==> crate::path::is_markdown_path(p) && files[p].memory.id
            == (naming.id_of)(p)
}

/// Whether a listing shows, in whatever order, the files inside a directory.
pub open spec fn shows(
    listing: Seq<FileView>,
    files: Map<Seq<PartView>, Written>,
    inside: spec_fn(Seq<PartView>) -> bool,
) -> bool {
    forall|f: FileView| #[trigger]
        listing.contains(f) <==> files.contains_key(f.path) && inside(f.path) && f.id
            == files[f.path].memory.id && f.modified == files[f.path].modified
}

/// Whether two listings show the files of the two directories.
pub open spec fn shows_both(
    shared: Seq<FileView>,
    personal: Seq<FileView>,
    files: Map<Seq<PartView>, Written>,
    naming: Naming,
) -> bool {
    &&& shows(shared, files, naming.in_shared)
    &&& shows(personal, files, |p: Seq<PartView>| !(naming.in_shared)(p))
}

/// The files after some steps, where each write takes the next one of the
/// contents.
pub open spec fn perform(
    files: Map<Seq<PartView>, Written>,
    steps: Seq<StepView>,
    contents: Seq<Written>,
) -> Map<Seq<PartView>, Written>
    decreases steps.len(),
{
    if steps.len() == 0 {
        files
    } else {
        match steps.last() {
            StepView::Write(p) => perform(
                files,
                steps.drop_last(),
                contents.drop_last(),
            ).insert(p, contents.last()),
            StepView::Remove(p) => perform(files, steps.drop_last(), contents).remove(p),
        }
    }
}

/// The index after some rows were put into it, each in the place of the one that
/// its memory had.
pub open spec fn upserted(rows: Map<Seq<char>, RowView>, new: Seq<IndexRow>) -> Map<
    Seq<char>,
    RowView,
>
    decreases new.len(),
{
    if new.len() == 0 {
        rows
    } else {
        upserted(rows, new.drop_last()).insert(new.last()@.id, new.last()@)
    }
}

/// A batch of memories on its way into a store.
pub struct BatchWrite {
    /// What the shared directory lists before the batch.
    pub shared: Seq<FileView>,
    /// What the personal directory lists before the batch.
    pub personal: Seq<FileView>,
    pub memories: Seq<Memory>,
    /// Where each memory's file goes.
    pub new: Seq<PlacedView>,
    /// What each file holds once it is written.
    pub contents: Seq<Written>,
    /// The digest of each file.
    pub digests: Seq<String>,
    /// The ids among those of the memories that vectors are stored for.
    pub with_chunks: Seq<String>,
    /// The rows that are put into the index.
    pub rows: Seq<IndexRow>,
}

impl BatchWrite {
    /// Whether the batch is made for a store as it is.
    pub open spec fn is_for(self, s: StoreState, naming: Naming) -> bool {
        &&& well_named(s.files, naming)
        &&& shows_both(self.shared, self.personal, s.files, naming)
        &&& self.new.len() == self.memories.len()
        &&& self.contents.len() == self.memories.len()
        &&& self.digests.len() == self.memories.len()
        &&& forall|i: int|
            0 <= i < self.new.len() ==> self.places(naming, i, #[trigger] self.new[i])
        &&& are_rows_of(self.rows, self.memories, self.digests, self.with_chunks)
        &&& forall|i: int|
            0 <= i < self.memories.len() ==> (crate::text::texts(self.with_chunks).contains(
                (#[trigger] self.memories[i])@.id,
            ) <==> s.embedded.contains(self.memories[i]@.id))
    }

    /// Whether the file is the one for the memory at `i`.
    pub open spec fn places(self, naming: Naming, i: int, file: PlacedView) -> bool {
        &&& file.id == self.memories[i]@.id
        &&& (naming.id_of)(file.path) == file.id
        &&& crate::path::is_markdown_path(file.path)
        &&& self.contents[i].memory == self.memories[i]@
    }

    /// The steps that create the memories.
    pub open spec fn steps(self) -> Seq<StepView> {
        create_all(
            placing(self.shared) + placing(self.personal),
            self.new,
            known_ids(self.shared, self.personal),
        ).steps
    }

    /// The store after the batch. Vectors are not touched.
    pub open spec fn done_on(self, s: StoreState) -> StoreState {
        StoreState {
            files: perform(s.files, self.steps(), self.contents),
            rows: upserted(s.rows, self.rows),
            embedded: s.embedded,
        }
    }

    /// Whether one of the memories has the id.
    pub open spec fn gives(self, id: Seq<char>) -> bool {
        is_given(self.new, id)
    }
}

/// Whether one of the files is of the memory with the id.
pub open spec fn is_given(new: Seq<PlacedView>, id: Seq<char>) -> bool {
    exists|i: int| 0 <= i < new.len() && (#[trigger] new[i]).id == id
}

/// Whether the files of the memories that are not given are as they were.
spec fn spares_others(
    after: Map<Seq<PartView>, Written>,
    files: Map<Seq<PartView>, Written>,
    new: Seq<PlacedView>,
    naming: Naming,
) -> bool {
    forall|q: Seq<PartView>|
        !is_given(new, (naming.id_of)(q)) ==> (#[trigger] after.contains_key(q)
            <==> files.contains_key(q)) && (after.contains_key(q) ==> after[q] == files[q])
}

// ---------------------------------------------------------------------------
// What the steps do
// ---------------------------------------------------------------------------

proof fn lemma_perform_removes(
    files: Map<Seq<PartView>, Written>,
    done: Seq<StepView>,
    rest: Seq<StepView>,
    contents: Seq<Written>,
    keep: Seq<PartView>,
)
    requires
        only_removes(rest, keep),
    ensures
        forall|q: Seq<PartView>| #[trigger]
            perform(files, done + rest, contents).contains_key(q) <==> perform(
                files,
                done,
                contents,
            ).contains_key(q) && !rest.contains(StepView::Remove(q)),
        forall|q: Seq<PartView>|
            perform(files, done + rest, contents).contains_key(q) ==> #[trigger] perform(
                files,
                done + rest,
                contents,
            )[q] == perform(files, done, contents)[q],
    decreases rest.len(),
{
    let before = perform(files, done, contents);
    let after = perform(files, done + rest, contents);
    if rest.len() == 0 {
        assert(done + rest =~= done);
    } else {
        let t = rest.drop_last();
        assert forall|i: int| 0 <= i < t.len() implies (#[trigger] t[i] matches StepView::Remove(p)
            && p != keep) by {
            assert(t[i] == rest[i]);
        }
        lemma_perform_removes(files, done, t, contents, keep);
        assert((done + rest).drop_last() =~= done + t);
        let last = rest[rest.len() - 1];
        assert((done + rest).last() == last);
        assert forall|q: Seq<PartView>| #[trigger]
            after.contains_key(q) <==> before.contains_key(q) && !rest.contains(
                StepView::Remove(q),
            ) by {
            let gone = StepView::Remove(q);
            if t.contains(gone) {
                let i = choose|i: int| 0 <= i < t.len() && t[i] == gone;
                assert(rest[i] == gone);
            }
            if rest.contains(gone) {
                let i = choose|i: int| 0 <= i < rest.len() && rest[i] == gone;
                if i < t.len() {
                    assert(t[i] == gone);
                }
            }
            assert(rest.contains(last));
            assert(perform(files, done + t, contents).contains_key(q) <==> before.contains_key(q)
                && !t.contains(gone));
        }
        assert forall|q: Seq<PartView>| after.contains_key(q) implies #[trigger] after[q]
            == before[q] by {
            let so_far = perform(files, done + t, contents);
            assert(so_far.contains_key(q));
            assert(so_far[q] == before[q]);
        }
    }
}

/// The files after a batch, by what `create_all` says of them and by what they
/// hold.
proof fn lemma_performed(
    files: Map<Seq<PartView>, Written>,
    start: Seq<PlacedView>,
    new: Seq<PlacedView>,
    known: spec_fn(Seq<char>) -> bool,
    contents: Seq<Written>,
    naming: Naming,
)
    requires
        well_named(files, naming),
        contents.len() == new.len(),
        forall|i: int|
            0 <= i < new.len() ==> (naming.id_of)((#[trigger] new[i]).path) == new[i].id
                && crate::path::is_markdown_path(new[i].path) && contents[i].memory.id == new[i].id,
        forall|f: PlacedView| #[trigger]
            start.contains(f) <==> files.contains_key(f.path) && f.id == (naming.id_of)(f.path),
    ensures
        well_named(perform(files, create_all(start, new, known).steps, contents), naming),
        forall|f: PlacedView| #[trigger]
            create_all(start, new, known).files.contains(f) <==> perform(
                files,
                create_all(start, new, known).steps,
                contents,
            ).contains_key(f.path) && f.id == (naming.id_of)(f.path),
        spares_others(
            perform(files, create_all(start, new, known).steps, contents),
            files,
            new,
            naming,
        ),
        forall|i: int|
            is_last_of_id(new, i) && perform(
                files,
                create_all(start, new, known).steps,
                contents,
            ).contains_key(new[i].path) ==> perform(
                files,
                create_all(start, new, known).steps,
                contents,
            )[(#[trigger] new[i]).path] == contents[i],
    decreases new.len(),
{
    let all = create_all(start, new, known);
    let after = perform(files, all.steps, contents);
    if new.len() > 0 {
        let before = new.drop_last();
        let top = new.last();
        let n = new.len() - 1;
        let earlier = contents.drop_last();
        let p = create_all(start, before, known);
        let k = known(top.id) || repeats(new);
        assert(top == new[n]);
        assert forall|i: int| 0 <= i < before.len() implies (naming.id_of)(
            (#[trigger] before[i]).path,
        ) == before[i].id && crate::path::is_markdown_path(before[i].path)
            && earlier[i].memory.id == before[i].id by {
            assert(before[i] == new[i]);
        }
        lemma_performed(files, start, before, known, earlier, naming);
        let m = perform(files, p.steps, earlier);
        lemma_added(p, top, k);
        let steps = added_steps(p, top, k);
        let rest = steps.drop_first();
        let through = p.steps.push(StepView::Write(top.path));
        assert(all.steps =~= through + rest);
        assert(through.drop_last() =~= p.steps);
        assert(perform(files, through, contents) == m.insert(top.path, contents.last()));
        lemma_perform_removes(files, through, rest, contents, top.path);
        assert forall|q: Seq<PartView>| #[trigger] after.contains_key(q) implies after[q] == (if q
            == top.path {
            contents[n]
        } else {
            m[q]
        }) by {
            assert(after[q] == perform(files, through, contents)[q]);
        }
        assert forall|q: Seq<PartView>| #[trigger] after.contains_key(q) <==> q == top.path || (
        m.contains_key(q) && !(k && (naming.id_of)(q) == top.id)) by {
            lemma_rest(p, top, k, q);
            let g = PlacedView { path: q, id: top.id };
            assert(p.files.contains(g) <==> m.contains_key(q) && top.id == (naming.id_of)(q));
            if rest.contains(StepView::Remove(q)) {
                let h = choose|h: PlacedView| p.files.contains(h) && h.path == q && h.id == top.id;
                assert(h == g);
            }
        }
        assert forall|f: PlacedView| #[trigger]
            all.files.contains(f) <==> after.contains_key(f.path) && f.id == (naming.id_of)(
                f.path,
            ) by {
            lemma_create_one_files(p, top, k, f);
            assert(p.files.contains(f) <==> m.contains_key(f.path) && f.id == (naming.id_of)(
                f.path,
            ));
        }
        assert forall|q: Seq<PartView>| !is_given(new, (naming.id_of)(q)) implies (
        #[trigger] after.contains_key(q) <==> files.contains_key(q)) && (after.contains_key(q)
            ==> after[q] == files[q]) by {
            if is_given(before, (naming.id_of)(q)) {
                let i = choose|i: int|
                    0 <= i < before.len() && (#[trigger] before[i]).id == (naming.id_of)(q);
                assert(new[i].id == (naming.id_of)(q));
            }
            assert(new[n].id != (naming.id_of)(q));
            assert(m.contains_key(q) <==> files.contains_key(q));
        }
        assert forall|i: int|
            is_last_of_id(new, i) && after.contains_key(new[i].path) implies after[(
        #[trigger] new[i]).path] == contents[i] by {
            if i < n {
                assert(before[i] == new[i]);
                assert(new[n].id != new[i].id);
                assert(is_last_of_id(before, i)) by {
                    assert forall|j: int| i < j < before.len() implies (#[trigger] before[j]).id
                        != before[i].id by {
                        assert(before[j] == new[j]);
                    }
                }
                assert(m.contains_key(before[i].path));
            }
        }
    }
}

proof fn lemma_upserted_spares(rows: Map<Seq<char>, RowView>, new: Seq<IndexRow>, id: Seq<char>)
    requires
        forall|i: int| 0 <= i < new.len() ==> (#[trigger] new[i])@.id != id,
    ensures
        upserted(rows, new).contains_key(id) <==> rows.contains_key(id),
        upserted(rows, new)[id] == rows[id],
    decreases new.len(),
{
    if new.len() > 0 {
        let before = new.drop_last();
        assert forall|i: int| 0 <= i < before.len() implies (#[trigger] before[i])@.id != id by {
            assert(before[i] == new[i]);
        }
        lemma_upserted_spares(rows, before, id);
        assert(new[new.len() - 1]@.id != id);
    }
}

proof fn lemma_upserted_last(rows: Map<Seq<char>, RowView>, new: Seq<IndexRow>, k: int)
    requires
        0 <= k < new.len(),
        forall|j: int| k < j < new.len() ==> (#[trigger] new[j])@.id != new[k]@.id,
    ensures
        upserted(rows, new).contains_key(new[k]@.id),
        upserted(rows, new)[new[k]@.id] == new[k]@,
    decreases new.len(),
{
    if k < new.len() - 1 {
        let before = new.drop_last();
        assert forall|j: int| k < j < before.len() implies (#[trigger] before[j])@.id
            != before[k]@.id by {
            assert(before[j] == new[j]);
        }
        lemma_upserted_last(rows, before, k);
        assert(new[new.len() - 1]@.id != new[k]@.id);
    }
}

impl BatchWrite {
    /// What is listed is what `create_all` starts from.
    proof fn lemma_start(self, s: StoreState, naming: Naming, f: PlacedView)
        requires
            self.is_for(s, naming),
        ensures
            (placing(self.shared) + placing(self.personal)).contains(f) <==> s.files.contains_key(
                f.path,
            ) && f.id == (naming.id_of)(f.path),
    {
        let a = placing(self.shared);
        let b = placing(self.personal);
        let start = a + b;
        let outside = |p: Seq<PartView>| !(naming.in_shared)(p);
        if start.contains(f) {
            let i = choose|i: int| 0 <= i < start.len() && start[i] == f;
            if i < a.len() {
                assert(self.shared.contains(self.shared[i]));
            } else {
                assert(self.personal.contains(self.personal[i - a.len()]));
            }
        }
        if s.files.contains_key(f.path) && f.id == (naming.id_of)(f.path) {
            let g = FileView { path: f.path, id: f.id, modified: s.files[f.path].modified };
            if (naming.in_shared)(f.path) {
                assert(self.shared.contains(g));
                let i = choose|i: int| 0 <= i < self.shared.len() && self.shared[i] == g;
                assert(start[i] == f);
            } else {
                assert(outside(f.path));
                assert(self.personal.contains(g));
                let i = choose|i: int| 0 <= i < self.personal.len() && self.personal[i] == g;
                assert(start[a.len() + i] == f);
            }
        }
    }

    proof fn lemma_done(self, s: StoreState, naming: Naming)
        requires
            self.is_for(s, naming),
        ensures
            well_named(self.done_on(s).files, naming),
            forall|f: PlacedView| #[trigger]
                crate::read_back::after_batch(self.shared, self.personal, self.new).contains(f)
                    <==> self.done_on(s).files.contains_key(f.path) && f.id == (naming.id_of)(
                    f.path,
                ),
            spares_others(self.done_on(s).files, s.files, self.new, naming),
            forall|i: int|
                is_last_of_id(self.new, i) && self.done_on(s).files.contains_key(self.new[i].path)
                    ==> self.done_on(s).files[(#[trigger] self.new[i]).path] == self.contents[i],
    {
        let start = placing(self.shared) + placing(self.personal);
        let known = known_ids(self.shared, self.personal);
        assert forall|f: PlacedView| #[trigger]
            start.contains(f) <==> s.files.contains_key(f.path) && f.id == (naming.id_of)(
                f.path,
            ) by {
            self.lemma_start(s, naming, f);
        }
        assert forall|i: int| 0 <= i < self.new.len() implies (naming.id_of)(
            (#[trigger] self.new[i]).path,
        ) == self.new[i].id && crate::path::is_markdown_path(self.new[i].path)
            && self.contents[i].memory.id == self.new[i].id by {
            assert(self.places(naming, i, self.new[i]));
        }
        lemma_performed(s.files, start, self.new, known, self.contents, naming);
    }
}

/// A listing of the files after a batch shows what `create_all` leaves.
proof fn lemma_lists(
    listing: Seq<FileView>,
    left: Seq<PlacedView>,
    files: Map<Seq<PartView>, Written>,
    inside: spec_fn(Seq<PartView>) -> bool,
    naming: Naming,
)
    requires
        shows(listing, files, inside),
        well_named(files, naming),
        forall|f: PlacedView| #[trigger]
            left.contains(f) <==> files.contains_key(f.path) && f.id == (naming.id_of)(f.path),
    ensures
        lists(listing, left, inside),
{
    assert forall|f: PlacedView| #[trigger]
        placing(listing).contains(f) <==> left.contains(f) && inside(f.path) by {
        if placing(listing).contains(f) {
            let i = choose|i: int| 0 <= i < placing(listing).len() && placing(listing)[i] == f;
            assert(listing.contains(listing[i]));
        }
        if left.contains(f) && inside(f.path) {
            let g = FileView { path: f.path, id: f.id, modified: files[f.path].modified };
            assert(listing.contains(g));
            let i = choose|i: int| 0 <= i < listing.len() && listing[i] == g;
            assert(placing(listing)[i] == f);
        }
    }
}

// ---------------------------------------------------------------------------
// Laws
// ---------------------------------------------------------------------------

/// After a batch the store holds each of its memories: a read of the id finds
/// the file that was written for it, which holds the memory as it was given; no
/// other file, in either directory, is of that memory; and its row has the
/// digest of that file and says whether the memory has vectors. This holds
/// whether the id was there before, under whatever title and visibility, or not.
/// Of an id that is given twice it holds of the later memory. A personal memory
/// is found where no shared one, old or new, has a longer id that begins with
/// its id.
pub proof fn a_batch_creates_its_memories(
    s: StoreState,
    naming: Naming,
    batch: BatchWrite,
    last: int,
    shared_after: Seq<FileView>,
    personal_after: Seq<FileView>,
)
    requires
        batch.is_for(s, naming),
        is_last_of_id(batch.new, last),
        shows_both(shared_after, personal_after, batch.done_on(s).files, naming),
        !(naming.in_shared)(batch.new[last].path) ==> no_longer_id(
            batch.shared,
            batch.new[last].id,
        ) && forall|j: int|
            0 <= j < batch.new.len() && (naming.in_shared)((#[trigger] batch.new[j]).path)
                && batch.new[last].id.is_prefix_of(batch.new[j].id) ==> batch.new[j].id
                == batch.new[last].id,
    ensures
        lookup_both(shared_after, personal_after, batch.memories[last]@.id) == Lookup::Found(
            batch.new[last].path,
        ),
        batch.done_on(s).files.contains_key(batch.new[last].path),
        batch.done_on(s).files[batch.new[last].path].memory == batch.memories[last]@,
        batch.done_on(s).files[batch.new[last].path] == batch.contents[last],
        forall|q: Seq<PartView>| #[trigger]
            batch.done_on(s).files.contains_key(q) && batch.done_on(s).files[q].memory.id
                == batch.memories[last]@.id ==> q == batch.new[last].path,
        batch.done_on(s).rows.contains_key(batch.memories[last]@.id),
        batch.done_on(s).rows[batch.memories[last]@.id] == (RowView {
            id: batch.memories[last]@.id,
            visibility: batch.memories[last].visibility,
            digest: batch.digests[last]@,
            has_embedding: s.embedded.contains(batch.memories[last]@.id),
        }),
        batch.done_on(s).embedded == s.embedded,
        well_named(batch.done_on(s).files, naming),
{
    let after = batch.done_on(s);
    let id = batch.memories[last]@.id;
    let path = batch.new[last].path;
    let left = crate::read_back::after_batch(batch.shared, batch.personal, batch.new);
    let outside = |p: Seq<PartView>| !(naming.in_shared)(p);
    batch.lemma_done(s, naming);
    assert(batch.places(naming, last, batch.new[last]));
    lemma_lists(shared_after, left, after.files, naming.in_shared, naming);
    lemma_lists(personal_after, left, after.files, outside, naming);
    assert(paths_tell_ids(batch.new)) by {
        assert forall|i: int, j: int|
            0 <= i < batch.new.len() && 0 <= j < batch.new.len() && (#[trigger] batch.new[i]).path
                == (#[trigger] batch.new[j]).path implies batch.new[i].id == batch.new[j].id by {
            assert(batch.places(naming, i, batch.new[i]));
            assert(batch.places(naming, j, batch.new[j]));
        }
    }
    if !known_ids(batch.shared, batch.personal)(id) {
        assert forall|f: FileView| #[trigger] batch.shared.contains(f) implies f.id != id by {
            let i = choose|i: int| 0 <= i < batch.shared.len() && batch.shared[i] == f;
            assert(s.files.contains_key(f.path));
            if f.id == id {
                assert(crate::store::holds_id(batch.shared, id, i));
            }
        }
        assert forall|f: FileView| #[trigger] batch.personal.contains(f) implies f.id != id by {
            let i = choose|i: int| 0 <= i < batch.personal.len() && batch.personal[i] == f;
            assert(s.files.contains_key(f.path));
            if f.id == id {
                assert(crate::store::holds_id(batch.personal, id, i));
            }
        }
    }
    assert forall|f: FileView| #[trigger] batch.personal.contains(f) implies !(naming.in_shared)(
        f.path,
    ) by {
        assert(outside(f.path));
    }
    a_created_batch_is_read_back(
        batch.shared,
        batch.personal,
        naming.in_shared,
        batch.new,
        last,
        shared_after,
        personal_after,
    );
    lemma_only_file(s, naming, batch, last);
    lemma_row(s, naming, batch, last);
}

proof fn lemma_only_file(s: StoreState, naming: Naming, batch: BatchWrite, last: int)
    requires
        batch.is_for(s, naming),
        is_last_of_id(batch.new, last),
    ensures
        batch.done_on(s).files.contains_key(batch.new[last].path),
        batch.done_on(s).files[batch.new[last].path] == batch.contents[last],
        forall|q: Seq<PartView>| #[trigger]
            batch.done_on(s).files.contains_key(q) && batch.done_on(s).files[q].memory.id
                == batch.new[last].id ==> q == batch.new[last].path,
{
    let after = batch.done_on(s).files;
    let id = batch.new[last].id;
    let start = placing(batch.shared) + placing(batch.personal);
    let known = known_ids(batch.shared, batch.personal);
    batch.lemma_done(s, naming);
    assert(batch.places(naming, last, batch.new[last]));
    assert(paths_tell_ids(batch.new)) by {
        assert forall|i: int, j: int|
            0 <= i < batch.new.len() && 0 <= j < batch.new.len() && (#[trigger] batch.new[i]).path
                == (#[trigger] batch.new[j]).path implies batch.new[i].id == batch.new[j].id by {
            assert(batch.places(naming, i, batch.new[i]));
            assert(batch.places(naming, j, batch.new[j]));
        }
    }
    if !known(id) {
        assert forall|g: PlacedView| #[trigger] start.contains(g) implies g.id != id by {
            let i = choose|i: int| 0 <= i < start.len() && start[i] == g;
            batch.lemma_start(s, naming, g);
            if g.id == id {
                if i < batch.shared.len() {
                    assert(crate::store::holds_id(batch.shared, id, i));
                } else {
                    assert(crate::store::holds_id(batch.personal, id, i - batch.shared.len()));
                }
            }
        }
    }
    let left = crate::read_back::after_batch(batch.shared, batch.personal, batch.new);
    crate::write_laws::a_batch_leaves_one_file_for_each_id(
        start,
        batch.new,
        known,
        last,
        batch.new[last],
    );
    assert(left.contains(batch.new[last]));
    assert forall|q: Seq<PartView>| #[trigger]
        after.contains_key(q) && after[q].memory.id == id implies q == batch.new[last].path by {
        let f = PlacedView { path: q, id };
        assert(left.contains(f));
        crate::write_laws::a_batch_leaves_one_file_for_each_id(start, batch.new, known, last, f);
    }
}

proof fn lemma_row(s: StoreState, naming: Naming, batch: BatchWrite, last: int)
    requires
        batch.is_for(s, naming),
        is_last_of_id(batch.new, last),
    ensures
        batch.done_on(s).rows.contains_key(batch.memories[last]@.id),
        batch.done_on(s).rows[batch.memories[last]@.id] == (RowView {
            id: batch.memories[last]@.id,
            visibility: batch.memories[last].visibility,
            digest: batch.digests[last]@,
            has_embedding: s.embedded.contains(batch.memories[last]@.id),
        }),
{
    let id = batch.memories[last]@.id;
    assert(batch.places(naming, last, batch.new[last]));
    let row = batch.rows[last]@;
    let k = choose|k: int|
        #[trigger] is_last_write(batch.memories, batch.memories[last].id@, k) && row == (RowView {
            id: batch.memories[last].id@,
            visibility: batch.memories[last].visibility,
            digest: batch.digests[k]@,
            has_embedding: crate::text::texts(batch.with_chunks).contains(
                batch.memories[last].id@,
            ),
        });
    assert(is_last_write(batch.memories, batch.memories[last].id@, k));
    assert forall|j: int| last < j < batch.memories.len() implies (#[trigger] batch.memories[j]).id@
        != id by {
        assert(batch.places(naming, j, batch.new[j]));
        assert(batch.new[j].id != batch.new[last].id);
    }
    assert(k == last) by {
        if k < last {
            assert(batch.memories[last].id@ != id);
        } else if k > last {
            assert(batch.memories[k].id@ != id);
        }
    }
    assert forall|j: int| last < j < batch.rows.len() implies (#[trigger] batch.rows[j])@.id
        != id by {
        assert(batch.memories[j].id@ != id);
    }
    assert(batch.rows[last]@.id == id);
    lemma_upserted_last(s.rows, batch.rows, last);
}

/// A batch touches no memory that it does not give: its files, its row and
/// whether it has vectors stay, and whatever text begins none of the given ids
/// is looked up as before.
pub proof fn a_batch_touches_no_other_memory(
    s: StoreState,
    naming: Naming,
    batch: BatchWrite,
    id: Seq<char>,
    asked: Seq<char>,
    shared_after: Seq<FileView>,
    personal_after: Seq<FileView>,
)
    requires
        batch.is_for(s, naming),
        !batch.gives(id),
        shows_both(shared_after, personal_after, batch.done_on(s).files, naming),
        forall|i: int|
            0 <= i < batch.new.len() ==> !asked.is_prefix_of((#[trigger] batch.new[i]).id),
    ensures
        forall|q: Seq<PartView>|
            (naming.id_of)(q) == id ==> (#[trigger] batch.done_on(s).files.contains_key(q)
                <==> s.files.contains_key(q)) && (s.files.contains_key(q) ==> batch.done_on(
                s,
            ).files[q] == s.files[q]),
        batch.done_on(s).rows.contains_key(id) <==> s.rows.contains_key(id),
        s.rows.contains_key(id) ==> batch.done_on(s).rows[id] == s.rows[id],
        batch.done_on(s).embedded == s.embedded,
        lookup_both(shared_after, personal_after, asked) == lookup_both(
            batch.shared,
            batch.personal,
            asked,
        ),
{
    let after = batch.done_on(s).files;
    let outside = |p: Seq<PartView>| !(naming.in_shared)(p);
    batch.lemma_done(s, naming);
    lemma_other_row(s, naming, batch, id);
    lemma_same_lookup(
        s.files,
        after,
        naming,
        batch.new,
        naming.in_shared,
        batch.shared,
        shared_after,
        asked,
    );
    lemma_same_lookup(
        s.files,
        after,
        naming,
        batch.new,
        outside,
        batch.personal,
        personal_after,
        asked,
    );
}

proof fn lemma_other_row(s: StoreState, naming: Naming, batch: BatchWrite, id: Seq<char>)
    requires
        batch.is_for(s, naming),
        !batch.gives(id),
    ensures
        batch.done_on(s).rows.contains_key(id) <==> s.rows.contains_key(id),
        batch.done_on(s).rows[id] == s.rows[id],
{
    assert forall|i: int| 0 <= i < batch.rows.len() implies (#[trigger] batch.rows[i])@.id
        != id by {
        assert(batch.places(naming, i, batch.new[i]));
        assert(batch.memories[i].id@ == batch.new[i].id);
    }
    lemma_upserted_spares(s.rows, batch.rows, id);
}

proof fn lemma_same_lookup(
    files: Map<Seq<PartView>, Written>,
    after: Map<Seq<PartView>, Written>,
    naming: Naming,
    new: Seq<PlacedView>,
    inside: spec_fn(Seq<PartView>) -> bool,
    listing: Seq<FileView>,
    listing_after: Seq<FileView>,
    asked: Seq<char>,
)
    requires
        well_named(files, naming),
        well_named(after, naming),
        shows(listing, files, inside),
        shows(listing_after, after, inside),
        forall|i: int| 0 <= i < new.len() ==> !asked.is_prefix_of((#[trigger] new[i]).id),
        spares_others(after, files, new, naming),
    ensures
        lookup(listing, asked) == lookup(listing_after, asked),
{
    let fits = |f: FileView| asked.is_prefix_of(f.id);
    let a = hits(listing, asked);
    let b = hits(listing_after, asked);
    assert forall|f: FileView|
        #![trigger a.contains(f)]
        #![trigger b.contains(f)]
        a.contains(f) <==> b.contains(f) by {
        crate::seqs::lemma_filter_contains(listing, fits, f);
        crate::seqs::lemma_filter_contains(listing_after, fits, f);
        if asked.is_prefix_of(f.id) && (naming.id_of)(f.path) == f.id {
            if is_given(new, (naming.id_of)(f.path)) {
                let i = choose|i: int|
                    0 <= i < new.len() && (#[trigger] new[i]).id == (naming.id_of)(f.path);
                assert(!asked.is_prefix_of(new[i].id));
            }
            assert(after.contains_key(f.path) <==> files.contains_key(f.path));
        }
    }
    assert(same_files(a, b));
    lookup_does_not_depend_on_the_order_listed(a, b, asked);
    crate::seqs::lemma_filter_twice(listing, fits, fits);
    crate::seqs::lemma_filter_twice(listing_after, fits, fits);
    assert(lookup(a, asked) == lookup(listing, asked));
    assert(lookup(b, asked) == lookup(listing_after, asked));
}

/// A batch answers with the ids of its memories, as they were given.
pub proof fn a_batch_answers_with_the_ids_given(s: StoreState, naming: Naming, batch: BatchWrite)
    requires
        batch.is_for(s, naming),
    ensures
        ids_placed(batch.new) == batch.memories.map_values(|m: Memory| m@.id),
{
    let ids = ids_placed(batch.new);
    assert forall|i: int| 0 <= i < ids.len() implies ids[i] == batch.memories[i]@.id by {
        assert(batch.places(naming, i, batch.new[i]));
    }
    assert(ids =~= batch.memories.map_values(|m: Memory| m@.id));
}

/// A batch of no memories leaves a store as it is.
pub proof fn an_empty_batch_leaves_the_store(s: StoreState, naming: Naming, batch: BatchWrite)
    requires
        batch.is_for(s, naming),
        batch.memories.len() == 0,
    ensures
        batch.done_on(s) == s,
{
    assert(batch.steps() =~= Seq::empty());
}

} // verus!
