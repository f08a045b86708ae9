//! What holds of the answers of a store, whatever is in it.
use vstd::prelude::*;

use crate::error::StorageError;
use crate::index_laws::is_row_of_the_newest;
use crate::lookup_laws::{
    carries, fits_several, has_markdown_name, is_newest_markdown_of, is_newest_of, memories_that_fit,
    none_fits, only_fits,
};
use crate::memory::Visibility;
use crate::path::{FilePath, PartView};
use crate::reindex::{ParsedFile, Reindex};
use crate::store::{
    file_views, resolve_full_id, staleness_message, FileView, MemoryFile, MemoryStore,
};
use crate::writes::{step_views, Step, StepView};

verus! {

broadcast use vstd::string::group_string_axioms;

// ---------------------------------------------------------------------------
// Reading
// ---------------------------------------------------------------------------

/// That a text fits the memory of the file at `i` alone, or is its very id.
pub open spec fn stands_for(files: Seq<FileView>, text: Seq<char>, i: int) -> bool {
    only_fits(files, text, i) || (0 <= i < files.len() && files[i].id == text)
}

/// That an answer is the path of the newest file of a memory.
pub open spec fn is_the_newest(
    r: Result<FilePath, StorageError>,
    files: Seq<FileView>,
    id: Seq<char>,
) -> bool {
    r matches Ok(p) && is_newest_of(files, id, p@)
}

/// That an answer misses what was asked for.
pub open spec fn misses<T>(r: Result<T, StorageError>, text: Seq<char>) -> bool {
    r matches Err(e) && (e matches StorageError::NotFound(m) && m@ == text)
}

/// That an answer refuses a text that fits a number of memories.
pub open spec fn cannot_tell<T>(r: Result<T, StorageError>, text: Seq<char>, n: nat) -> bool {
    r matches Err(e) && (e matches StorageError::Validation(m) && m@ == "Ambiguous ID prefix '"@
        + text + "': matches "@ + crate::text::decimal(n) + " memories"@)
}

/// A read by any beginning of an id gives the newest file of the one memory that it
/// fits, first of the shared directory and, where nothing fits there, of the
/// personal one. What fits nothing is missing, and what fits several memories is
/// refused.
pub proof fn a_read_finds_a_memory_by_any_beginning_of_its_id(
    store: &MemoryStore,
    text: &str,
    r: Result<FilePath, StorageError>,
    i: int,
    j: int,
)
    requires
        call_ensures(MemoryStore::get, (store, text), r),
    ensures
        ({
            let shared = file_views(store.shared@);
            let personal = file_views(store.personal@);
            &&& stands_for(shared, text@, i) ==> is_the_newest(r, shared, shared[i].id)
            &&& none_fits(shared, text@) && stands_for(personal, text@, i) ==> is_the_newest(
                r,
                personal,
                personal[i].id,
            )
            &&& none_fits(shared, text@) && none_fits(personal, text@) ==> misses(r, text@)
            &&& fits_several(shared, text@, i, j) ==> cannot_tell(
                r,
                text@,
                memories_that_fit(shared, text@),
            )
            &&& none_fits(shared, text@) && fits_several(personal, text@, i, j) ==> cannot_tell(
                r,
                text@,
                memories_that_fit(personal, text@),
            )
        }),
{
    let shared = file_views(store.shared@);
    let personal = file_views(store.personal@);
    if stands_for(shared, text@, i) {
        crate::lookup_laws::a_shared_memory_is_found_by_any_beginning_of_its_id(
            shared,
            personal,
            text@,
            i,
        );
    }
    if none_fits(shared, text@) && stands_for(personal, text@, i) {
        crate::lookup_laws::a_personal_memory_is_found_by_any_beginning_of_its_id(
            shared,
            personal,
            text@,
            i,
        );
    }
    crate::lookup_laws::only_what_is_nowhere_is_missing(shared, personal, text@);
    crate::lookup_laws::an_ambiguous_text_is_refused(shared, personal, text@, i, j);
}

/// A batch read leaves out no id that a Markdown file carries and answers for no
/// other: each answer is the newest such file, a shared one where there is one.
pub proof fn a_batch_read_answers_for_every_id_on_disk(
    store: &MemoryStore,
    ids: &[String],
    r: Vec<(String, FilePath)>,
    i: int,
    k: int,
)
    requires
        call_ensures(MemoryStore::get_batch, (store, ids), r),
    ensures
        ({
            let shared = file_views(store.shared@);
            let personal = file_views(store.personal@);
            &&& 0 <= i < r@.len() ==> {
                &&& exists|l: int| 0 <= l < ids@.len() && (#[trigger] ids@[l])@ == r@[i].0@
                &&& carries(shared, r@[i].0@) ==> is_newest_markdown_of(
                    shared,
                    r@[i].0@,
                    r@[i].1@,
                )
                &&& !carries(shared, r@[i].0@) ==> is_newest_markdown_of(
                    personal,
                    r@[i].0@,
                    r@[i].1@,
                )
            }
            &&& 0 <= k < ids@.len() && (carries(shared, ids@[k]@) || carries(personal, ids@[k]@))
                ==> exists|l: int| 0 <= l < r@.len() && (#[trigger] r@[l]).0@ == ids@[k]@
        }),
{
    let shared = file_views(store.shared@);
    let personal = file_views(store.personal@);
    let all = crate::text::texts(ids@);
    let known = |id: Seq<char>|
        crate::store::on_disk(shared, id) || crate::store::on_disk(personal, id);
    let found = all.filter(known);
    if 0 <= i < r@.len() {
        let id = r@[i].0@;
        assert(id == found[i]);
        assert(found.contains(id));
        crate::seqs::lemma_filter_contains(all, known, id);
        let l = choose|l: int| 0 <= l < all.len() && all[l] == id;
        assert(ids@[l]@ == id);
        crate::lookup_laws::a_batch_reads_the_newest_file_of_an_id(
            shared,
            personal,
            id,
            r@[i].1@,
        );
    }
    if 0 <= k < ids@.len() && (carries(shared, ids@[k]@) || carries(personal, ids@[k]@)) {
        let id = ids@[k]@;
        assert(all[k] == id);
        crate::lookup_laws::an_id_is_on_disk_where_a_markdown_file_carries_it(shared, id);
        crate::lookup_laws::an_id_is_on_disk_where_a_markdown_file_carries_it(personal, id);
        crate::seqs::lemma_filter_contains(all, known, id);
        let l = choose|l: int| 0 <= l < found.len() && found[l] == id;
        assert(r@[l].0@ == id);
    }
}

/// Of the ids asked for, exactly those exist that a Markdown file carries.
pub proof fn an_id_exists_where_a_markdown_file_carries_it(
    store: &MemoryStore,
    ids: &[String],
    r: Vec<String>,
    k: int,
)
    requires
        call_ensures(MemoryStore::batch_exists, (store, ids), r),
        0 <= k < ids@.len(),
    ensures
        (exists|l: int| 0 <= l < r@.len() && (#[trigger] r@[l])@ == ids@[k]@) <==> carries(
            file_views(store.shared@),
            ids@[k]@,
        ) || carries(file_views(store.personal@), ids@[k]@),
{
    let id = ids@[k]@;
    let all = crate::text::texts(ids@);
    let out = crate::text::texts(r@);
    assert(all[k] == id);
    assert(all.contains(id));
    crate::lookup_laws::an_id_is_on_disk_where_a_markdown_file_carries_it(
        file_views(store.shared@),
        id,
    );
    crate::lookup_laws::an_id_is_on_disk_where_a_markdown_file_carries_it(
        file_views(store.personal@),
        id,
    );
    if out.contains(id) {
        let l = choose|l: int| 0 <= l < out.len() && out[l] == id;
        assert(r@[l]@ == id);
    }
    if exists|l: int| 0 <= l < r@.len() && (#[trigger] r@[l])@ == id {
        let l = choose|l: int| 0 <= l < r@.len() && (#[trigger] r@[l])@ == id;
        assert(out[l] == id);
    }
}

/// Of the ids that begin with a text, a single one is meant, and of several the
/// very text where it is one of them.
pub proof fn a_beginning_is_completed_to_an_id(
    matches: &[String],
    text: &str,
    r: Result<String, StorageError>,
    k: int,
)
    requires
        call_ensures(resolve_full_id, (matches, text), r),
    ensures
        matches@.len() == 0 ==> misses(r, text@),
        matches@.len() == 1 ==> (r matches Ok(full) && full@ == matches@[0]@),
        0 <= k < matches@.len() && matches@[k]@ == text@ ==> (r matches Ok(full) && full@ == text@),
        matches@.len() > 1 && (forall|l: int|
            0 <= l < matches@.len() ==> (#[trigger] matches@[l])@ != text@) ==> cannot_tell(
            r,
            text@,
            matches@.len(),
        ),
{
    let found = crate::text::texts(matches@);
    if 0 <= k < matches@.len() && matches@[k]@ == text@ {
        assert(found[k] == text@);
    }
    if found.contains(text@) {
        let l = choose|l: int| 0 <= l < found.len() && found[l] == text@;
        assert(matches@[l]@ == text@);
    }
}

// ---------------------------------------------------------------------------
// Writing
// ---------------------------------------------------------------------------

/// Creating a memory writes its file first. Where the id is known every other file
/// with that id goes, wherever it lies, and where it is not known nothing goes.
pub proof fn a_creation_sweeps_the_other_files_of_its_id(
    store: &MemoryStore,
    id: &str,
    path: &FilePath,
    known: bool,
    r: Vec<Step>,
    p: Seq<PartView>,
)
    requires
        call_ensures(MemoryStore::create, (store, id, path, known), r),
    ensures
        r@.len() > 0,
        r@[0]@ == StepView::Write(path@),
        step_views(r@).contains(StepView::Remove(p)) <==> known && p != path@ && exists|f: FileView|
            f.path == p && f.id == id@ && (#[trigger] file_views(store.shared@).contains(f)
                || file_views(store.personal@).contains(f)),
{
    crate::lookup_laws::creating_writes_first_and_sweeps_the_id(
        file_views(store.shared@),
        file_views(store.personal@),
        id@,
        path@,
        known,
        p,
    );
    assert(step_views(r@)[0] == r@[0]@);
}

/// Updating a memory writes its file first and then removes the other files that
/// its old directory has of it, and no file of another memory.
pub proof fn an_update_replaces_the_files_of_its_memory(
    store: &MemoryStore,
    text: &str,
    old_visibility: Visibility,
    path: &FilePath,
    r: Result<Vec<Step>, StorageError>,
    i: int,
    j: int,
    p: Seq<PartView>,
)
    requires
        call_ensures(MemoryStore::update, (store, text, old_visibility, path), r),
    ensures
        ({
            let files = if old_visibility is Shared {
                file_views(store.shared@)
            } else {
                file_views(store.personal@)
            };
            &&& stands_for(files, text@, i) ==> r is Ok && replaces(r->Ok_0@, files, files[i].id, path@, p)
            &&& none_fits(files, text@) ==> r is Ok && r->Ok_0@.len() == 1 && r->Ok_0@[0]@
                == StepView::Write(path@)
            &&& fits_several(files, text@, i, j) ==> cannot_tell(
                r,
                text@,
                memories_that_fit(files, text@),
            )
        }),
{
    let files = if old_visibility is Shared {
        file_views(store.shared@)
    } else {
        file_views(store.personal@)
    };
    let found = crate::store::located(files, text@);
    if found is Some {
        let old = found->0;
        let steps = step_views(r->Ok_0@);
        let other = |f: FileView| f.path != path@;
        let kept = old.filter(other);
        assert(steps == crate::writes::replacement(path@, old));
        assert(steps[0] == r->Ok_0@[0]@);
        if stands_for(files, text@, i) {
            if steps.contains(StepView::Remove(p)) {
                let k = choose|k: int| 0 <= k < steps.len() && steps[k] == StepView::Remove(p);
                let f = kept[k - 1];
                assert(kept.contains(f));
                crate::seqs::lemma_filter_contains(old, other, f);
                crate::lookup_laws::a_text_stands_for_the_files_of_one_memory(
                    files,
                    text@,
                    i,
                    i,
                    f,
                );
                assert(f.path == p && f.id == files[i].id && files.contains(f));
            }
            if p != path@ && exists|f: FileView|
                f.path == p && f.id == files[i].id && #[trigger] files.contains(f) {
                let f = choose|f: FileView|
                    f.path == p && f.id == files[i].id && #[trigger] files.contains(f);
                crate::lookup_laws::a_text_stands_for_the_files_of_one_memory(
                    files,
                    text@,
                    i,
                    i,
                    f,
                );
                crate::seqs::lemma_filter_contains(old, other, f);
                let k = choose|k: int| 0 <= k < kept.len() && kept[k] == f;
                assert(steps[k + 1] == StepView::Remove(p));
            }
        }
    }
    crate::lookup_laws::a_text_stands_for_the_files_of_one_memory(
        files,
        text@,
        i,
        j,
        FileView { path: p, id: text@, modified: crate::time::Timestamp { secs: 0, nanos: 0 } },
    );
    if none_fits(files, text@) {
        let other = |f: FileView| f.path != path@;
        crate::seqs::lemma_filter_all(Seq::<FileView>::empty(), other);
    }
    if fits_several(files, text@, i, j) {
        crate::lookup_laws::a_directory_is_searched_by_beginnings(files, text@, i, j);
    }
}

/// That steps write a path first and remove exactly the other paths of a memory.
pub open spec fn replaces(
    steps: Seq<Step>,
    files: Seq<FileView>,
    id: Seq<char>,
    path: Seq<PartView>,
    p: Seq<PartView>,
) -> bool {
    &&& steps.len() > 0
    &&& steps[0]@ == StepView::Write(path)
    &&& step_views(steps).contains(StepView::Remove(p)) <==> p != path && exists|f: FileView|
        f.path == p && f.id == id && #[trigger] files.contains(f)
}

/// Deleting takes every file of one memory and no file of another.
pub proof fn a_deletion_takes_the_files_of_one_memory(
    store: &MemoryStore,
    text: &str,
    r: Result<Vec<MemoryFile>, StorageError>,
    i: int,
    f: FileView,
)
    requires
        call_ensures(MemoryStore::delete, (store, text), r),
    ensures
        ({
            let shared = file_views(store.shared@);
            let personal = file_views(store.personal@);
            &&& stands_for(shared, text@, i) ==> r is Ok && (file_views(r->Ok_0@).contains(f)
                <==> shared.contains(f) && f.id == shared[i].id)
            &&& none_fits(shared, text@) && stands_for(personal, text@, i) ==> r is Ok && (
            file_views(r->Ok_0@).contains(f) <==> personal.contains(f) && f.id == personal[i].id)
            &&& none_fits(shared, text@) && none_fits(personal, text@) <==> misses(r, text@)
        }),
{
    crate::lookup_laws::deleting_takes_every_file_of_one_memory(
        file_views(store.shared@),
        file_views(store.personal@),
        text@,
        i,
        f,
    );
}

// ---------------------------------------------------------------------------
// The index
// ---------------------------------------------------------------------------

/// That a memory of an id has a file.
pub open spec fn has_file(files: Seq<ParsedFile>, id: Seq<char>) -> bool {
    exists|i: int| 0 <= i < files.len() && (#[trigger] files[i]).memory.id@ == id
}

/// A rebuild leaves out no memory and invents none: every file's memory has a row,
/// and every row is that of the newest file of its memory.
pub proof fn a_rebuild_indexes_every_memory(
    shared: Vec<ParsedFile>,
    personal: Vec<ParsedFile>,
    chunk_ids: &[String],
    foreign_checkout: bool,
    force_schema_reset: bool,
    r: Reindex,
    id: Seq<char>,
    k: int,
)
    requires
        call_ensures(
            MemoryStore::reindex_with,
            (shared, personal, chunk_ids, foreign_checkout, force_schema_reset),
            r,
        ),
    ensures
        has_file(shared@, id) || has_file(personal@, id) <==> exists|l: int|
            0 <= l < r.rows@.len() && (#[trigger] r.rows@[l]).id@ == id,
        0 <= k < r.rows@.len() ==> is_row_of_the_newest(
            r.rows@[k]@,
            shared@,
            Visibility::Shared,
            crate::text::texts(chunk_ids@).to_set(),
        ) || is_row_of_the_newest(
            r.rows@[k]@,
            personal@,
            Visibility::Personal,
            crate::text::texts(chunk_ids@).to_set(),
        ),
        r.rows@.len() + r.stale@.len() == shared@.len() + personal@.len(),
{
    let chunks = crate::text::texts(chunk_ids@).to_set();
    let a = crate::reindex::rows_of(shared@, Visibility::Shared, chunks);
    let b = crate::reindex::rows_of(personal@, Visibility::Personal, chunks);
    let rows = crate::reindex::row_views(r.rows@);
    assert(rows == a + b);
    crate::index_laws::an_id_is_indexed_where_a_file_holds_its_memory(
        shared@,
        personal@,
        chunks,
        id,
    );
    if crate::reindex::is_indexed(rows, id) {
        let l = choose|l: int| 0 <= l < rows.len() && (#[trigger] rows[l]).id == id;
        assert(r.rows@[l].id@ == id);
    }
    if exists|l: int| 0 <= l < r.rows@.len() && (#[trigger] r.rows@[l]).id@ == id {
        let l = choose|l: int| 0 <= l < r.rows@.len() && (#[trigger] r.rows@[l]).id@ == id;
        assert(rows[l].id == id);
    }
    if 0 <= k < r.rows@.len() {
        assert(rows[k] == r.rows@[k]@);
        if k < a.len() {
            crate::index_laws::every_row_is_of_the_newest_file(
                shared@,
                Visibility::Shared,
                chunks,
                k,
            );
        } else {
            crate::index_laws::every_row_is_of_the_newest_file(
                personal@,
                Visibility::Personal,
                chunks,
                k - a.len(),
            );
            assert(rows[k] == b[k - a.len()]);
        }
    }
    let none = Seq::<PartView>::empty();
    crate::index_laws::a_rebuild_removes_only_older_files(
        shared@,
        Visibility::Shared,
        chunks,
        none,
    );
    crate::index_laws::a_rebuild_removes_only_older_files(
        personal@,
        Visibility::Personal,
        chunks,
        none,
    );
    assert(crate::reindex::path_views(r.stale@).len() == r.stale@.len());
}

/// A rebuild drops the vectors of exactly the ids without a file, and none while
/// another checkout shares the index. The index is cleared first unless another
/// checkout shares it and its schema is as it should be.
pub proof fn a_rebuild_drops_the_vectors_without_a_file(
    shared: Vec<ParsedFile>,
    personal: Vec<ParsedFile>,
    chunk_ids: &[String],
    foreign_checkout: bool,
    force_schema_reset: bool,
    r: Reindex,
    k: int,
)
    requires
        call_ensures(
            MemoryStore::reindex_with,
            (shared, personal, chunk_ids, foreign_checkout, force_schema_reset),
            r,
        ),
        0 <= k < chunk_ids@.len(),
    ensures
        foreign_checkout ==> r.orphans@.len() == 0,
        !foreign_checkout ==> ((exists|l: int|
            0 <= l < r.orphans@.len() && (#[trigger] r.orphans@[l])@ == chunk_ids@[k]@)
            <==> !has_file(shared@, chunk_ids@[k]@) && !has_file(personal@, chunk_ids@[k]@)),
        !r.clear <==> foreign_checkout && !force_schema_reset,
{
    let id = chunk_ids@[k]@;
    let all = crate::text::texts(chunk_ids@);
    let out = crate::text::texts(r.orphans@);
    let a = crate::reindex::rows_of(shared@, Visibility::Shared, all.to_set());
    let b = crate::reindex::rows_of(personal@, Visibility::Personal, all.to_set());
    let lost = |id: Seq<char>| !crate::reindex::is_indexed(a + b, id);
    assert(out.len() == r.orphans@.len());
    assert(all[k] == id);
    crate::index_laws::an_id_is_indexed_where_a_file_holds_its_memory(
        shared@,
        personal@,
        all.to_set(),
        id,
    );
    crate::seqs::lemma_filter_contains(all, lost, id);
    if !foreign_checkout {
        assert(out =~= all.filter(lost));
        if out.contains(id) {
            let l = choose|l: int| 0 <= l < out.len() && out[l] == id;
            assert(r.orphans@[l]@ == id);
        }
        if exists|l: int| 0 <= l < r.orphans@.len() && (#[trigger] r.orphans@[l])@ == id {
            let l = choose|l: int| 0 <= l < r.orphans@.len() && (#[trigger] r.orphans@[l])@ == id;
            assert(out[l] == id);
        }
    }
}

/// The index is called stale exactly where it has another number of memories than
/// the directories have Markdown files, and never while another checkout shares it.
pub proof fn an_index_is_stale_where_the_numbers_differ(
    md_count: usize,
    lance_count: usize,
    checkout_conflict: bool,
    r: Option<String>,
)
    requires
        call_ensures(staleness_message, (md_count, lance_count, checkout_conflict), r),
    ensures
        r is Some <==> md_count != lance_count && !checkout_conflict,
        r matches Some(t) ==> t@ == "Index may be stale ("@ + crate::text::decimal(
            md_count as nat,
        ) + " memories on disk, "@ + crate::text::decimal(lance_count as nat)
            + " indexed). Run 'engramdb reindex' to rebuild."@,
{
}

/// The Markdown files of both directories are counted, and no other files.
pub proof fn staleness_is_judged_by_the_markdown_files(
    store: &MemoryStore,
    indexed: usize,
    checkout_conflict: bool,
    r: Option<String>,
)
    requires
        call_ensures(MemoryStore::check_staleness, (store, indexed, checkout_conflict), r),
        forall|k: int|
            0 <= k < store.shared@.len() ==> has_markdown_name((#[trigger] store.shared@[k])@),
        forall|k: int|
            0 <= k < store.personal@.len() ==> !has_markdown_name((#[trigger] store.personal@[k])@),
    ensures
        r is Some <==> store.shared@.len() != indexed && !checkout_conflict,
{
    let md = |f: FileView| crate::path::is_markdown_path(f.path);
    let shared = file_views(store.shared@);
    let personal = file_views(store.personal@);
    assert forall|k: int| 0 <= k < shared.len() implies md(#[trigger] shared[k]) by {
        assert(has_markdown_name(store.shared@[k]@));
        crate::lookup_laws::lemma_markdown_name(shared[k]);
    }
    crate::seqs::lemma_filter_all(shared, md);
    let left = personal.filter(md);
    assert(left.len() == 0) by {
        if left.len() > 0 {
            assert(left.contains(left[0]));
            crate::seqs::lemma_filter_contains(personal, md, left[0]);
            let k = choose|k: int| 0 <= k < personal.len() && personal[k] == left[0];
            assert(!has_markdown_name(store.personal@[k]@));
            crate::lookup_laws::lemma_markdown_name(personal[k]);
        }
    }
}

/// A store of all projects has no conflict of checkouts, and any other has the one
/// that is registered.
pub proof fn a_conflict_is_what_is_registered(
    store: &MemoryStore,
    global_project_id: &str,
    registered: Option<FilePath>,
    r: Option<FilePath>,
)
    requires
        call_ensures(MemoryStore::checkout_conflict, (store, global_project_id, registered), r),
    ensures
        store.project_id@ == global_project_id@ ==> r is None,
        store.project_id@ != global_project_id@ ==> r == registered,
{
}

/// Shared memories lie in the project's own directory, personal ones where the
/// user's lie.
pub proof fn memories_lie_where_their_visibility_puts_them(
    store: &MemoryStore,
    visibility: Visibility,
    personal_dir: &FilePath,
    r: FilePath,
)
    requires
        call_ensures(MemoryStore::get_memories_dir, (store, visibility, personal_dir), r),
    ensures
        visibility is Shared ==> r@ == store.project_dir@ + seq![
            PartView::Name(".engramdb"@),
            PartView::Name("memories"@),
        ],
        visibility is Personal ==> r@ == personal_dir@,
{
}

} // verus!
