//! What a text finds among the files of a store.

use crate::path::PartView;
use crate::store::{
    age_and_place, exact, hits, holds_id, ids_of, is_batch_path, is_newest, located, lookup,
    lookup_both, newer, on_disk, wins_batch, FileView, Lookup,
};
use crate::store_laws::{an_exact_id_beats_every_prefix, some_file_is_the_newest};
use crate::writes::{creation, deletion, Deletion, StepView};
use vstd::prelude::*;

verus! {

/// Whether the path is that of the newest file with an id: none with that id was
/// modified later, and of those modified at once none has a greater path.
pub open spec fn is_newest_of(files: Seq<FileView>, id: Seq<char>, path: Seq<PartView>) -> bool {
    exists|k: int|
        {
            &&& 0 <= k < files.len()
            &&& (#[trigger] files[k]).id == id
            &&& files[k].path == path
            &&& forall|j: int|
                0 <= j < files.len() && (#[trigger] files[j]).id == id ==> {
                    &&& files[j].modified.secs <= files[k].modified.secs
                    &&& files[j].modified.secs == files[k].modified.secs
                        ==> files[j].modified.nanos <= files[k].modified.nanos
                    &&& files[j].modified == files[k].modified ==> !crate::path::path_less(
                        path,
                        files[j].path,
                    )
                }
        }
}

/// Whether no file's id begins with the text.
pub open spec fn none_fits(files: Seq<FileView>, text: Seq<char>) -> bool {
    forall|k: int| 0 <= k < files.len() ==> !text.is_prefix_of((#[trigger] files[k]).id)
}

/// Whether the text begins the id of the file at `i`, and no other id.
pub open spec fn only_fits(files: Seq<FileView>, text: Seq<char>, i: int) -> bool {
    &&& 0 <= i < files.len()
    &&& text.is_prefix_of(files[i].id)
    &&& forall|k: int|
        0 <= k < files.len() && text.is_prefix_of((#[trigger] files[k]).id) ==> files[k].id
            == files[i].id
}

/// Whether the text begins the ids of two files that are not of one memory, and
/// is no file's id.
pub open spec fn fits_several(files: Seq<FileView>, text: Seq<char>, i: int, j: int) -> bool {
    &&& 0 <= i < files.len()
    &&& 0 <= j < files.len()
    &&& text.is_prefix_of(files[i].id)
    &&& text.is_prefix_of(files[j].id)
    &&& files[i].id != files[j].id
    &&& forall|k: int| 0 <= k < files.len() ==> (#[trigger] files[k]).id != text
}

/// The number of memories whose ids begin with the text.
pub open spec fn memories_that_fit(files: Seq<FileView>, text: Seq<char>) -> nat {
    files.filter(|f: FileView| text.is_prefix_of(f.id)).map_values(
        |f: FileView| f.id,
    ).to_set().len()
}

// ---------------------------------------------------------------------------
// One directory
// ---------------------------------------------------------------------------

proof fn lemma_contains_id(found: Seq<FileView>, id: Seq<char>)
    ensures
        ids_of(found).contains(id) <==> exists|k: int|
            0 <= k < found.len() && (#[trigger] found[k]).id == id,
{
    let ids = found.map_values(|f: FileView| f.id);
    if ids.contains(id) {
        let k = choose|k: int| 0 <= k < ids.len() && ids[k] == id;
        assert(found[k].id == id);
    }
    if exists|k: int| 0 <= k < found.len() && (#[trigger] found[k]).id == id {
        let k = choose|k: int| 0 <= k < found.len() && (#[trigger] found[k]).id == id;
        assert(ids[k] == id);
    }
}

proof fn lemma_one_id_len(found: Seq<FileView>, id: Seq<char>)
    requires
        forall|k: int| 0 <= k < found.len() ==> (#[trigger] found[k]).id == id,
    ensures
        ids_of(found).len() <= 1,
{
    vstd::seq_lib::seq_to_set_is_finite(found.map_values(|f: FileView| f.id));
    let ids = ids_of(found);
    let one = Set::<Seq<char>>::empty().insert(id);
    assert forall|x: Seq<char>| #[trigger] ids.contains(x) implies one.contains(x) by {
        lemma_contains_id(found, x);
    }
    vstd::set_lib::lemma_len_subset(ids, one);
}

proof fn lemma_two_ids_len(found: Seq<FileView>, i: int, j: int)
    requires
        0 <= i < found.len(),
        0 <= j < found.len(),
        found[i].id != found[j].id,
    ensures
        ids_of(found).len() > 1,
{
    vstd::seq_lib::seq_to_set_is_finite(found.map_values(|f: FileView| f.id));
    let ids = ids_of(found);
    let two = Set::<Seq<char>>::empty().insert(found[i].id).insert(found[j].id);
    lemma_contains_id(found, found[i].id);
    lemma_contains_id(found, found[j].id);
    assert forall|x: Seq<char>| #[trigger] two.contains(x) implies ids.contains(x) by {
    }
    vstd::set_lib::lemma_len_subset(two, ids);
}

proof fn lemma_newest_of(files: Seq<FileView>, found: Seq<FileView>, id: Seq<char>)
    requires
        found.len() > 0,
        forall|f: FileView| #[trigger] found.contains(f) <==> files.contains(f) && f.id == id,
    ensures
        is_newest_of(files, id, crate::store::newest_path(found)),
{
    let m = some_file_is_the_newest(found);
    let n = choose|k: int| is_newest(found, k);
    assert(is_newest(found, n));
    assert(found.contains(found[n]));
    let k = choose|k: int| 0 <= k < files.len() && files[k] == found[n];
    assert(files[k].id == id);
    assert forall|j: int| 0 <= j < files.len() && (#[trigger] files[j]).id == id implies {
        &&& files[j].modified.secs <= files[k].modified.secs
        &&& files[j].modified.secs == files[k].modified.secs ==> files[j].modified.nanos
            <= files[k].modified.nanos
        &&& files[j].modified == files[k].modified ==> !crate::path::path_less(
            files[k].path,
            files[j].path,
        )
    } by {
        assert(files.contains(files[j]));
        assert(found.contains(files[j]));
        let q = choose|q: int| 0 <= q < found.len() && found[q] == files[j];
        assert(!newer(age_and_place(found[q]), age_and_place(found[n])));
    }
}

/// What a text finds in one directory: nothing where it begins no id, the newest
/// file of the memory where it begins the id of one memory only or is an id, and
/// otherwise too much.
pub proof fn a_directory_is_searched_by_beginnings(
    files: Seq<FileView>,
    text: Seq<char>,
    i: int,
    j: int,
)
    ensures
        none_fits(files, text) ==> lookup(files, text) == Lookup::Missing,
        only_fits(files, text, i) ==> (lookup(files, text) matches Lookup::Found(path)
            && is_newest_of(files, files[i].id, path)),
        0 <= i < files.len() && files[i].id == text ==> (lookup(
            files,
            text,
        ) matches Lookup::Found(path) && is_newest_of(files, text, path)),
        fits_several(files, text, i, j) ==> lookup(files, text) == Lookup::Ambiguous(
            memories_that_fit(files, text),
        ),
{
    let fits = |f: FileView| text.is_prefix_of(f.id);
    let same = |f: FileView| f.id == text;
    let found = hits(files, text);
    assert(found == files.filter(fits));
    if none_fits(files, text) {
        if found.len() > 0 {
            assert(found.contains(found[0]));
            crate::seqs::lemma_filter_contains(files, fits, found[0]);
        }
        lemma_one_id_len(found, text);
    }
    if only_fits(files, text, i) {
        let id = files[i].id;
        assert forall|f: FileView| #[trigger]
            found.contains(f) <==> files.contains(f) && f.id == id by {
            crate::seqs::lemma_filter_contains(files, fits, f);
        }
        assert forall|k: int| 0 <= k < found.len() implies (#[trigger] found[k]).id == id by {
            assert(found.contains(found[k]));
        }
        assert(files.contains(files[i]));
        assert(found.contains(files[i]));
        lemma_one_id_len(found, id);
        lemma_newest_of(files, found, id);
    }
    if 0 <= i < files.len() && files[i].id == text {
        an_exact_id_beats_every_prefix(files, text, i);
        let those = exact(files, text);
        assert forall|f: FileView| #[trigger]
            those.contains(f) <==> files.contains(f) && f.id == text by {
            crate::seqs::lemma_filter_contains(files, same, f);
        }
        lemma_newest_of(files, those, text);
    }
    if fits_several(files, text, i, j) {
        crate::seqs::lemma_filter_contains(files, fits, files[i]);
        crate::seqs::lemma_filter_contains(files, fits, files[j]);
        assert(files.contains(files[i]) && files.contains(files[j]));
        let a = choose|a: int| 0 <= a < found.len() && found[a] == files[i];
        let b = choose|b: int| 0 <= b < found.len() && found[b] == files[j];
        lemma_two_ids_len(found, a, b);
        lemma_contains_id(found, text);
        if ids_of(found).contains(text) {
            let k = choose|k: int| 0 <= k < found.len() && (#[trigger] found[k]).id == text;
            assert(found.contains(found[k]));
            crate::seqs::lemma_filter_contains(files, fits, found[k]);
        }
    }
}

/// Which files of a directory a text stands for: those of the memory with that
/// very id, else all whose ids begin with it, where these are of one memory.
pub proof fn a_text_stands_for_the_files_of_one_memory(
    files: Seq<FileView>,
    text: Seq<char>,
    i: int,
    j: int,
    f: FileView,
)
    ensures
        none_fits(files, text) ==> located(files, text) == Some(Seq::<FileView>::empty()),
        only_fits(files, text, i) ==> (located(files, text) matches Some(found) && (
        found.contains(f) <==> files.contains(f) && f.id == files[i].id)),
        0 <= i < files.len() && files[i].id == text ==> (located(
            files,
            text,
        ) matches Some(found) && (found.contains(f) <==> files.contains(f) && f.id == text)),
        fits_several(files, text, i, j) ==> located(files, text) is None,
{
    let fits = |f: FileView| text.is_prefix_of(f.id);
    let same = |f: FileView| f.id == text;
    let found = hits(files, text);
    a_directory_is_searched_by_beginnings(files, text, i, j);
    crate::seqs::lemma_filter_contains(files, fits, f);
    if none_fits(files, text) {
        if found.len() > 0 {
            assert(found.contains(found[0]));
            crate::seqs::lemma_filter_contains(files, fits, found[0]);
        }
        lemma_one_id_len(found, text);
        assert(found =~= Seq::empty());
    }
    if only_fits(files, text, i) {
        assert forall|k: int| 0 <= k < found.len() implies (#[trigger] found[k]).id
            == files[i].id by {
            assert(found.contains(found[k]));
            crate::seqs::lemma_filter_contains(files, fits, found[k]);
        }
        lemma_one_id_len(found, files[i].id);
    }
    if 0 <= i < files.len() && files[i].id == text {
        an_exact_id_beats_every_prefix(files, text, i);
        crate::seqs::lemma_filter_contains(files, same, f);
    }
}

// ---------------------------------------------------------------------------
// Both directories
// ---------------------------------------------------------------------------

/// A shared memory is found by its id and by every beginning of it that begins no
/// other shared id, whatever the personal directory holds.
pub proof fn a_shared_memory_is_found_by_any_beginning_of_its_id(
    shared: Seq<FileView>,
    personal: Seq<FileView>,
    text: Seq<char>,
    i: int,
)
    requires
        only_fits(shared, text, i) || (0 <= i < shared.len() && shared[i].id == text),
    ensures
        lookup_both(shared, personal, text) matches Lookup::Found(path) && is_newest_of(
            shared,
            shared[i].id,
            path,
        ),
{
    a_directory_is_searched_by_beginnings(shared, text, i, i);
}

/// A personal memory is found by its id and by every beginning of it that begins
/// no other personal id, where it begins no shared id.
pub proof fn a_personal_memory_is_found_by_any_beginning_of_its_id(
    shared: Seq<FileView>,
    personal: Seq<FileView>,
    text: Seq<char>,
    i: int,
)
    requires
        none_fits(shared, text),
        only_fits(personal, text, i) || (0 <= i < personal.len() && personal[i].id == text),
    ensures
        lookup_both(shared, personal, text) matches Lookup::Found(path) && is_newest_of(
            personal,
            personal[i].id,
            path,
        ),
{
    a_directory_is_searched_by_beginnings(shared, text, i, i);
    a_directory_is_searched_by_beginnings(personal, text, i, i);
}

/// Nothing is found exactly where the text begins no id in either directory.
pub proof fn only_what_is_nowhere_is_missing(
    shared: Seq<FileView>,
    personal: Seq<FileView>,
    text: Seq<char>,
)
    ensures
        lookup_both(shared, personal, text) == Lookup::Missing <==> none_fits(shared, text)
            && none_fits(personal, text),
{
    a_directory_is_searched_by_beginnings(shared, text, 0, 0);
    a_directory_is_searched_by_beginnings(personal, text, 0, 0);
    if !none_fits(shared, text) {
        lemma_something_fits(shared, text);
    } else if !none_fits(personal, text) {
        lemma_something_fits(personal, text);
    }
}

proof fn lemma_something_fits(files: Seq<FileView>, text: Seq<char>)
    requires
        !none_fits(files, text),
    ensures
        lookup(files, text) != Lookup::Missing,
{
    let fits = |f: FileView| text.is_prefix_of(f.id);
    let same = |f: FileView| f.id == text;
    let i = choose|i: int| 0 <= i < files.len() && text.is_prefix_of((#[trigger] files[i]).id);
    let found = hits(files, text);
    assert(files.contains(files[i]));
    crate::seqs::lemma_filter_contains(files, fits, files[i]);
    if ids_of(found).len() > 1 && ids_of(found).contains(text) {
        lemma_contains_id(found, text);
        let k = choose|k: int| 0 <= k < found.len() && (#[trigger] found[k]).id == text;
        assert(found.contains(found[k]));
        crate::seqs::lemma_filter_contains(found, same, found[k]);
    }
}

/// A text that begins the ids of several memories of the directory that answers,
/// and is none of them, is refused with their number.
pub proof fn an_ambiguous_text_is_refused(
    shared: Seq<FileView>,
    personal: Seq<FileView>,
    text: Seq<char>,
    i: int,
    j: int,
)
    ensures
        fits_several(shared, text, i, j) ==> lookup_both(shared, personal, text)
            == Lookup::Ambiguous(memories_that_fit(shared, text)),
        none_fits(shared, text) && fits_several(personal, text, i, j) ==> lookup_both(
            shared,
            personal,
            text,
        ) == Lookup::Ambiguous(memories_that_fit(personal, text)),
{
    a_directory_is_searched_by_beginnings(shared, text, i, j);
    a_directory_is_searched_by_beginnings(personal, text, i, j);
}

// ---------------------------------------------------------------------------
// Many at once
// ---------------------------------------------------------------------------

/// Whether the name of a file ends in `.md`, with something before it.
pub open spec fn has_markdown_name(f: FileView) -> bool {
    f.path.len() > 0 && (f.path.last() matches PartView::Name(n) && n.len() > 3 && n[n.len() - 3]
        == '.' && n[n.len() - 2] == 'm' && n[n.len() - 1] == 'd')
}

pub(crate) proof fn lemma_markdown_name(f: FileView)
    ensures
        crate::path::is_markdown_path(f.path) == has_markdown_name(f),
{
    reveal_strlit(".md");
    if f.path.len() > 0 {
        match f.path.last() {
            PartView::Name(n) => {
                if n.len() > 3 {
                    let tail = n.subrange(n.len() - 3, n.len() as int);
                    assert(tail.len() == 3);
                    assert(tail[0] == n[n.len() - 3] && tail[1] == n[n.len() - 2] && tail[2]
                        == n[n.len() - 1]);
                    if has_markdown_name(f) {
                        assert(tail =~= ".md"@);
                    }
                }
            },
            _ => {},
        }
    }
}

/// An id is on disk exactly where a Markdown file of the directory carries it.
pub proof fn an_id_is_on_disk_where_a_markdown_file_carries_it(
    files: Seq<FileView>,
    id: Seq<char>,
)
    ensures
        on_disk(files, id) <==> exists|i: int|
            0 <= i < files.len() && (#[trigger] files[i]).id == id && has_markdown_name(files[i]),
{
    if on_disk(files, id) {
        let i = choose|i: int| holds_id(files, id, i);
        lemma_markdown_name(files[i]);
        assert(files[i].id == id && has_markdown_name(files[i]));
    }
    if exists|i: int|
        0 <= i < files.len() && (#[trigger] files[i]).id == id && has_markdown_name(files[i]) {
        let i = choose|i: int|
            0 <= i < files.len() && (#[trigger] files[i]).id == id && has_markdown_name(files[i]);
        lemma_markdown_name(files[i]);
        assert(holds_id(files, id, i));
    }
}

/// Whether a Markdown file carries the id.
pub open spec fn carries(files: Seq<FileView>, id: Seq<char>) -> bool {
    exists|i: int|
        0 <= i < files.len() && (#[trigger] files[i]).id == id && has_markdown_name(files[i])
}

/// Whether the path is that of a Markdown file with the id, after which no other
/// one was modified.
pub open spec fn is_newest_markdown_of(
    files: Seq<FileView>,
    id: Seq<char>,
    path: Seq<PartView>,
) -> bool {
    exists|k: int|
        {
            &&& 0 <= k < files.len()
            &&& (#[trigger] files[k]).id == id
            &&& has_markdown_name(files[k])
            &&& files[k].path == path
            &&& forall|j: int|
                0 <= j < files.len() && (#[trigger] files[j]).id == id && has_markdown_name(
                    files[j],
                ) ==> files[j].modified.secs <= files[k].modified.secs && (files[j].modified.secs
                    == files[k].modified.secs ==> files[j].modified.nanos
                    <= files[k].modified.nanos)
        }
}

/// A batch reads for an id that is on disk a Markdown file with exactly that id,
/// a shared one where there is one, and none that was modified before another.
pub proof fn a_batch_reads_the_newest_file_of_an_id(
    shared: Seq<FileView>,
    personal: Seq<FileView>,
    id: Seq<char>,
    path: Seq<PartView>,
)
    requires
        is_batch_path(shared, personal, id, path),
        on_disk(shared, id) || on_disk(personal, id),
    ensures
        carries(shared, id) ==> is_newest_markdown_of(shared, id, path),
        !carries(shared, id) ==> is_newest_markdown_of(personal, id, path),
{
    an_id_is_on_disk_where_a_markdown_file_carries_it(shared, id);
    an_id_is_on_disk_where_a_markdown_file_carries_it(personal, id);
    let files = if on_disk(shared, id) {
        shared
    } else {
        personal
    };
    let k = choose|k: int| #[trigger] wins_batch(files, id, k) && path == files[k].path;
    assert(wins_batch(files, id, k));
    assert(holds_id(files, id, k));
    lemma_markdown_name(files[k]);
    assert forall|j: int|
        0 <= j < files.len() && (#[trigger] files[j]).id == id && has_markdown_name(
            files[j],
        ) implies files[j].modified.secs <= files[k].modified.secs && (files[j].modified.secs
        == files[k].modified.secs ==> files[j].modified.nanos <= files[k].modified.nanos) by {
        lemma_markdown_name(files[j]);
        assert(holds_id(files, id, j));
        assert(!newer(age_and_place(files[j]), age_and_place(files[k])));
    }
    assert(files[k].id == id && files[k].path == path);
}

// ---------------------------------------------------------------------------
// Deleting and creating
// ---------------------------------------------------------------------------

/// Deleting takes every file of the memory that the text stands for, and no other
/// file: of a shared memory where the text begins a shared id, else of a personal
/// one. It fails exactly where a read of the text would.
pub proof fn deleting_takes_every_file_of_one_memory(
    shared: Seq<FileView>,
    personal: Seq<FileView>,
    text: Seq<char>,
    i: int,
    f: FileView,
)
    ensures
        only_fits(shared, text, i) || (0 <= i < shared.len() && shared[i].id == text) ==> (deletion(
            shared,
            personal,
            text,
        ) matches Deletion::Files(found) && (found.contains(f) <==> shared.contains(f) && f.id
            == shared[i].id)),
        none_fits(shared, text) && (only_fits(personal, text, i) || (0 <= i < personal.len()
            && personal[i].id == text)) ==> (deletion(
            shared,
            personal,
            text,
        ) matches Deletion::Files(found) && (found.contains(f) <==> personal.contains(f) && f.id
            == personal[i].id)),
        none_fits(shared, text) && none_fits(personal, text) <==> deletion(
            shared,
            personal,
            text,
        ) == Deletion::Missing,
        deletion(shared, personal, text) is Ambiguous <==> lookup_both(
            shared,
            personal,
            text,
        ) is Ambiguous,
{
    a_text_stands_for_the_files_of_one_memory(shared, text, i, i, f);
    a_text_stands_for_the_files_of_one_memory(personal, text, i, i, f);
    only_what_is_nowhere_is_missing(shared, personal, text);
    if 0 <= i < shared.len() {
        a_text_stands_for_the_files_of_one_memory(shared, text, i, i, shared[i]);
        assert(shared.contains(shared[i]));
    }
    if 0 <= i < personal.len() {
        a_text_stands_for_the_files_of_one_memory(personal, text, i, i, personal[i]);
        assert(personal.contains(personal[i]));
    }
    a_text_stands_for_the_files_of_one_memory(shared, text, 0, 0, f);
    a_text_stands_for_the_files_of_one_memory(personal, text, 0, 0, f);
}

/// Creating a memory writes its file first, and exactly once. Where the id is
/// known it then removes every other file with that very id, in both directories,
/// and nothing else; where it is not, it removes nothing.
pub proof fn creating_writes_first_and_sweeps_the_id(
    shared: Seq<FileView>,
    personal: Seq<FileView>,
    id: Seq<char>,
    path: Seq<PartView>,
    known: bool,
    p: Seq<PartView>,
)
    ensures
        creation(shared, personal, id, path, known).len() > 0,
        creation(shared, personal, id, path, known)[0] == StepView::Write(path),
        forall|k: int|
            0 < k < creation(shared, personal, id, path, known).len() ==> #[trigger] creation(
                shared,
                personal,
                id,
                path,
                known,
            )[k] is Remove,
        creation(shared, personal, id, path, known).contains(StepView::Remove(p)) <==> known && p
            != path && exists|f: FileView|
            f.path == p && f.id == id && (#[trigger] shared.contains(f) || personal.contains(f)),
{
    let steps = creation(shared, personal, id, path, known);
    let same = |f: FileView| f.id == id;
    let other = |f: FileView| f.path != path;
    let old = exact(shared, id) + exact(personal, id);
    let kept = old.filter(other);
    let gone = StepView::Remove(p);
    if known && steps.contains(gone) {
        let k = choose|k: int| 0 <= k < steps.len() && steps[k] == gone;
        let f = kept[k - 1];
        assert(kept.contains(f));
        crate::seqs::lemma_filter_contains(old, other, f);
        let m = choose|m: int| 0 <= m < old.len() && old[m] == f;
        if m < exact(shared, id).len() {
            assert(exact(shared, id).contains(exact(shared, id)[m]));
        } else {
            let n = m - exact(shared, id).len();
            assert(exact(personal, id).contains(exact(personal, id)[n]));
        }
        crate::seqs::lemma_filter_contains(shared, same, f);
        crate::seqs::lemma_filter_contains(personal, same, f);
        assert(f.path == p);
        assert(shared.contains(f) || personal.contains(f));
    }
    if known && p != path && exists|f: FileView|
        f.path == p && f.id == id && (#[trigger] shared.contains(f) || personal.contains(f)) {
        let f = choose|f: FileView|
            f.path == p && f.id == id && (#[trigger] shared.contains(f) || personal.contains(f));
        crate::seqs::lemma_filter_contains(shared, same, f);
        crate::seqs::lemma_filter_contains(personal, same, f);
        if shared.contains(f) {
            let k = choose|k: int| 0 <= k < exact(shared, id).len() && exact(shared, id)[k] == f;
            assert(old[k] == f);
        } else {
            let k = choose|k: int|
                0 <= k < exact(personal, id).len() && exact(personal, id)[k] == f;
            assert(old[exact(shared, id).len() + k] == f);
        }
        crate::seqs::lemma_filter_contains(old, other, f);
        let k = choose|k: int| 0 <= k < kept.len() && kept[k] == f;
        assert(steps[k + 1] == gone);
    }
}

} // verus!
