//! What the index holds after it was rebuilt from the memory files.

use crate::batches::RowView;
use crate::memory::Visibility;
use crate::path::PartView;
use crate::reindex::{
    a_directory_is_indexed_once_per_memory, every_file_is_indexed_or_removed, is_indexed,
    is_kept, kept, paths_of, rows_of, same_memory, stale, the_newest_file_is_indexed, ParsedFile,
};
use vstd::prelude::*;

verus! {

/// Whether the row is that of the memory's newest file in a directory, whatever
/// else the memory is.
pub open spec fn is_row_of_the_newest(
    row: RowView,
    files: Seq<ParsedFile>,
    visibility: Visibility,
    chunk_ids: Set<Seq<char>>,
) -> bool {
    exists|i: int|
        {
            &&& 0 <= i < files.len()
            &&& (#[trigger] files[i]).memory.id@ == row.id
            &&& files[i].digest@ == row.digest
            &&& row.visibility == visibility
            &&& row.has_embedding == chunk_ids.contains(row.id)
            &&& forall|j: int|
                0 <= j < files.len() && (#[trigger] files[j]).memory.id@ == row.id ==> {
                    &&& files[j].modified.secs <= files[i].modified.secs
                    &&& files[j].modified.secs == files[i].modified.secs
                        ==> files[j].modified.nanos <= files[i].modified.nanos
                }
        }
}

/// Every memory file of a directory has a row with its memory's id, and no two
/// rows have one id: a directory has as many rows as memories.
pub proof fn every_memory_has_exactly_one_row(
    files: Seq<ParsedFile>,
    visibility: Visibility,
    chunk_ids: Set<Seq<char>>,
    i: int,
) -> (k: int)
    requires
        0 <= i < files.len(),
    ensures
        0 <= k < rows_of(files, visibility, chunk_ids).len(),
        rows_of(files, visibility, chunk_ids)[k].id == files[i].memory.id@,
        forall|l: int|
            0 <= l < rows_of(files, visibility, chunk_ids).len() && (#[trigger] rows_of(
                files,
                visibility,
                chunk_ids,
            )[l]).id == files[i].memory.id@ ==> l == k,
{
    let rows = rows_of(files, visibility, chunk_ids);
    let k = a_directory_is_indexed_once_per_memory(files, i);
    assert(rows[k].id == kept(files)[k].memory.id@);
    assert forall|l: int|
        0 <= l < rows.len() && (#[trigger] rows[l]).id == files[i].memory.id@ implies l == k by {
        assert(same_memory(kept(files)[l], files[i]));
    }
    k
}

/// Every row is that of the newest file of a memory of the directory.
pub proof fn every_row_is_of_the_newest_file(
    files: Seq<ParsedFile>,
    visibility: Visibility,
    chunk_ids: Set<Seq<char>>,
    k: int,
)
    requires
        0 <= k < rows_of(files, visibility, chunk_ids).len(),
    ensures
        is_row_of_the_newest(
            rows_of(files, visibility, chunk_ids)[k],
            files,
            visibility,
            chunk_ids,
        ),
{
    let want = |k: int| is_kept(files, k);
    let places = crate::seqs::lemma_selected_places(files, want);
    let i = places[k];
    let row = rows_of(files, visibility, chunk_ids)[k];
    assert(kept(files)[k] == files[i]);
    assert(files[i].memory.id@ == row.id);
    assert forall|j: int| 0 <= j < files.len() && (#[trigger] files[j]).memory.id@ == row.id implies {
        &&& files[j].modified.secs <= files[i].modified.secs
        &&& files[j].modified.secs == files[i].modified.secs ==> files[j].modified.nanos
            <= files[i].modified.nanos
    } by {
        the_newest_file_is_indexed(files, k, j);
    }
}

/// An id is indexed exactly where a file of one of the directories carries its
/// memory; so no memory with a file loses its vectors, and one without does.
pub proof fn an_id_is_indexed_where_a_file_holds_its_memory(
    shared: Seq<ParsedFile>,
    personal: Seq<ParsedFile>,
    chunk_ids: Set<Seq<char>>,
    id: Seq<char>,
)
    ensures
        is_indexed(
            rows_of(shared, Visibility::Shared, chunk_ids) + rows_of(
                personal,
                Visibility::Personal,
                chunk_ids,
            ),
            id,
        ) <==> (exists|i: int| 0 <= i < shared.len() && (#[trigger] shared[i]).memory.id@ == id)
            || (exists|i: int|
            0 <= i < personal.len() && (#[trigger] personal[i]).memory.id@ == id),
{
    let a = rows_of(shared, Visibility::Shared, chunk_ids);
    let b = rows_of(personal, Visibility::Personal, chunk_ids);
    let rows = a + b;
    if is_indexed(rows, id) {
        let k = choose|k: int| 0 <= k < rows.len() && (#[trigger] rows[k]).id == id;
        if k < a.len() {
            every_row_is_of_the_newest_file(shared, Visibility::Shared, chunk_ids, k);
        } else {
            let l = k - a.len();
            every_row_is_of_the_newest_file(personal, Visibility::Personal, chunk_ids, l);
            assert(rows[k] == b[l]);
        }
    }
    if exists|i: int| 0 <= i < shared.len() && (#[trigger] shared[i]).memory.id@ == id {
        let i = choose|i: int| 0 <= i < shared.len() && (#[trigger] shared[i]).memory.id@ == id;
        let k = every_memory_has_exactly_one_row(shared, Visibility::Shared, chunk_ids, i);
        assert(rows[k] == a[k]);
    }
    if exists|i: int| 0 <= i < personal.len() && (#[trigger] personal[i]).memory.id@ == id {
        let i = choose|i: int|
            0 <= i < personal.len() && (#[trigger] personal[i]).memory.id@ == id;
        let k = every_memory_has_exactly_one_row(personal, Visibility::Personal, chunk_ids, i);
        assert(rows[a.len() + k] == b[k]);
    }
}

/// A rebuild removes as many files of a directory as it has more than rows, and
/// only files of a memory that keeps a file which was not modified before them.
pub proof fn a_rebuild_removes_only_older_files(
    files: Seq<ParsedFile>,
    visibility: Visibility,
    chunk_ids: Set<Seq<char>>,
    p: Seq<PartView>,
)
    ensures
        paths_of(stale(files)).len() + rows_of(files, visibility, chunk_ids).len() == files.len(),
        paths_of(stale(files)).contains(p) ==> exists|i: int, j: int|
            {
                &&& 0 <= i < files.len()
                &&& 0 <= j < files.len()
                &&& i != j
                &&& (#[trigger] files[i]).path@ == p
                &&& (#[trigger] files[j]).memory.id@ == files[i].memory.id@
                &&& files[i].modified.secs <= files[j].modified.secs
                &&& files[i].modified.secs == files[j].modified.secs ==> files[i].modified.nanos
                    <= files[j].modified.nanos
            },
{
    if files.len() > 0 {
        every_file_is_indexed_or_removed(files, 0);
    }
    if paths_of(stale(files)).contains(p) {
        let lose = |k: int| !is_kept(files, k);
        let want = |k: int| is_kept(files, k);
        let places = crate::seqs::lemma_selected_places(files, lose);
        let paths = paths_of(stale(files));
        let k = choose|k: int| 0 <= k < paths.len() && paths[k] == p;
        let i = places[k];
        assert(lose(i));
        assert(files[i].path@ == p);
        let m = a_directory_is_indexed_once_per_memory(files, i);
        let kept_places = crate::seqs::lemma_selected_places(files, want);
        let j = kept_places[m];
        assert(want(j));
        assert(kept(files)[m] == files[j]);
        the_newest_file_is_indexed(files, m, i);
        assert(files[i].path@ == p && files[j].memory.id@ == files[i].memory.id@);
    }
}

} // verus!
