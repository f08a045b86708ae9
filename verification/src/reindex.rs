//! Rebuilding the index from the memory files.
//!
//! The files are the truth and the index follows them. Where two files carry
//! one memory, the newer one is indexed and the other one removed. Vectors are
//! kept, but for those of memories that have no file any more.

use crate::batches::{collect_texts, IndexRow, RowView};
use crate::memory::{Memory, Visibility};
use crate::path::{FilePath, PartView};
use crate::seqs::{reversed, selected};
use crate::store::{newer, prefers_newer, MemoryStore};
use crate::time::Timestamp;
use vstd::hash_map::StringHashMap;
use vstd::hash_set::StringHashSet;
use vstd::prelude::*;

verus! {

broadcast use vstd::string::group_string_axioms;

/// A memory file that was read.
#[derive(Debug)]
pub struct ParsedFile {
    pub path: FilePath,
    /// When the file was last modified; the epoch where that is unknown.
    pub modified: Timestamp,
    pub memory: Memory,
    /// A digest of the file's contents.
    pub digest: String,
}

/// When a file was modified, and where it is.
pub open spec fn age(f: ParsedFile) -> (Timestamp, Seq<PartView>) {
    (f.modified, f.path@)
}

/// Whether two files carry one memory.
pub open spec fn same_memory(f: ParsedFile, g: ParsedFile) -> bool {
    f.memory.id@ == g.memory.id@
}

/// Whether the file at `k` is the current one of its memory: it is preferred to
/// every other one, and of indistinguishable ones it is the first.
pub open spec fn is_kept(files: Seq<ParsedFile>, k: int) -> bool {
    forall|i: int|
        0 <= i < files.len() && i != k && same_memory(#[trigger] files[i], files[k]) ==> newer(
            age(files[k]),
            age(files[i]),
        ) || (age(files[k]) == age(files[i]) && k < i)
}

/// The current file of each memory.
pub open spec fn kept(files: Seq<ParsedFile>) -> Seq<ParsedFile> {
    selected(files, |k: int| is_kept(files, k))
}

/// The files that are not the current one of their memory.
pub open spec fn stale(files: Seq<ParsedFile>) -> Seq<ParsedFile> {
    selected(files, |k: int| !is_kept(files, k))
}

/// The row for a file of a directory.
pub open spec fn row_of(
    f: ParsedFile,
    visibility: Visibility,
    chunk_ids: Set<Seq<char>>,
) -> RowView {
    RowView {
        id: f.memory.id@,
        visibility,
        digest: f.digest@,
        has_embedding: chunk_ids.contains(f.memory.id@),
    }
}

/// The rows for the current files of a directory.
pub open spec fn rows_of(
    files: Seq<ParsedFile>,
    visibility: Visibility,
    chunk_ids: Set<Seq<char>>,
) -> Seq<RowView> {
    kept(files).map_values(|f: ParsedFile| row_of(f, visibility, chunk_ids))
}

/// The values of rows.
pub open spec fn row_views(rows: Seq<IndexRow>) -> Seq<RowView> {
    Seq::new(rows.len(), |i: int| rows[i]@)
}

/// The values of paths.
pub open spec fn path_views(paths: Seq<FilePath>) -> Seq<Seq<PartView>> {
    Seq::new(paths.len(), |i: int| paths[i]@)
}

/// The paths of files.
pub open spec fn paths_of(files: Seq<ParsedFile>) -> Seq<Seq<PartView>> {
    files.map_values(|f: ParsedFile| f.path@)
}

/// Of two files of one memory at most one is kept.
proof fn lemma_one_is_kept(files: Seq<ParsedFile>, j: int, k: int)
    requires
        0 <= j < files.len(),
        0 <= k < files.len(),
        j != k,
        same_memory(files[j], files[k]),
    ensures
        !(is_kept(files, j) && is_kept(files, k)),
{
    crate::store::preference_is_a_strict_order();
    let lt = |a: (Timestamp, Seq<PartView>), b: (Timestamp, Seq<PartView>)| newer(a, b);
    if is_kept(files, j) && is_kept(files, k) {
        let a = age(files[j]);
        let b = age(files[k]);
        assert(lt(a, b) || (a == b && j < k));
        assert(lt(b, a) || (a == b && k < j));
        assert(!lt(a, a));
        if lt(a, b) && lt(b, a) {
            assert(lt(a, a));
        }
    }
}

/// For each memory the index of its current file.
fn winners(files: &[ParsedFile]) -> (r: StringHashMap<usize>)
    ensures
        forall|id: Seq<char>| #[trigger]
            r@.contains_key(id) ==> r@[id] < files@.len() && files@[r@[id] as int].memory.id@ == id
                && is_kept(files@, r@[id] as int),
        forall|i: int| 0 <= i < files@.len() ==> r@.contains_key((#[trigger] files@[i]).memory.id@),
{
    let ghost all = files@;
    let ghost lt = |a: (Timestamp, Seq<PartView>), b: (Timestamp, Seq<PartView>)| newer(a, b);
    let mut best: StringHashMap<usize> = StringHashMap::new();
    let mut i: usize = 0;
    proof {
        crate::store::preference_is_a_strict_order();
    }
    while i < files.len()
        invariant
            i <= files.len(),
            all == files@,
            lt == (|a: (Timestamp, Seq<PartView>), b: (Timestamp, Seq<PartView>)| newer(a, b)),
            crate::order::strict_total(lt),
            forall|id: Seq<char>| #[trigger]
                best@.contains_key(id) ==> best@[id] < i && all[best@[id] as int].memory.id@ == id
                    && is_kept(all.take(i as int), best@[id] as int),
            forall|j: int| 0 <= j < i ==> best@.contains_key((#[trigger] all[j]).memory.id@),
        decreases files.len() - i,
    {
        let ghost before = best@;
        let ghost old_take = all.take(i as int);
        let ghost new_take = all.take(i + 1);
        let ghost id = all[i as int].memory.id@;
        let replace = match best.get(files[i].memory.id.as_str()) {
            Some(k) => prefers_newer(
                (files[i].modified, &files[i].path),
                (files[*k].modified, &files[*k].path),
            ),
            None => true,
        };
        if replace {
            best.insert(files[i].memory.id.clone(), i);
        }
        proof {
            assert forall|x: Seq<char>| #[trigger] best@.contains_key(x) implies best@[x] < i + 1
                && all[best@[x] as int].memory.id@ == x && is_kept(new_take, best@[x] as int) by {
                let k = best@[x] as int;
                assert forall|m: int|
                    0 <= m < new_take.len() && m != k && same_memory(
                        #[trigger] new_take[m],
                        new_take[k],
                    ) implies newer(age(new_take[k]), age(new_take[m])) || (age(new_take[k]) == age(
                    new_take[m],
                ) && k < m) by {
                    assert(new_take[m] == all[m]);
                    assert(new_take[k] == all[k]);
                    if x != id {
                        assert(before.contains_key(x));
                        assert(old_take[m] == all[m]);
                        assert(old_take[k] == all[k]);
                    } else if !replace {
                        let c = age(all[i as int]);
                        let b = age(all[k]);
                        assert(!lt(c, b));
                        if m < i {
                            assert(old_take[m] == all[m]);
                            assert(old_take[k] == all[k]);
                        } else if c != b {
                            assert(lt(b, c));
                        }
                    } else {
                        let c = age(all[i as int]);
                        assert(m < i);
                        assert(before.contains_key(all[m].memory.id@));
                        let p = before[id] as int;
                        let b = age(all[p]);
                        assert(lt(c, b));
                        if m != p {
                            assert(old_take[m] == all[m]);
                            assert(old_take[p] == all[p]);
                            let a = age(all[m]);
                            assert(lt(b, a) || b == a);
                            assert(lt(c, a));
                        }
                    }
                }
            }
            assert forall|j: int| 0 <= j < i + 1 implies best@.contains_key(
                (#[trigger] all[j]).memory.id@,
            ) by {
                if j < i {
                    assert(before.contains_key(all[j].memory.id@));
                }
            }
        }
        i += 1;
    }
    assert(all.take(i as int) =~= all);
    best
}

/// The files of a directory, sorted out.
#[derive(Debug)]
pub struct Settled {
    /// The current file of each memory.
    pub kept: Vec<ParsedFile>,
    /// The paths of the others.
    pub stale: Vec<FilePath>,
}

/// Sorts out the files of a directory: each memory keeps its current one.
pub fn settle_duplicates(files: Vec<ParsedFile>) -> (r: Settled)
    ensures
        r.kept@ == kept(files@),
        path_views(r.stale@) == paths_of(stale(files@)),
{
    let ghost all = files@;
    let ghost want = |k: int| is_kept(all, k);
    let ghost lose = |k: int| !is_kept(all, k);
    let ghost place = |f: ParsedFile| f.path@;
    let total: usize = files.len();
    let best = winners(files.as_slice());
    let mut rest = reversed(files);
    let mut current: Vec<ParsedFile> = Vec::new();
    let mut others: Vec<FilePath> = Vec::new();
    let mut i: usize = 0;
    proof {
        assert(all.take(0) =~= Seq::empty());
        assert(path_views(others@) =~= paths_of(selected(all.take(0), lose)));
    }
    while rest.len() > 0
        invariant
            i <= total,
            total == all.len(),
            rest@.len() == all.len() - i,
            forall|j: int| 0 <= j < rest@.len() ==> #[trigger] rest@[j] == all[all.len() - 1 - j],
            want == (|k: int| is_kept(all, k)),
            lose == (|k: int| !is_kept(all, k)),
            place == (|f: ParsedFile| f.path@),
            forall|id: Seq<char>| #[trigger]
                best@.contains_key(id) ==> best@[id] < all.len() && all[best@[id] as int].memory.id@
                    == id && is_kept(all, best@[id] as int),
            forall|i: int|
                0 <= i < all.len() ==> best@.contains_key((#[trigger] all[i]).memory.id@),
            current@ == selected(all.take(i as int), want),
            path_views(others@) == paths_of(selected(all.take(i as int), lose)),
        decreases rest.len(),
    {
        assert(rest@[rest@.len() - 1] == all[i as int]);
        proof {
            assert(all.take(i + 1).drop_last() =~= all.take(i as int));
            assert(all.take(i + 1).last() == all[i as int]);
        }
        match rest.pop() {
            Some(file) => {
                let wins = match best.get(file.memory.id.as_str()) {
                    Some(k) => *k == i,
                    None => false,
                };
                proof {
                    let k = best@[all[i as int].memory.id@] as int;
                    if k != i {
                        lemma_one_is_kept(all, i as int, k);
                    }
                    assert(wins == is_kept(all, i as int));
                }
                if wins {
                    current.push(file);
                } else {
                    let ghost before = selected(all.take(i as int), lose);
                    let ghost listed = path_views(others@);
                    others.push(file.path);
                    proof {
                        assert(path_views(others@) =~= listed.push(file.path@));
                        assert(before.push(file).map_values(place) =~= before.map_values(
                            place,
                        ).push(file.path@));
                    }
                }
            },
            None => {},
        }
        i += 1;
    }
    assert(all.take(i as int) =~= all);
    Settled { kept: current, stale: others }
}

/// Appends the rows for files that were sorted out.
fn push_rows(
    rows: &mut Vec<IndexRow>,
    files: &[ParsedFile],
    visibility: Visibility,
    chunk_ids: &StringHashSet,
)
    ensures
        row_views(final(rows)@) == row_views(old(rows)@) + files@.map_values(
            |f: ParsedFile| row_of(f, visibility, chunk_ids@),
        ),
{
    let ghost start = row_views(rows@);
    let ghost row = |f: ParsedFile| row_of(f, visibility, chunk_ids@);
    let mut i: usize = 0;
    assert(row_views(rows@) =~= start + files@.take(0).map_values(row));
    while i < files.len()
        invariant
            i <= files.len(),
            row == (|f: ParsedFile| row_of(f, visibility, chunk_ids@)),
            row_views(rows@) == start + files@.take(i as int).map_values(row),
        decreases files.len() - i,
    {
        let ghost before = row_views(rows@);
        rows.push(
            IndexRow {
                id: files[i].memory.id.clone(),
                visibility,
                digest: files[i].digest.clone(),
                has_embedding: chunk_ids.contains(files[i].memory.id.as_str()),
            },
        );
        proof {
            let f = files@[i as int];
            assert(row_views(rows@) =~= before.push(row(f)));
            assert(files@.take(i + 1).map_values(row) =~= files@.take(i as int).map_values(
                row,
            ).push(row(f)));
            assert(row_views(rows@) =~= start + files@.take(i + 1).map_values(row));
        }
        i += 1;
    }
    assert(files@.take(i as int) =~= files@);
}

/// What a rebuild of the index does.
#[derive(Debug)]
pub struct Reindex {
    /// Whether the rows that are there go first.
    pub clear: bool,
    /// Files that are removed: older ones of memories that have a newer one.
    pub stale: Vec<FilePath>,
    /// The rows that are put in, in this order.
    pub rows: Vec<IndexRow>,
    /// Ids whose vectors go.
    pub orphans: Vec<String>,
}

/// Whether some row has the id.
pub open spec fn is_indexed(rows: Seq<RowView>, id: Seq<char>) -> bool {
    exists|i: int| 0 <= i < rows.len() && (#[trigger] rows[i]).id == id
}

/// The ids of rows.
fn row_ids(rows: &[IndexRow]) -> (r: StringHashSet)
    ensures
        forall|id: Seq<char>| #[trigger] r@.contains(id) <==> is_indexed(row_views(rows@), id),
{
    let ghost all = row_views(rows@);
    let mut set = StringHashSet::new();
    let mut i: usize = 0;
    while i < rows.len()
        invariant
            i <= rows.len(),
            all == row_views(rows@),
            forall|id: Seq<char>| #[trigger]
                set@.contains(id) <==> exists|j: int| 0 <= j < i && (#[trigger] all[j]).id == id,
        decreases rows.len() - i,
    {
        let ghost before = set@;
        set.insert(rows[i].id.clone());
        proof {
            assert(all[i as int].id == rows@[i as int].id@);
            assert forall|id: Seq<char>| #[trigger] set@.contains(id) <==> exists|j: int|
                0 <= j < i + 1 && (#[trigger] all[j]).id == id by {
                assert(before.contains(id) <==> exists|j: int|
                    0 <= j < i && (#[trigger] all[j]).id == id);
            }
        }
        i += 1;
    }
    set
}

impl MemoryStore {
    /// Rebuilds the index from the files of the two directories. `chunk_ids`
    /// are the ids that have vectors. While another checkout shares the index
    /// its rows are not cleared, unless the table itself must be made anew, and
    /// no vectors go: that checkout's memories have no files here.
    pub fn reindex_with(
        shared: Vec<ParsedFile>,
        personal: Vec<ParsedFile>,
        chunk_ids: &[String],
        foreign_checkout: bool,
        force_schema_reset: bool,
    ) -> (r: Reindex)
        ensures
            ({
                let chunks = crate::text::texts(chunk_ids@);
                let rows = rows_of(shared@, Visibility::Shared, chunks.to_set()) + rows_of(
                    personal@,
                    Visibility::Personal,
                    chunks.to_set(),
                );
                &&& r.clear == (!foreign_checkout || force_schema_reset)
                &&& path_views(r.stale@) == paths_of(stale(shared@)) + paths_of(stale(personal@))
                &&& row_views(r.rows@) == rows
                &&& crate::text::texts(r.orphans@) == (if foreign_checkout {
                    Seq::empty()
                } else {
                    chunks.filter(|id: Seq<char>| !is_indexed(rows, id))
                })
            }),
    {
        let ghost chunks = crate::text::texts(chunk_ids@);
        let mut with_chunks = StringHashSet::new();
        collect_texts(chunk_ids, &mut with_chunks);
        assert(with_chunks@ =~= chunks.to_set());
        let first = settle_duplicates(shared);
        let second = settle_duplicates(personal);
        let mut rows: Vec<IndexRow> = Vec::new();
        assert(row_views(rows@) =~= Seq::empty());
        push_rows(&mut rows, first.kept.as_slice(), Visibility::Shared, &with_chunks);
        push_rows(&mut rows, second.kept.as_slice(), Visibility::Personal, &with_chunks);
        let ghost all = rows_of(shared@, Visibility::Shared, chunks.to_set()) + rows_of(
            personal@,
            Visibility::Personal,
            chunks.to_set(),
        );
        assert(row_views(rows@) =~= all);
        let ghost before = path_views(first.stale@);
        let ghost after = path_views(second.stale@);
        let mut old = first.stale;
        let mut older = second.stale;
        old.append(&mut older);
        assert(path_views(old@) =~= before + after);
        let orphans = if foreign_checkout {
            Vec::new()
        } else {
            orphans_of(chunk_ids, rows.as_slice())
        };
        assert(foreign_checkout ==> crate::text::texts(orphans@) =~= Seq::empty());
        Reindex { clear: !foreign_checkout || force_schema_reset, stale: old, rows, orphans }
    }

    /// Rebuilds the index from the files of the two directories; how many rows
    /// that makes is their number.
    pub fn reindex(
        shared: Vec<ParsedFile>,
        personal: Vec<ParsedFile>,
        chunk_ids: &[String],
        foreign_checkout: bool,
    ) -> (r: Reindex)
        ensures
            ({
                let chunks = crate::text::texts(chunk_ids@);
                let rows = rows_of(shared@, Visibility::Shared, chunks.to_set()) + rows_of(
                    personal@,
                    Visibility::Personal,
                    chunks.to_set(),
                );
                &&& r.clear == !foreign_checkout
                &&& path_views(r.stale@) == paths_of(stale(shared@)) + paths_of(stale(personal@))
                &&& row_views(r.rows@) == rows
                &&& crate::text::texts(r.orphans@) == (if foreign_checkout {
                    Seq::empty()
                } else {
                    chunks.filter(|id: Seq<char>| !is_indexed(rows, id))
                })
            }),
    {
        MemoryStore::reindex_with(shared, personal, chunk_ids, foreign_checkout, false)
    }
}

/// The ids with vectors that no row has.
fn orphans_of(chunk_ids: &[String], rows: &[IndexRow]) -> (r: Vec<String>)
    ensures
        crate::text::texts(r@) == crate::text::texts(chunk_ids@).filter(
            |id: Seq<char>| !is_indexed(row_views(rows@), id),
        ),
{
    let ghost all = crate::text::texts(chunk_ids@);
    let ghost lost = |id: Seq<char>| !is_indexed(row_views(rows@), id);
    let indexed = row_ids(rows);
    let mut out: Vec<String> = Vec::new();
    let mut i: usize = 0;
    proof {
        crate::seqs::lemma_filter_ends(all, lost);
        assert(crate::text::texts(out@) =~= Seq::empty());
    }
    while i < chunk_ids.len()
        invariant
            i <= chunk_ids.len(),
            all == crate::text::texts(chunk_ids@),
            lost == (|id: Seq<char>| !is_indexed(row_views(rows@), id)),
            forall|id: Seq<char>| #[trigger]
                indexed@.contains(id) <==> is_indexed(row_views(rows@), id),
            crate::text::texts(out@) == all.take(i as int).filter(lost),
        decreases chunk_ids.len() - i,
    {
        proof {
            crate::seqs::lemma_filter_take(all, i as int, lost);
        }
        if !indexed.contains(chunk_ids[i].as_str()) {
            let ghost before = crate::text::texts(out@);
            out.push(chunk_ids[i].clone());
            assert(crate::text::texts(out@) =~= before.push(all[i as int]));
        }
        i += 1;
    }
    proof {
        crate::seqs::lemma_filter_ends(all, lost);
    }
    out
}

// ---------------------------------------------------------------------------
// Laws
// ---------------------------------------------------------------------------

/// Of several files one is the current one of its memory.
proof fn lemma_some_kept(files: Seq<ParsedFile>, i: int) -> (k: int)
    requires
        0 <= i < files.len(),
    ensures
        0 <= k < files.len(),
        same_memory(files[k], files[i]),
        is_kept(files, k),
{
    lemma_best_of_first(files, i, files.len() as int)
}

proof fn lemma_best_of_first(files: Seq<ParsedFile>, i: int, n: int) -> (k: int)
    requires
        0 <= i < files.len(),
        0 <= n <= files.len(),
    ensures
        0 <= k < files.len(),
        same_memory(files[k], files[i]),
        k < n || k == i,
        forall|m: int|
            0 <= m < n && m != k && same_memory(#[trigger] files[m], files[k]) ==> newer(
                age(files[k]),
                age(files[m]),
            ) || (age(files[k]) == age(files[m]) && k < m),
    decreases n,
{
    crate::store::preference_is_a_strict_order();
    let lt = |a: (Timestamp, Seq<PartView>), b: (Timestamp, Seq<PartView>)| newer(a, b);
    if n == 0 {
        i
    } else {
        let k = lemma_best_of_first(files, i, n - 1);
        let last = n - 1;
        if !same_memory(files[last], files[i]) {
            assert(!same_memory(files[last], files[k]));
            k
        } else if k == last {
            k
        } else {
            let a = age(files[last]);
            let b = age(files[k]);
            if lt(a, b) || (a == b && last < k) {
                assert forall|m: int|
                    0 <= m < n && m != last && same_memory(
                        #[trigger] files[m],
                        files[last],
                    ) implies newer(a, age(files[m])) || (a == age(files[m]) && last < m) by {
                    let c = age(files[m]);
                    if m != k {
                        assert(lt(b, c) || b == c);
                        if lt(a, b) {
                            assert(lt(a, c));
                        } else {
                            assert(k >= n);
                            assert(k == i);
                            assert(lt(b, c) || (b == c && k < m));
                        }
                    }
                }
                last
            } else {
                if a != b {
                    assert(lt(a, b) || lt(b, a));
                }
                k
            }
        }
    }
}

/// A memory that a directory holds is indexed, and only once.
pub proof fn a_directory_is_indexed_once_per_memory(files: Seq<ParsedFile>, i: int) -> (k: int)
    requires
        0 <= i < files.len(),
    ensures
        0 <= k < kept(files).len(),
        same_memory(kept(files)[k], files[i]),
        forall|l: int|
            0 <= l < kept(files).len() && same_memory(#[trigger] kept(files)[l], files[i]) ==> l
                == k,
{
    let want = |k: int| is_kept(files, k);
    let w = lemma_some_kept(files, i);
    let places = crate::seqs::lemma_selected_places(files, want);
    crate::seqs::lemma_selected_contains(files, want, files[w]);
    assert(kept(files).contains(files[w]));
    let k = choose|k: int| 0 <= k < kept(files).len() && kept(files)[k] == files[w];
    assert(0 <= places[k] < files.len());
    assert forall|l: int|
        0 <= l < kept(files).len() && same_memory(
            #[trigger] kept(files)[l],
            files[i],
        ) implies l == k by {
        assert(0 <= places[l] < files.len());
        if l != k {
            assert(places[l] != places[k]) by {
                if l < k {
                    assert(places[l] < places[k]);
                } else {
                    assert(places[k] < places[l]);
                }
            }
            lemma_one_is_kept(files, places[l], places[k]);
        }
    }
    k
}

/// The file that is indexed for a memory is the newest one of its files, in
/// whatever order the directory lists them: no other one is preferred to it.
pub proof fn the_newest_file_is_indexed(files: Seq<ParsedFile>, k: int, i: int)
    requires
        0 <= k < kept(files).len(),
        0 <= i < files.len(),
        same_memory(files[i], kept(files)[k]),
    ensures
        !newer(age(files[i]), age(kept(files)[k])),
{
    let want = |k: int| is_kept(files, k);
    let places = crate::seqs::lemma_selected_places(files, want);
    let p = places[k];
    assert(is_kept(files, p));
    crate::store::preference_is_a_strict_order();
    let lt = |a: (Timestamp, Seq<PartView>), b: (Timestamp, Seq<PartView>)| newer(a, b);
    let a = age(files[i]);
    let b = age(files[p]);
    assert(!lt(a, a));
    if i != p && lt(a, b) {
        assert(lt(b, a) || a == b);
        assert(lt(a, a));
    }
}

/// Every file of a directory is indexed or removed.
pub proof fn every_file_is_indexed_or_removed(files: Seq<ParsedFile>, i: int)
    requires
        0 <= i < files.len(),
    ensures
        kept(files).contains(files[i]) || stale(files).contains(files[i]),
        kept(files).len() + stale(files).len() == files.len(),
{
    let want = |k: int| is_kept(files, k);
    let lose = |k: int| !is_kept(files, k);
    crate::seqs::lemma_selected_contains(files, want, files[i]);
    crate::seqs::lemma_selected_contains(files, lose, files[i]);
    lemma_selected_parts(files, want, lose);
}

proof fn lemma_selected_parts(
    files: Seq<ParsedFile>,
    want: spec_fn(int) -> bool,
    lose: spec_fn(int) -> bool,
)
    requires
        forall|k: int| #[trigger] want(k) == !lose(k),
    ensures
        selected(files, want).len() + selected(files, lose).len() == files.len(),
    decreases files.len(),
{
    if files.len() > 0 {
        lemma_selected_parts(files.drop_last(), want, lose);
        assert(want(files.len() - 1) == !lose(files.len() - 1));
    }
}

/// A rebuild of a directory that was sorted out changes nothing more: all its
/// files are kept.
pub proof fn reindexing_is_idempotent(files: Seq<ParsedFile>)
    ensures
        kept(kept(files)) == kept(files),
        stale(kept(files)).len() == 0,
{
    let once = kept(files);
    let want = |k: int| is_kept(files, k);
    let places = crate::seqs::lemma_selected_places(files, want);
    assert forall|k: int| 0 <= k < once.len() implies #[trigger] is_kept(once, k) by {
        assert forall|i: int|
            0 <= i < once.len() && i != k && same_memory(#[trigger] once[i], once[k]) implies newer(
            age(once[k]),
            age(once[i]),
        ) || (age(once[k]) == age(once[i]) && k < i) by {
            assert(0 <= places[i] < files.len() && 0 <= places[k] < files.len());
            assert(places[i] != places[k]) by {
                if i < k {
                    assert(places[i] < places[k]);
                } else {
                    assert(places[k] < places[i]);
                }
            }
            lemma_one_is_kept(files, places[i], places[k]);
        }
    }
    lemma_selected_all(once, |k: int| is_kept(once, k));
    lemma_selected_parts(once, |k: int| is_kept(once, k), |k: int| !is_kept(once, k));
}

proof fn lemma_selected_all(s: Seq<ParsedFile>, wanted: spec_fn(int) -> bool)
    requires
        forall|k: int| 0 <= k < s.len() ==> #[trigger] wanted(k),
    ensures
        selected(s, wanted) == s,
    decreases s.len(),
{
    if s.len() > 0 {
        lemma_selected_all(s.drop_last(), wanted);
        assert(wanted(s.len() - 1));
        assert(s =~= s.drop_last().push(s.last()));
    } else {
        assert(s =~= Seq::empty());
    }
}

/// Which files are indexed does not depend on the order in which a directory
/// lists them.
pub proof fn reindexing_does_not_depend_on_the_order_listed(
    a: Seq<ParsedFile>,
    b: Seq<ParsedFile>,
    f: ParsedFile,
)
    requires
        forall|g: ParsedFile|
            #![trigger a.contains(g)]
            #![trigger b.contains(g)]
            a.contains(g) <==> b.contains(g),
        forall|i: int, j: int|
            0 <= i < j < a.len() ==> (#[trigger] a[i]).path@ != (#[trigger] a[j]).path@,
        forall|i: int, j: int|
            0 <= i < j < b.len() ==> (#[trigger] b[i]).path@ != (#[trigger] b[j]).path@,
        kept(a).contains(f),
    ensures
        kept(b).contains(f),
{
    let want_a = |k: int| is_kept(a, k);
    let want_b = |k: int| is_kept(b, k);
    crate::seqs::lemma_selected_contains(a, want_a, f);
    let i = choose|i: int| 0 <= i < a.len() && #[trigger] a[i] == f && want_a(i);
    assert(a.contains(f));
    assert(b.contains(f));
    let j = choose|j: int| 0 <= j < b.len() && b[j] == f;
    assert(is_kept(b, j)) by {
        assert forall|m: int|
            0 <= m < b.len() && m != j && same_memory(#[trigger] b[m], b[j]) implies newer(
            age(b[j]),
            age(b[m]),
        ) || (age(b[j]) == age(b[m]) && j < m) by {
            assert(b.contains(b[m]));
            assert(a.contains(b[m]));
            let n = choose|n: int| 0 <= n < a.len() && a[n] == b[m];
            assert(b[m].path@ != b[j].path@) by {
                if m < j {
                    assert(b[m].path@ != b[j].path@);
                } else {
                    assert(b[j].path@ != b[m].path@);
                }
            }
            assert(n != i);
            assert(same_memory(a[n], a[i]));
            assert(age(a[i]) != age(a[n]));
        }
    }
    crate::seqs::lemma_selected_contains(b, want_b, f);
}

} // verus!
