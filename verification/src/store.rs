//! The store of a project: which files hold its memories.
//!
//! A memory lives in a file whose name carries its id. A caller may give an id
//! by a prefix. An update that was cut short can leave two files for one id:
//! the newer one is the current one.

use crate::error::StorageError;
use crate::memory::Visibility;
use crate::path::{FilePath, PartView};
use crate::text::{contains_text, decimal_text, same_text, starts_with};
use crate::time::Timestamp;
use vstd::hash_map::StringHashMap;
use vstd::hash_set::StringHashSet;
use vstd::prelude::*;

verus! {

broadcast use vstd::string::group_string_axioms;

/// A file of a memory directory, as a listing shows it.
#[derive(Debug)]
pub struct MemoryFile {
    pub path: FilePath,
    /// The memory id that the name of the file carries.
    pub id: String,
    /// When the file was last modified; the epoch where that is unknown.
    pub modified: Timestamp,
}

/// The mathematical value of a listed file.
#[verifier::ext_equal]
pub struct FileView {
    pub path: Seq<PartView>,
    pub id: Seq<char>,
    pub modified: Timestamp,
}

impl View for MemoryFile {
    type V = FileView;

    open spec fn view(&self) -> FileView {
        FileView { path: self.path@, id: self.id@, modified: self.modified }
    }
}

/// The values of listed files.
pub open spec fn file_views(files: Seq<MemoryFile>) -> Seq<FileView> {
    Seq::new(files.len(), |i: int| files[i]@)
}

impl MemoryFile {
    /// A copy of the entry.
    pub fn copied(&self) -> (r: MemoryFile)
        ensures
            r@ == self@,
    {
        MemoryFile { path: self.path.copied(), id: self.id.clone(), modified: self.modified }
    }
}

// ---------------------------------------------------------------------------
// The current one of several files
// ---------------------------------------------------------------------------

/// Whether a file is the current one rather than another of the same memory:
/// the one modified later, and of two modified at once the one whose path comes
/// later.
pub open spec fn newer(
    a: (Timestamp, Seq<PartView>),
    b: (Timestamp, Seq<PartView>),
) -> bool {
    b.0.before(a.0) || (a.0 == b.0 && crate::path::path_less(b.1, a.1))
}

/// Whether file `a` is to be preferred to file `b`: it was modified later, or
/// at the same time and its path is the greater one.
pub fn prefers_newer(a: (Timestamp, &FilePath), b: (Timestamp, &FilePath)) -> (r: bool)
    ensures
        r == newer((a.0, a.1@), (b.0, b.1@)),
{
    if b.0.is_before(&a.0) {
        true
    } else if a.0.is_before(&b.0) {
        false
    } else {
        b.1.is_less(a.1)
    }
}

/// The choice between two files does not depend on the order in which they
/// were found: of two different ones exactly one is preferred.
pub proof fn preference_is_a_strict_order()
    ensures
        crate::order::strict_total(
            |a: (Timestamp, Seq<PartView>), b: (Timestamp, Seq<PartView>)| newer(a, b),
        ),
{
    let lt = |a: (Timestamp, Seq<PartView>), b: (Timestamp, Seq<PartView>)| newer(a, b);
    let less = |a: Seq<PartView>, b: Seq<PartView>| crate::path::path_less(a, b);
    crate::path::lemma_path_less();
    assert forall|a: (Timestamp, Seq<PartView>)| !#[trigger] lt(a, a) by {
        assert(!less(a.1, a.1));
    }
    assert forall|a: (Timestamp, Seq<PartView>), b: (Timestamp, Seq<PartView>)|
        a != b implies #[trigger] lt(a, b) || lt(b, a) by {
        if a.0 == b.0 {
            assert(a.1 != b.1);
            assert(less(a.1, b.1) || less(b.1, a.1));
        }
    }
    assert forall|
        a: (Timestamp, Seq<PartView>),
        b: (Timestamp, Seq<PartView>),
        c: (Timestamp, Seq<PartView>),
    | #[trigger] lt(a, b) && #[trigger] lt(b, c) implies lt(a, c) by {
        if a.0 == b.0 && b.0 == c.0 {
            assert(less(b.1, a.1) && less(c.1, b.1));
            assert(less(c.1, a.1));
        }
    }
}

/// When a file was modified, and where it is.
pub open spec fn age_and_place(f: FileView) -> (Timestamp, Seq<PartView>) {
    (f.modified, f.path)
}

/// Whether no file is preferred to the one at `k`.
pub open spec fn is_newest(files: Seq<FileView>, k: int) -> bool {
    &&& 0 <= k < files.len()
    &&& forall|i: int|
        0 <= i < files.len() ==> !newer(age_and_place(#[trigger] files[i]), age_and_place(files[k]))
}

/// The index of the current one of several files of one memory.
pub fn newest_by_mtime(files: &[MemoryFile]) -> (r: usize)
    requires
        files@.len() > 0,
    ensures
        is_newest(file_views(files@), r as int),
{
    let ghost all = file_views(files@);
    let ghost lt = |a: (Timestamp, Seq<PartView>), b: (Timestamp, Seq<PartView>)| newer(a, b);
    proof {
        preference_is_a_strict_order();
        assert(!lt(age_and_place(all[0]), age_and_place(all[0])));
    }
    let mut best: usize = 0;
    let mut i: usize = 1;
    while i < files.len()
        invariant
            best < i <= files.len(),
            all == file_views(files@),
            lt == (|a: (Timestamp, Seq<PartView>), b: (Timestamp, Seq<PartView>)| newer(a, b)),
            crate::order::strict_total(lt),
            forall|j: int|
                0 <= j < i ==> !newer(
                    age_and_place(#[trigger] all[j]),
                    age_and_place(all[best as int]),
                ),
        decreases files.len() - i,
    {
        let ghost a = age_and_place(all[i as int]);
        let ghost b = age_and_place(all[best as int]);
        if prefers_newer(
            (files[i].modified, &files[i].path),
            (files[best].modified, &files[best].path),
        ) {
            proof {
                assert(lt(a, b));
                assert(!lt(a, a));
                assert forall|j: int| 0 <= j < i + 1 implies !newer(
                    age_and_place(#[trigger] all[j]),
                    a,
                ) by {
                    let c = age_and_place(all[j]);
                    if lt(c, a) {
                        assert(lt(c, b));
                    }
                }
            }
            best = i;
        }
        i += 1;
    }
    best
}

/// Two files that both are the newest are one file.
pub proof fn the_newest_file_is_unique(files: Seq<FileView>, j: int, k: int)
    requires
        is_newest(files, j),
        is_newest(files, k),
    ensures
        age_and_place(files[j]) == age_and_place(files[k]),
{
    preference_is_a_strict_order();
    let lt = |a: (Timestamp, Seq<PartView>), b: (Timestamp, Seq<PartView>)| newer(a, b);
    let a = age_and_place(files[j]);
    let b = age_and_place(files[k]);
    if a != b {
        assert(lt(a, b) || lt(b, a));
    }
}

// ---------------------------------------------------------------------------
// The files of a memory
// ---------------------------------------------------------------------------

/// The files whose ids begin with the given text.
pub open spec fn hits(files: Seq<FileView>, id: Seq<char>) -> Seq<FileView> {
    files.filter(|f: FileView| id.is_prefix_of(f.id))
}

/// The files with exactly the given id.
pub open spec fn exact(files: Seq<FileView>, id: Seq<char>) -> Seq<FileView> {
    files.filter(|f: FileView| f.id == id)
}

/// The ids that files carry.
pub open spec fn ids_of(files: Seq<FileView>) -> Set<Seq<char>> {
    files.map_values(|f: FileView| f.id).to_set()
}

/// The files of the memory that an id, or the beginning of one, stands for:
/// those that fit, where they all are of one memory; else those of the memory
/// with exactly that id. Nothing where several memories fit and none of them
/// exactly.
pub open spec fn located(files: Seq<FileView>, id: Seq<char>) -> Option<Seq<FileView>> {
    let found = hits(files, id);
    if ids_of(found).len() <= 1 {
        Some(found)
    } else if ids_of(found).contains(id) {
        Some(exact(found, id))
    } else {
        None
    }
}

/// The complaint about a prefix that fits several memories.
pub open spec fn ambiguous_text(id: Seq<char>, memories: nat) -> Seq<char> {
    "Ambiguous ID prefix '"@ + id + "': matches "@ + crate::text::decimal(memories)
        + " memories"@
}

/// The error for a prefix that fits several memories.
fn ambiguous(id: &str, memories: usize) -> (r: StorageError)
    ensures
        r.refuses(ambiguous_text(id@, memories as nat)),
{
    let mut text = "Ambiguous ID prefix '".to_owned();
    text.append(id);
    text.append("': matches ");
    text.append(decimal_text(memories as u64).as_str());
    text.append(" memories");
    StorageError::Validation(text)
}

proof fn lemma_ids_of_push(files: Seq<FileView>, f: FileView)
    ensures
        ids_of(files.push(f)) == ids_of(files).insert(f.id),
{
    let id = |f: FileView| f.id;
    assert(files.push(f).map_values(id) =~= files.map_values(id).push(f.id));
    let s = files.map_values(id);
    let t = s.push(f.id);
    assert forall|x: Seq<char>| #[trigger]
        t.to_set().contains(x) <==> s.to_set().insert(f.id).contains(x) by {
        if s.contains(x) {
            let i = choose|i: int| 0 <= i < s.len() && s[i] == x;
            assert(t[i] == x);
        }
        assert(t[s.len() as int] == f.id);
        if t.contains(x) {
            let i = choose|i: int| 0 <= i < t.len() && t[i] == x;
            assert(i < s.len() ==> s[i] == x);
        }
    }
    assert(t.to_set() =~= s.to_set().insert(f.id));
}

/// The files of the memory that `id`, or the beginning of its id, stands for.
pub fn find_memory_files(files: &[MemoryFile], id: &str) -> (r: Result<
    Vec<MemoryFile>,
    StorageError,
>)
    ensures
        match r {
            Ok(v) => located(file_views(files@), id@) == Some(file_views(v@)),
            Err(e) => located(file_views(files@), id@) is None && e.refuses(
                ambiguous_text(id@, ids_of(hits(file_views(files@), id@)).len()),
            ),
        },
{
    let ghost all = file_views(files@);
    let ghost fits = |f: FileView| id@.is_prefix_of(f.id);
    let mut found: Vec<MemoryFile> = Vec::new();
    let mut ids = StringHashSet::new();
    let mut i: usize = 0;
    proof {
        crate::seqs::lemma_filter_ends(all, fits);
        assert(file_views(found@) =~= Seq::empty());
        assert(ids_of(Seq::empty()) =~= Set::empty());
    }
    while i < files.len()
        invariant
            i <= files.len(),
            all == file_views(files@),
            fits == (|f: FileView| id@.is_prefix_of(f.id)),
            file_views(found@) == all.take(i as int).filter(fits),
            ids@ == ids_of(file_views(found@)),
        decreases files.len() - i,
    {
        proof {
            crate::seqs::lemma_filter_take(all, i as int, fits);
        }
        if starts_with(files[i].id.as_str(), id) {
            let ghost before = file_views(found@);
            proof {
                lemma_ids_of_push(before, all[i as int]);
            }
            ids.insert(files[i].id.clone());
            found.push(files[i].copied());
            assert(file_views(found@) =~= before.push(all[i as int]));
        }
        i += 1;
    }
    proof {
        crate::seqs::lemma_filter_ends(all, fits);
    }
    let ghost found_views = file_views(found@);
    assert(found_views == hits(all, id@));
    if ids.len() <= 1 {
        return Ok(found);
    }
    if !ids.contains(id) {
        return Err(ambiguous(id, ids.len()));
    }
    let ghost same = |f: FileView| f.id == id@;
    let mut kept: Vec<MemoryFile> = Vec::new();
    let mut k: usize = 0;
    proof {
        crate::seqs::lemma_filter_ends(found_views, same);
        assert(file_views(kept@) =~= Seq::empty());
    }
    while k < found.len()
        invariant
            k <= found.len(),
            found_views == file_views(found@),
            same == (|f: FileView| f.id == id@),
            file_views(kept@) == found_views.take(k as int).filter(same),
        decreases found.len() - k,
    {
        proof {
            crate::seqs::lemma_filter_take(found_views, k as int, same);
        }
        if same_text(found[k].id.as_str(), id) {
            let ghost before = file_views(kept@);
            kept.push(found[k].copied());
            assert(file_views(kept@) =~= before.push(found_views[k as int]));
        }
        k += 1;
    }
    proof {
        crate::seqs::lemma_filter_ends(found_views, same);
    }
    Ok(kept)
}

/// Where a memory is found among files.
pub enum Lookup {
    /// At this path.
    Found(Seq<PartView>),
    /// Nowhere.
    Missing,
    /// The text fits this many memories.
    Ambiguous(nat),
}

/// The path of the newest one of some files.
pub open spec fn newest_path(files: Seq<FileView>) -> Seq<PartView> {
    files[choose|k: int| is_newest(files, k)].path
}

/// Where the memory that an id, or the beginning of one, stands for is found:
/// at the newest one of its files.
pub open spec fn lookup(files: Seq<FileView>, id: Seq<char>) -> Lookup {
    match located(files, id) {
        None => Lookup::Ambiguous(ids_of(hits(files, id)).len()),
        Some(found) => if found.len() == 0 {
            Lookup::Missing
        } else {
            Lookup::Found(newest_path(found))
        },
    }
}

/// The file to read for the memory that `id`, or the beginning of its id,
/// stands for.
pub fn current_file(files: &[MemoryFile], id: &str) -> (r: Result<FilePath, StorageError>)
    ensures
        match lookup(file_views(files@), id@) {
            Lookup::Found(path) => r matches Ok(p) && p@ == path,
            Lookup::Missing => r matches Err(e) && e.misses(id@),
            Lookup::Ambiguous(n) => r matches Err(e) && e.refuses(ambiguous_text(id@, n)),
        },
{
    let found = match find_memory_files(files, id) {
        Ok(found) => found,
        Err(e) => return Err(e),
    };
    if found.len() == 0 {
        return Err(StorageError::NotFound(id.to_owned()));
    }
    let k = newest_by_mtime(found.as_slice());
    proof {
        let views = file_views(found@);
        the_newest_file_is_unique(views, k as int, choose|k: int| is_newest(views, k));
    }
    Ok(found[k].path.copied())
}

/// Whether a read of the shared directory leaves it to the personal one to
/// answer: only where the shared one has no such memory. An ambiguous id and a
/// failed read are answers.
pub fn falls_through<T>(shared: &Result<T, StorageError>) -> (r: bool)
    ensures
        r == (shared matches Err(StorageError::NotFound(_))),
{
    match shared {
        Err(StorageError::NotFound(_)) => true,
        _ => false,
    }
}

/// The id of the memory that `id`, or the beginning of its id, stands for, out
/// of the indexed ids that begin with it.
pub fn resolve_full_id(matches: &[String], id: &str) -> (r: Result<String, StorageError>)
    ensures
        ({
            let found = crate::text::texts(matches@);
            if found.len() == 0 {
                r matches Err(e) && e.misses(id@)
            } else if found.len() == 1 {
                r matches Ok(full) && full@ == found[0]
            } else if found.contains(id@) {
                r matches Ok(full) && full@ == id@
            } else {
                r matches Err(e) && e.refuses(ambiguous_text(id@, found.len()))
            }
        }),
{
    if matches.len() == 0 {
        Err(StorageError::NotFound(id.to_owned()))
    } else if matches.len() == 1 {
        Ok(matches[0].clone())
    } else if contains_text(matches, id) {
        Ok(id.to_owned())
    } else {
        Err(ambiguous(id, matches.len()))
    }
}

// ---------------------------------------------------------------------------
// Many memories at once
// ---------------------------------------------------------------------------

/// Whether the file at `i` is a memory file with exactly the given id.
pub open spec fn holds_id(files: Seq<FileView>, id: Seq<char>, i: int) -> bool {
    0 <= i < files.len() && files[i].id == id && crate::path::is_markdown_path(files[i].path)
}

/// Whether some memory file has exactly the given id.
pub open spec fn on_disk(files: Seq<FileView>, id: Seq<char>) -> bool {
    exists|i: int| holds_id(files, id, i)
}

/// Whether the file at `k` is the one that a batch reads for an id: the current
/// one of its memory files.
pub open spec fn wins_batch(files: Seq<FileView>, id: Seq<char>, k: int) -> bool {
    &&& holds_id(files, id, k)
    &&& forall|i: int| #[trigger]
        holds_id(files, id, i) ==> !newer(age_and_place(files[i]), age_and_place(files[k]))
}

/// The number of memory files.
pub fn count_md_files(files: &[MemoryFile]) -> (r: usize)
    ensures
        r == file_views(files@).filter(
            |f: FileView| crate::path::is_markdown_path(f.path),
        ).len(),
{
    let ghost all = file_views(files@);
    let ghost keep = |f: FileView| crate::path::is_markdown_path(f.path);
    let mut n: usize = 0;
    let mut i: usize = 0;
    proof {
        crate::seqs::lemma_filter_ends(all, keep);
    }
    while i < files.len()
        invariant
            n <= i <= files.len(),
            all == file_views(files@),
            keep == (|f: FileView| crate::path::is_markdown_path(f.path)),
            n == all.take(i as int).filter(keep).len(),
        decreases files.len() - i,
    {
        proof {
            crate::seqs::lemma_filter_take(all, i as int, keep);
        }
        if files[i].path.is_markdown() {
            n += 1;
        }
        i += 1;
    }
    proof {
        crate::seqs::lemma_filter_ends(all, keep);
    }
    n
}

/// For each id the index of the file that a batch reads.
fn scan_dir_to_map(files: &[MemoryFile]) -> (r: StringHashMap<usize>)
    ensures
        forall|id: Seq<char>| #[trigger]
            r@.contains_key(id) ==> wins_batch(file_views(files@), id, r@[id] as int),
        forall|id: Seq<char>| #[trigger] on_disk(file_views(files@), id) ==> r@.contains_key(id),
{
    let ghost all = file_views(files@);
    let ghost lt = |a: (Timestamp, Seq<PartView>), b: (Timestamp, Seq<PartView>)| newer(a, b);
    proof {
        preference_is_a_strict_order();
    }
    let mut map: StringHashMap<usize> = StringHashMap::new();
    let mut i: usize = 0;
    while i < files.len()
        invariant
            i <= files.len(),
            all == file_views(files@),
            lt == (|a: (Timestamp, Seq<PartView>), b: (Timestamp, Seq<PartView>)| newer(a, b)),
            crate::order::strict_total(lt),
            forall|id: Seq<char>| #[trigger]
                map@.contains_key(id) ==> map@[id] < i && wins_batch(
                    all.take(i as int),
                    id,
                    map@[id] as int,
                ),
            forall|id: Seq<char>, j: int| #[trigger]
                holds_id(all, id, j) && j < i ==> map@.contains_key(id),
        decreases files.len() - i,
    {
        let ghost before = map@;
        let ghost old_take = all.take(i as int);
        let ghost new_take = all.take(i + 1);
        let ghost id = all[i as int].id;
        if files[i].path.is_markdown() {
            let replace = match map.get(files[i].id.as_str()) {
                Some(j) => prefers_newer(
                    (files[i].modified, &files[i].path),
                    (files[*j].modified, &files[*j].path),
                ),
                None => true,
            };
            if replace {
                map.insert(files[i].id.clone(), i);
            }
            proof {
                if before.contains_key(id) {
                    assert(wins_batch(old_take, id, before[id] as int));
                    assert(old_take[before[id] as int] == all[before[id] as int]);
                }
                assert forall|x: Seq<char>| #[trigger]
                    map@.contains_key(x) implies map@[x] < i + 1 && wins_batch(
                    new_take,
                    x,
                    map@[x] as int,
                ) by {
                    let k = map@[x] as int;
                    if x != id || !replace {
                        assert(before.contains_key(x));
                        assert(holds_id(old_take, x, k));
                        assert(holds_id(new_take, x, k));
                    } else {
                        assert(holds_id(new_take, x, k));
                    }
                    assert forall|m: int| #[trigger] holds_id(new_take, x, m) implies !newer(
                        age_and_place(new_take[m]),
                        age_and_place(new_take[k]),
                    ) by {
                        let a = age_and_place(all[m]);
                        let b = age_and_place(all[k]);
                        assert(!lt(b, b));
                        if m < i {
                            assert(holds_id(old_take, x, m));
                            assert(holds_id(all, x, m));
                            assert(before.contains_key(x));
                            let c = age_and_place(all[before[x] as int]);
                            assert(wins_batch(old_take, x, before[x] as int));
                            assert(!lt(a, c));
                            if k == i && lt(a, b) {
                                assert(lt(b, c));
                                assert(lt(a, c));
                            }
                        }
                    }
                }
                assert forall|x: Seq<char>, j: int| #[trigger]
                    holds_id(all, x, j) && j < i + 1 implies map@.contains_key(x) by {
                    if j < i {
                        assert(before.contains_key(x));
                    }
                }
            }
        } else {
            proof {
                assert forall|x: Seq<char>| #[trigger]
                    map@.contains_key(x) implies map@[x] < i + 1 && wins_batch(
                    new_take,
                    x,
                    map@[x] as int,
                ) by {
                    let k = map@[x] as int;
                    assert(holds_id(old_take, x, k));
                    assert(holds_id(new_take, x, k));
                    assert forall|m: int| #[trigger] holds_id(new_take, x, m) implies !newer(
                        age_and_place(new_take[m]),
                        age_and_place(new_take[k]),
                    ) by {
                        assert(m != i);
                        assert(holds_id(old_take, x, m));
                    }
                }
            }
        }
        i += 1;
    }
    proof {
        assert(all.take(i as int) =~= all);
        assert forall|id: Seq<char>| #[trigger] on_disk(all, id) implies map@.contains_key(id) by {
            let j = choose|j: int| holds_id(all, id, j);
            assert(holds_id(all, id, j));
        }
    }
    map
}

/// A store, with the files that its two memory directories hold.
#[derive(Debug)]
pub struct MemoryStore {
    /// Root directory of the project.
    pub project_dir: FilePath,
    /// Unique identifier of the project.
    pub project_id: String,
    /// The files of the directory that is shared with the project.
    pub shared: Vec<MemoryFile>,
    /// The files of the user's own directory.
    pub personal: Vec<MemoryFile>,
}

/// Where a memory of two directories is found: the personal directory answers
/// only where the shared one has no such memory.
pub open spec fn lookup_both(
    shared: Seq<FileView>,
    personal: Seq<FileView>,
    id: Seq<char>,
) -> Lookup {
    match lookup(shared, id) {
        Lookup::Missing => lookup(personal, id),
        answer => answer,
    }
}

/// The file that a batch reads for an id: a shared one where there is one.
pub open spec fn is_batch_path(
    shared: Seq<FileView>,
    personal: Seq<FileView>,
    id: Seq<char>,
    path: Seq<PartView>,
) -> bool {
    if on_disk(shared, id) {
        exists|k: int| #[trigger] wins_batch(shared, id, k) && path == shared[k].path
    } else {
        exists|k: int| #[trigger] wins_batch(personal, id, k) && path == personal[k].path
    }
}

/// The warning that the index and the files disagree.
pub open spec fn staleness_text(md_count: nat, lance_count: nat) -> Seq<char> {
    "Index may be stale ("@ + crate::text::decimal(md_count) + " memories on disk, "@
        + crate::text::decimal(lance_count)
        + " indexed). Run 'engramdb reindex' to rebuild."@
}

/// The warning about an index that holds another number of memories than the
/// directories do. While another checkout shares the index, its rows are
/// expected there, and nothing is said.
pub fn staleness_message(md_count: usize, lance_count: usize, checkout_conflict: bool) -> (r:
    Option<String>)
    ensures
        crate::text::opt_text(r) == (if checkout_conflict || md_count == lance_count {
            None
        } else {
            Some(staleness_text(md_count as nat, lance_count as nat))
        }),
{
    if checkout_conflict {
        return None;
    }
    if md_count != lance_count {
        let mut text = "Index may be stale (".to_owned();
        text.append(decimal_text(md_count as u64).as_str());
        text.append(" memories on disk, ");
        text.append(decimal_text(lance_count as u64).as_str());
        text.append(" indexed). Run 'engramdb reindex' to rebuild.");
        Some(text)
    } else {
        None
    }
}

impl MemoryStore {
    /// Whether this is the store that all projects share, which has the given
    /// reserved id.
    pub fn is_global(&self, global_project_id: &str) -> (r: bool)
        ensures
            r == (self.project_id@ == global_project_id@),
    {
        same_text(self.project_id.as_str(), global_project_id)
    }

    /// Whether this is the store of a group, by a test on its id.
    pub fn is_group<F: Fn(&String) -> bool>(&self, is_group_id: F) -> (r: bool)
        requires
            is_group_id.requires((&self.project_id,)),
        ensures
            is_group_id.ensures((&self.project_id,), r),
    {
        is_group_id(&self.project_id)
    }

    /// The other checkout that owns this project's id, as the registry tells.
    /// The store that all projects share belongs to no checkout.
    pub fn checkout_conflict(
        &self,
        global_project_id: &str,
        registered: Option<FilePath>,
    ) -> (r: Option<FilePath>)
        ensures
            r == (if self.project_id@ == global_project_id@ {
                None
            } else {
                registered
            }),
    {
        if self.is_global(global_project_id) {
            None
        } else {
            registered
        }
    }

    /// The directory for memories of a visibility; the personal one lies
    /// outside the project.
    pub fn get_memories_dir(&self, visibility: Visibility, personal_dir: &FilePath) -> (r:
        FilePath)
        ensures
            r@ == (match visibility {
                Visibility::Shared => self.project_dir@.push(PartView::Name(".engramdb"@)).push(
                    PartView::Name("memories"@),
                ),
                Visibility::Personal => personal_dir@,
            }),
    {
        match visibility {
            Visibility::Shared => self.project_dir.join_name(".engramdb").join_name("memories"),
            Visibility::Personal => personal_dir.copied(),
        }
    }

    /// The file to read for a memory, by its id or the beginning of it.
    pub fn get(&self, id: &str) -> (r: Result<FilePath, StorageError>)
        ensures
            match lookup_both(file_views(self.shared@), file_views(self.personal@), id@) {
                Lookup::Found(path) => r matches Ok(p) && p@ == path,
                Lookup::Missing => r matches Err(e) && e.misses(id@),
                Lookup::Ambiguous(n) => r matches Err(e) && e.refuses(ambiguous_text(id@, n)),
            },
    {
        let first = current_file(self.shared.as_slice(), id);
        if falls_through(&first) {
            current_file(self.personal.as_slice(), id)
        } else {
            first
        }
    }

    /// The files to read for many memories, each given by its full id. Ids
    /// without a file are left out; the others keep their order.
    pub fn get_batch(&self, ids: &[String]) -> (r: Vec<(String, FilePath)>)
        ensures
            ({
                let shared = file_views(self.shared@);
                let personal = file_views(self.personal@);
                let found = crate::text::texts(ids@).filter(
                    |id: Seq<char>| on_disk(shared, id) || on_disk(personal, id),
                );
                &&& r@.len() == found.len()
                &&& forall|i: int|
                    0 <= i < r@.len() ==> (#[trigger] r@[i]).0@ == found[i] && is_batch_path(
                        shared,
                        personal,
                        found[i],
                        r@[i].1@,
                    )
            }),
    {
        let ghost shared = file_views(self.shared@);
        let ghost personal = file_views(self.personal@);
        let ghost keep = |id: Seq<char>| on_disk(shared, id) || on_disk(personal, id);
        let ghost all = crate::text::texts(ids@);
        let shared_map = scan_dir_to_map(self.shared.as_slice());
        let personal_map = scan_dir_to_map(self.personal.as_slice());
        let mut out: Vec<(String, FilePath)> = Vec::new();
        let mut i: usize = 0;
        proof {
            crate::seqs::lemma_filter_ends(all, keep);
        }
        while i < ids.len()
            invariant
                i <= ids.len(),
                shared == file_views(self.shared@),
                personal == file_views(self.personal@),
                all == crate::text::texts(ids@),
                keep == (|id: Seq<char>| on_disk(shared, id) || on_disk(personal, id)),
                forall|id: Seq<char>| #[trigger]
                    shared_map@.contains_key(id) ==> wins_batch(
                        shared,
                        id,
                        shared_map@[id] as int,
                    ),
                forall|id: Seq<char>| #[trigger]
                    on_disk(shared, id) ==> shared_map@.contains_key(id),
                forall|id: Seq<char>| #[trigger]
                    personal_map@.contains_key(id) ==> wins_batch(
                        personal,
                        id,
                        personal_map@[id] as int,
                    ),
                forall|id: Seq<char>| #[trigger]
                    on_disk(personal, id) ==> personal_map@.contains_key(id),
                out@.len() == all.take(i as int).filter(keep).len(),
                forall|j: int|
                    0 <= j < out@.len() ==> (#[trigger] out@[j]).0@ == all.take(i as int).filter(
                        keep,
                    )[j] && is_batch_path(shared, personal, out@[j].0@, out@[j].1@),
            decreases ids.len() - i,
        {
            let ghost id = all[i as int];
            proof {
                crate::seqs::lemma_filter_take(all, i as int, keep);
            }
            match shared_map.get(ids[i].as_str()) {
                Some(k) => {
                    assert(wins_batch(shared, id, *k as int));
                    assert(on_disk(shared, id)) by {
                        assert(holds_id(shared, id, *k as int));
                    }
                    out.push((ids[i].clone(), self.shared[*k].path.copied()));
                },
                None => match personal_map.get(ids[i].as_str()) {
                    Some(k) => {
                        assert(!on_disk(shared, id));
                        assert(wins_batch(personal, id, *k as int));
                        assert(on_disk(personal, id)) by {
                            assert(holds_id(personal, id, *k as int));
                        }
                        out.push((ids[i].clone(), self.personal[*k].path.copied()));
                    },
                    None => {
                        assert(!on_disk(shared, id) && !on_disk(personal, id));
                    },
                },
            }
            i += 1;
        }
        proof {
            crate::seqs::lemma_filter_ends(all, keep);
        }
        out
    }

    /// Those of the given ids that have a file, each once.
    pub fn batch_exists(&self, ids: &[String]) -> (r: Vec<String>)
        ensures
            crate::text::texts(r@).no_duplicates(),
            forall|id: Seq<char>| #[trigger]
                crate::text::texts(r@).contains(id) <==> crate::text::texts(ids@).contains(id) && (
                on_disk(file_views(self.shared@), id) || on_disk(file_views(self.personal@), id)),
    {
        let ghost shared = file_views(self.shared@);
        let ghost personal = file_views(self.personal@);
        let ghost all = crate::text::texts(ids@);
        let mut stems = StringHashSet::new();
        collect_stems(self.shared.as_slice(), &mut stems);
        collect_stems(self.personal.as_slice(), &mut stems);
        let mut seen = StringHashSet::new();
        let mut out: Vec<String> = Vec::new();
        let mut i: usize = 0;
        while i < ids.len()
            invariant
                i <= ids.len(),
                all == crate::text::texts(ids@),
                forall|id: Seq<char>| #[trigger]
                    stems@.contains(id) <==> on_disk(shared, id) || on_disk(personal, id),
                crate::text::texts(out@).no_duplicates(),
                forall|id: Seq<char>| #[trigger]
                    seen@.contains(id) <==> crate::text::texts(out@).contains(id),
                forall|id: Seq<char>| #[trigger]
                    seen@.contains(id) <==> all.take(i as int).contains(id) && stems@.contains(id),
            decreases ids.len() - i,
        {
            let ghost id = all[i as int];
            let ghost before = crate::text::texts(out@);
            let ghost old_seen = seen@;
            if stems.contains(ids[i].as_str()) && !seen.contains(ids[i].as_str()) {
                seen.insert(ids[i].clone());
                out.push(ids[i].clone());
                proof {
                    let after = crate::text::texts(out@);
                    assert(after =~= before.push(id));
                    assert(!before.contains(id));
                    assert forall|x: Seq<char>| #[trigger]
                        seen@.contains(x) <==> after.contains(x) by {
                        if before.contains(x) {
                            let k = choose|k: int| 0 <= k < before.len() && before[k] == x;
                            assert(after[k] == x);
                        }
                        assert(after[before.len() as int] == id);
                        if after.contains(x) && x != id {
                            let k = choose|k: int| 0 <= k < after.len() && after[k] == x;
                            assert(before[k] == x);
                        }
                    }
                }
            }
            proof {
                let old_take = all.take(i as int);
                let new_take = all.take(i + 1);
                assert forall|x: Seq<char>| #[trigger]
                    seen@.contains(x) <==> new_take.contains(x) && stems@.contains(x) by {
                    assert(new_take[i as int] == id);
                    if old_take.contains(x) {
                        let k = choose|k: int| 0 <= k < old_take.len() && old_take[k] == x;
                        assert(new_take[k] == x);
                    }
                    if new_take.contains(x) && x != id {
                        let k = choose|k: int| 0 <= k < new_take.len() && new_take[k] == x;
                        assert(old_take[k] == x);
                    }
                    assert(old_seen.contains(x) <==> old_take.contains(x) && stems@.contains(x));
                }
            }
            i += 1;
        }
        assert(all.take(i as int) =~= all);
        assert forall|id: Seq<char>| #[trigger]
            crate::text::texts(out@).contains(id) <==> crate::text::texts(ids@).contains(id) && (
            on_disk(file_views(self.shared@), id) || on_disk(file_views(self.personal@), id)) by {
            assert(seen@.contains(id) <==> crate::text::texts(out@).contains(id));
            assert(stems@.contains(id) <==> on_disk(shared, id) || on_disk(personal, id));
        }
        out
    }

    /// The warning about an index that has fallen out of step with the files.
    pub fn check_staleness(&self, indexed: usize, checkout_conflict: bool) -> (r: Option<String>)
        requires
            self.shared@.len() + self.personal@.len() <= usize::MAX,
        ensures
            ({
                let md = |f: FileView| crate::path::is_markdown_path(f.path);
                let on_disk = file_views(self.shared@).filter(md).len() + file_views(
                    self.personal@,
                ).filter(md).len();
                crate::text::opt_text(r) == (if checkout_conflict || on_disk == indexed {
                    None
                } else {
                    Some(staleness_text(on_disk, indexed as nat))
                })
            }),
    {
        let shared = count_md_files(self.shared.as_slice());
        let personal = count_md_files(self.personal.as_slice());
        proof {
            let md = |f: FileView| crate::path::is_markdown_path(f.path);
            file_views(self.shared@).lemma_filter_len(md);
            file_views(self.personal@).lemma_filter_len(md);
        }
        staleness_message(shared + personal, indexed, checkout_conflict)
    }
}

/// Adds the ids of the memory files to a set.
fn collect_stems(files: &[MemoryFile], stems: &mut StringHashSet)
    ensures
        forall|id: Seq<char>| #[trigger]
            final(stems)@.contains(id) <==> old(stems)@.contains(id) || on_disk(
                file_views(files@),
                id,
            ),
{
    let ghost all = file_views(files@);
    let ghost start = stems@;
    let mut i: usize = 0;
    while i < files.len()
        invariant
            i <= files.len(),
            all == file_views(files@),
            forall|id: Seq<char>| #[trigger] start.contains(id) ==> stems@.contains(id),
            forall|id: Seq<char>, j: int| #[trigger]
                holds_id(all, id, j) && j < i ==> stems@.contains(id),
            forall|id: Seq<char>| #[trigger]
                stems@.contains(id) ==> start.contains(id) || on_disk(all, id),
        decreases files.len() - i,
    {
        if files[i].path.is_markdown() {
            assert(holds_id(all, all[i as int].id, i as int));
            stems.insert(files[i].id.clone());
        }
        i += 1;
    }
    assert forall|id: Seq<char>| #[trigger]
        stems@.contains(id) <==> start.contains(id) || on_disk(all, id) by {
        if on_disk(all, id) {
            let j = choose|j: int| holds_id(all, id, j);
            assert(holds_id(all, id, j) && j < i);
        }
    }
}

} // verus!
