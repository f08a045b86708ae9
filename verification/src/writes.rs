//! In what order the files of a memory are written and removed.
//!
//! A new file is written before any old one is removed, and is itself never
//! removed. Whatever cuts an operation short, the memory keeps a file: at worst
//! it has two, of which the newer one is the current one.

use crate::error::StorageError;
use crate::memory::Visibility;
use crate::path::{FilePath, PartView};
use crate::store::{
    exact, falls_through, file_views, find_memory_files, located, FileView, MemoryFile,
    MemoryStore,
};
use crate::text::same_text;
use vstd::hash_set::StringHashSet;
use vstd::prelude::*;

verus! {

broadcast use vstd::string::group_string_axioms;

/// One change to the files of a store.
#[derive(Debug)]
pub enum Step {
    /// Put the memory's new contents at the path, in one go.
    Write(FilePath),
    /// Remove the file at the path; that it is gone already does not matter.
    Remove(FilePath),
}

/// The mathematical value of a step.
pub enum StepView {
    Write(Seq<PartView>),
    Remove(Seq<PartView>),
}

impl View for Step {
    type V = StepView;

    open spec fn view(&self) -> StepView {
        match *self {
            Step::Write(p) => StepView::Write(p@),
            Step::Remove(p) => StepView::Remove(p@),
        }
    }
}

/// The values of steps.
pub open spec fn step_views(steps: Seq<Step>) -> Seq<StepView> {
    Seq::new(steps.len(), |i: int| steps[i]@)
}

/// The removal of each of the files, but for the one at `keep`.
pub open spec fn removals(files: Seq<FileView>, keep: Seq<PartView>) -> Seq<StepView> {
    files.filter(|f: FileView| f.path != keep).map_values(
        |f: FileView| StepView::Remove(f.path),
    )
}

/// Appends the removal of each of the files, but for the one at `keep`.
fn push_removals(steps: &mut Vec<Step>, files: &[MemoryFile], keep: &FilePath)
    ensures
        step_views(final(steps)@) == step_views(old(steps)@) + removals(file_views(files@), keep@),
{
    let ghost all = file_views(files@);
    let ghost other = |f: FileView| f.path != keep@;
    let ghost gone = |f: FileView| StepView::Remove(f.path);
    let ghost start = step_views(steps@);
    let mut i: usize = 0;
    proof {
        crate::seqs::lemma_filter_ends(all, other);
        assert(step_views(steps@) =~= start + all.take(0).filter(other).map_values(gone));
    }
    while i < files.len()
        invariant
            i <= files.len(),
            all == file_views(files@),
            other == (|f: FileView| f.path != keep@),
            gone == (|f: FileView| StepView::Remove(f.path)),
            step_views(steps@) == start + all.take(i as int).filter(other).map_values(gone),
        decreases files.len() - i,
    {
        proof {
            crate::seqs::lemma_filter_take(all, i as int, other);
        }
        if !files[i].path.same(keep) {
            let ghost before = step_views(steps@);
            let ghost kept = all.take(i as int).filter(other);
            steps.push(Step::Remove(files[i].path.copied()));
            proof {
                assert(step_views(steps@) =~= before.push(gone(all[i as int])));
                assert(kept.push(all[i as int]).map_values(gone) =~= kept.map_values(gone).push(
                    gone(all[i as int]),
                ));
                assert(step_views(steps@) =~= start + kept.push(all[i as int]).map_values(gone));
            }
        }
        i += 1;
    }
    proof {
        crate::seqs::lemma_filter_ends(all, other);
    }
}

/// The files with exactly the given id.
fn exact_files(files: &[MemoryFile], id: &str) -> (r: Vec<MemoryFile>)
    ensures
        file_views(r@) == exact(file_views(files@), id@),
{
    let ghost all = file_views(files@);
    let ghost same = |f: FileView| f.id == id@;
    let mut out: Vec<MemoryFile> = Vec::new();
    let mut i: usize = 0;
    proof {
        crate::seqs::lemma_filter_ends(all, same);
        assert(file_views(out@) =~= Seq::empty());
    }
    while i < files.len()
        invariant
            i <= files.len(),
            all == file_views(files@),
            same == (|f: FileView| f.id == id@),
            file_views(out@) == all.take(i as int).filter(same),
        decreases files.len() - i,
    {
        proof {
            crate::seqs::lemma_filter_take(all, i as int, same);
        }
        if same_text(files[i].id.as_str(), id) {
            let ghost before = file_views(out@);
            out.push(files[i].copied());
            assert(file_views(out@) =~= before.push(all[i as int]));
        }
        i += 1;
    }
    proof {
        crate::seqs::lemma_filter_ends(all, same);
    }
    out
}

/// The steps that put a memory at a path and then remove the files that it had
/// before, other than that one.
pub open spec fn replacement(path: Seq<PartView>, old: Seq<FileView>) -> Seq<StepView> {
    seq![StepView::Write(path)] + removals(old, path)
}

/// The steps that create a memory: where its id was known before, its files in
/// both directories go.
pub open spec fn creation(
    shared: Seq<FileView>,
    personal: Seq<FileView>,
    id: Seq<char>,
    path: Seq<PartView>,
    known: bool,
) -> Seq<StepView> {
    if known {
        replacement(path, exact(shared, id) + exact(personal, id))
    } else {
        seq![StepView::Write(path)]
    }
}

/// What becomes of a request to delete.
pub enum Deletion {
    /// These files go.
    Files(Seq<FileView>),
    /// No file has the id.
    Missing,
    /// The id fits several memories of a directory, with these files.
    Ambiguous(Seq<FileView>),
}

/// The files that go when a memory is deleted: those of the shared directory,
/// and where it has none, those of the personal one.
pub open spec fn deletion(
    shared: Seq<FileView>,
    personal: Seq<FileView>,
    id: Seq<char>,
) -> Deletion {
    match located(shared, id) {
        None => Deletion::Ambiguous(shared),
        Some(found) => if found.len() > 0 {
            Deletion::Files(found)
        } else {
            match located(personal, id) {
                None => Deletion::Ambiguous(personal),
                Some(found) => if found.len() > 0 {
                    Deletion::Files(found)
                } else {
                    Deletion::Missing
                },
            }
        },
    }
}

/// The files to delete in one directory.
fn delete_file_from_dir(files: &[MemoryFile], id: &str) -> (r: Result<
    Vec<MemoryFile>,
    StorageError,
>)
    ensures
        match located(file_views(files@), id@) {
            None => r matches Err(e) && e.refuses(
                crate::store::ambiguous_text(
                    id@,
                    crate::store::ids_of(crate::store::hits(file_views(files@), id@)).len(),
                ),
            ),
            Some(found) => if found.len() == 0 {
                r matches Err(e) && e.misses(id@)
            } else {
                r matches Ok(v) && file_views(v@) == found
            },
        },
{
    match find_memory_files(files, id) {
        Ok(found) => if found.len() == 0 {
            Err(StorageError::NotFound(id.to_owned()))
        } else {
            Ok(found)
        },
        Err(e) => Err(e),
    }
}

impl MemoryStore {
    /// The steps that create a memory at `path`: the new file, and then, where
    /// the id is known already, the removal of every other file with exactly
    /// that id in both directories.
    pub fn create(&self, id: &str, path: &FilePath, known: bool) -> (r: Vec<Step>)
        ensures
            step_views(r@) == creation(
                file_views(self.shared@),
                file_views(self.personal@),
                id@,
                path@,
                known,
            ),
    {
        let mut steps: Vec<Step> = Vec::new();
        steps.push(Step::Write(path.copied()));
        assert(step_views(steps@) =~= seq![StepView::Write(path@)]);
        if known {
            let shared = exact_files(self.shared.as_slice(), id);
            let personal = exact_files(self.personal.as_slice(), id);
            push_removals(&mut steps, shared.as_slice(), path);
            push_removals(&mut steps, personal.as_slice(), path);
            proof {
                let other = |f: FileView| f.path != path@;
                let gone = |f: FileView| StepView::Remove(f.path);
                let a = file_views(shared@);
                let b = file_views(personal@);
                Seq::filter_distributes_over_add(a, b, other);
                assert((a.filter(other) + b.filter(other)).map_values(gone) =~= a.filter(
                    other,
                ).map_values(gone) + b.filter(other).map_values(gone));
                assert(step_views(steps@) =~= replacement(path@, a + b));
            }
        }
        steps
    }

    /// The steps that write a changed memory: the new file, and then the
    /// removal of every other file that the memory had in the directory where
    /// it was.
    pub fn update(&self, id: &str, old_visibility: Visibility, path: &FilePath) -> (r: Result<
        Vec<Step>,
        StorageError,
    >)
        ensures
            ({
                let files = file_views(match old_visibility {
                    Visibility::Shared => self.shared@,
                    Visibility::Personal => self.personal@,
                });
                match located(files, id@) {
                    Some(old) => r matches Ok(steps) && step_views(steps@) == replacement(
                        path@,
                        old,
                    ),
                    None => r matches Err(e) && e.refuses(
                        crate::store::ambiguous_text(
                            id@,
                            crate::store::ids_of(crate::store::hits(files, id@)).len(),
                        ),
                    ),
                }
            }),
    {
        let files = match old_visibility {
            Visibility::Shared => self.shared.as_slice(),
            Visibility::Personal => self.personal.as_slice(),
        };
        let old = match find_memory_files(files, id) {
            Ok(old) => old,
            Err(e) => return Err(e),
        };
        let mut steps: Vec<Step> = Vec::new();
        steps.push(Step::Write(path.copied()));
        assert(step_views(steps@) =~= seq![StepView::Write(path@)]);
        push_removals(&mut steps, old.as_slice(), path);
        Ok(steps)
    }

    /// The files to remove when a memory is deleted: all that the shared
    /// directory has for the id, and only where it has none, all that the
    /// personal one has.
    pub fn delete(&self, id: &str) -> (r: Result<Vec<MemoryFile>, StorageError>)
        ensures
            match deletion(file_views(self.shared@), file_views(self.personal@), id@) {
                Deletion::Files(found) => r matches Ok(v) && file_views(v@) == found,
                Deletion::Missing => r matches Err(e) && e.misses(id@),
                Deletion::Ambiguous(files) => r matches Err(e) && e.refuses(
                    crate::store::ambiguous_text(
                        id@,
                        crate::store::ids_of(crate::store::hits(files, id@)).len(),
                    ),
                ),
            },
    {
        let first = delete_file_from_dir(self.shared.as_slice(), id);
        if falls_through(&first) {
            delete_file_from_dir(self.personal.as_slice(), id)
        } else {
            first
        }
    }
}

// ---------------------------------------------------------------------------
// Many memories at once
// ---------------------------------------------------------------------------

/// A file of a memory: where it is, and whose it is.
#[derive(Debug)]
pub struct Placed {
    pub path: FilePath,
    pub id: String,
}

/// The mathematical value of a placed file.
#[verifier::ext_equal]
pub struct PlacedView {
    pub path: Seq<PartView>,
    pub id: Seq<char>,
}

impl View for Placed {
    type V = PlacedView;

    open spec fn view(&self) -> PlacedView {
        PlacedView { path: self.path@, id: self.id@ }
    }
}

/// The values of placed files.
pub open spec fn placed_views(files: Seq<Placed>) -> Seq<PlacedView> {
    Seq::new(files.len(), |i: int| files[i]@)
}

/// What listed files are of.
pub open spec fn placing(files: Seq<FileView>) -> Seq<PlacedView> {
    Seq::new(files.len(), |i: int| PlacedView { path: files[i].path, id: files[i].id })
}

/// The files of a store and the steps that were taken on them.
pub struct Progress {
    pub files: Seq<PlacedView>,
    pub steps: Seq<StepView>,
}

/// Whether a file is of the memory that was just written, but not that file.
pub open spec fn superseded(f: PlacedView, new: PlacedView) -> bool {
    f.id == new.id && f.path != new.path
}

/// The creation of one more memory.
pub open spec fn create_one(p: Progress, new: PlacedView, known: bool) -> Progress {
    let written = p.files.filter(|f: PlacedView| f.path != new.path).push(new);
    if known {
        Progress {
            files: written.filter(|f: PlacedView| !superseded(f, new)),
            steps: p.steps.push(StepView::Write(new.path)) + written.filter(
                |f: PlacedView| superseded(f, new),
            ).map_values(|f: PlacedView| StepView::Remove(f.path)),
        }
    } else {
        Progress { files: written, steps: p.steps.push(StepView::Write(new.path)) }
    }
}

/// Whether the last one of several files is of a memory that one before it is of.
pub open spec fn repeats(new: Seq<PlacedView>) -> bool {
    exists|j: int| 0 <= j < new.len() - 1 && (#[trigger] new[j]).id == new.last().id
}

/// The creation of several memories, one after another. An id is known where it
/// was before the first of them, or where one of them had it.
pub open spec fn create_all(
    files: Seq<PlacedView>,
    new: Seq<PlacedView>,
    known: spec_fn(Seq<char>) -> bool,
) -> Progress
    decreases new.len(),
{
    if new.len() == 0 {
        Progress { files, steps: Seq::empty() }
    } else {
        create_one(
            create_all(files, new.drop_last(), known),
            new.last(),
            known(new.last().id) || repeats(new),
        )
    }
}

/// The ids of placed files, in their order.
pub open spec fn ids_placed(new: Seq<PlacedView>) -> Seq<Seq<char>> {
    new.map_values(|f: PlacedView| f.id)
}

/// The ids that the directories of a store have memory files for.
pub open spec fn known_ids(shared: Seq<FileView>, personal: Seq<FileView>) -> spec_fn(
    Seq<char>,
) -> bool {
    |id: Seq<char>| crate::store::on_disk(shared, id) || crate::store::on_disk(personal, id)
}

/// The creation of several memories.
#[derive(Debug)]
pub struct Creations {
    /// The ids of the memories, as they were given.
    pub ids: Vec<String>,
    pub steps: Vec<Step>,
}

/// Appends a listing to the placed files.
fn push_placing(files: &mut Vec<Placed>, listed: &[MemoryFile])
    ensures
        placed_views(final(files)@) == placed_views(old(files)@) + placing(file_views(listed@)),
{
    let ghost start = placed_views(files@);
    let mut i: usize = 0;
    assert(start =~= start + placing(file_views(listed@)).take(0));
    while i < listed.len()
        invariant
            i <= listed.len(),
            placed_views(files@) == start + placing(file_views(listed@)).take(i as int),
        decreases listed.len() - i,
    {
        let ghost before = placed_views(files@);
        files.push(Placed { path: listed[i].path.copied(), id: listed[i].id.clone() });
        proof {
            let all = placing(file_views(listed@));
            assert(placed_views(files@) =~= before.push(all[i as int]));
            assert(start + all.take(i + 1) =~= (start + all.take(i as int)).push(all[i as int]));
        }
        i += 1;
    }
    assert(placing(file_views(listed@)).take(i as int) =~= placing(file_views(listed@)));
}

/// Creates one more memory: appends the steps, and keeps the list of files.
fn create_next(
    files: Vec<Placed>,
    steps: &mut Vec<Step>,
    new: &Placed,
    known: bool,
) -> (r: Vec<Placed>)
    ensures
        ({
            let before = Progress {
                files: placed_views(files@),
                steps: step_views(old(steps)@),
            };
            let after = create_one(before, new@, known);
            placed_views(r@) == after.files && step_views(final(steps)@) == after.steps
        }),
{
    let ghost all = placed_views(files@);
    let ghost elsewhere = |f: PlacedView| f.path != new@.path;
    let ghost old_steps = step_views(steps@);
    let mut written: Vec<Placed> = Vec::new();
    let mut i: usize = 0;
    proof {
        crate::seqs::lemma_filter_ends(all, elsewhere);
        assert(placed_views(written@) =~= Seq::empty());
    }
    while i < files.len()
        invariant
            i <= files.len(),
            all == placed_views(files@),
            elsewhere == (|f: PlacedView| f.path != new@.path),
            placed_views(written@) == all.take(i as int).filter(elsewhere),
        decreases files.len() - i,
    {
        proof {
            crate::seqs::lemma_filter_take(all, i as int, elsewhere);
        }
        if !files[i].path.same(&new.path) {
            let ghost before = placed_views(written@);
            written.push(Placed { path: files[i].path.copied(), id: files[i].id.clone() });
            assert(placed_views(written@) =~= before.push(all[i as int]));
        }
        i += 1;
    }
    proof {
        crate::seqs::lemma_filter_ends(all, elsewhere);
    }
    let ghost others = placed_views(written@);
    written.push(Placed { path: new.path.copied(), id: new.id.clone() });
    steps.push(Step::Write(new.path.copied()));
    let ghost now = placed_views(written@);
    let ghost first = step_views(steps@);
    assert(now =~= others.push(new@));
    assert(first =~= old_steps.push(StepView::Write(new@.path)));
    if !known {
        return written;
    }
    let ghost stale = |f: PlacedView| superseded(f, new@);
    let ghost fresh = |f: PlacedView| !superseded(f, new@);
    let ghost gone = |f: PlacedView| StepView::Remove(f.path);
    let mut kept: Vec<Placed> = Vec::new();
    let mut k: usize = 0;
    proof {
        crate::seqs::lemma_filter_ends(now, stale);
        crate::seqs::lemma_filter_ends(now, fresh);
        assert(placed_views(kept@) =~= Seq::empty());
        assert(first =~= first + now.take(0).filter(stale).map_values(gone));
    }
    while k < written.len()
        invariant
            k <= written.len(),
            now == placed_views(written@),
            stale == (|f: PlacedView| superseded(f, new@)),
            fresh == (|f: PlacedView| !superseded(f, new@)),
            gone == (|f: PlacedView| StepView::Remove(f.path)),
            placed_views(kept@) == now.take(k as int).filter(fresh),
            step_views(steps@) == first + now.take(k as int).filter(stale).map_values(gone),
        decreases written.len() - k,
    {
        proof {
            crate::seqs::lemma_filter_take(now, k as int, stale);
            crate::seqs::lemma_filter_take(now, k as int, fresh);
        }
        if same_text(written[k].id.as_str(), new.id.as_str()) && !written[k].path.same(&new.path) {
            let ghost before = step_views(steps@);
            let ghost removed = now.take(k as int).filter(stale);
            steps.push(Step::Remove(written[k].path.copied()));
            proof {
                assert(step_views(steps@) =~= before.push(gone(now[k as int])));
                assert(removed.push(now[k as int]).map_values(gone) =~= removed.map_values(
                    gone,
                ).push(gone(now[k as int])));
                assert(step_views(steps@) =~= first + removed.push(now[k as int]).map_values(gone));
            }
        } else {
            let ghost before = placed_views(kept@);
            kept.push(Placed { path: written[k].path.copied(), id: written[k].id.clone() });
            assert(placed_views(kept@) =~= before.push(now[k as int]));
        }
        k += 1;
    }
    proof {
        crate::seqs::lemma_filter_ends(now, stale);
        crate::seqs::lemma_filter_ends(now, fresh);
    }
    kept
}

/// The ids of placed files.
fn placed_ids(new: &[Placed]) -> (r: Vec<String>)
    ensures
        crate::text::texts(r@) == ids_placed(placed_views(new@)),
{
    let mut ids: Vec<String> = Vec::new();
    let mut i: usize = 0;
    while i < new.len()
        invariant
            i <= new.len(),
            ids@.len() == i,
            forall|j: int| 0 <= j < i ==> (#[trigger] ids@[j])@ == new@[j].id@,
        decreases new.len() - i,
    {
        ids.push(new[i].id.clone());
        i += 1;
    }
    assert(crate::text::texts(ids@) =~= ids_placed(placed_views(new@)));
    ids
}

impl MemoryStore {
    /// The ids of several memories, and the steps that create them, one after
    /// another, as `create` does each. Which ids the store knows is settled
    /// before anything is written; an id that is given twice is known from its
    /// first write on, so that it is written twice and the later write wins.
    pub fn create_batch(&self, new: &[Placed]) -> (r: Creations)
        ensures
            crate::text::texts(r.ids@) == ids_placed(placed_views(new@)),
            step_views(r.steps@) == create_all(
                placing(file_views(self.shared@)) + placing(file_views(self.personal@)),
                placed_views(new@),
                known_ids(file_views(self.shared@), file_views(self.personal@)),
            ).steps,
    {
        let ghost known = known_ids(file_views(self.shared@), file_views(self.personal@));
        let ghost start = placing(file_views(self.shared@)) + placing(
            file_views(self.personal@),
        );
        let ghost all = placed_views(new@);
        let ids = placed_ids(new);
        let found = self.batch_exists(ids.as_slice());
        let mut files: Vec<Placed> = Vec::new();
        assert(placed_views(files@) =~= Seq::empty());
        push_placing(&mut files, self.shared.as_slice());
        push_placing(&mut files, self.personal.as_slice());
        assert(placed_views(files@) =~= start);
        let mut steps: Vec<Step> = Vec::new();
        let mut given = StringHashSet::new();
        let mut i: usize = 0;
        assert(step_views(steps@) =~= Seq::empty());
        assert(all.take(0) =~= Seq::empty());
        while i < new.len()
            invariant
                i <= new.len(),
                all == placed_views(new@),
                known == known_ids(file_views(self.shared@), file_views(self.personal@)),
                crate::text::texts(ids@) == ids_placed(all),
                forall|id: Seq<char>| #[trigger]
                    crate::text::texts(found@).contains(id) <==> crate::text::texts(
                        ids@,
                    ).contains(id) && known(id),
                forall|id: Seq<char>| #[trigger]
                    given@.contains(id) <==> exists|j: int|
                        0 <= j < i && (#[trigger] all[j]).id == id,
                placed_views(files@) == create_all(start, all.take(i as int), known).files,
                step_views(steps@) == create_all(start, all.take(i as int), known).steps,
            decreases new.len() - i,
        {
            let is_known = crate::text::contains_text(found.as_slice(), new[i].id.as_str())
                || given.contains(new[i].id.as_str());
            proof {
                let so_far = all.take(i + 1);
                let id = all[i as int].id;
                assert(so_far.drop_last() =~= all.take(i as int));
                assert(so_far.last() == all[i as int]);
                assert(crate::text::texts(ids@)[i as int] == new@[i as int].id@);
                assert(crate::text::texts(ids@).contains(new@[i as int].id@));
                assert(given@.contains(id) <==> repeats(so_far)) by {
                    if given@.contains(id) {
                        let j = choose|j: int| 0 <= j < i && (#[trigger] all[j]).id == id;
                        assert(so_far[j].id == so_far.last().id);
                    }
                    if repeats(so_far) {
                        let j = choose|j: int|
                            0 <= j < so_far.len() - 1 && (#[trigger] so_far[j]).id
                                == so_far.last().id;
                        assert(all[j].id == id);
                    }
                }
                assert(is_known == (known(id) || repeats(so_far)));
            }
            files = create_next(files, &mut steps, &new[i], is_known);
            let ghost before = given@;
            given.insert(new[i].id.clone());
            proof {
                assert forall|id: Seq<char>| #[trigger] given@.contains(id) <==> exists|j: int|
                    0 <= j < i + 1 && (#[trigger] all[j]).id == id by {
                    assert(before.contains(id) <==> exists|j: int|
                        0 <= j < i && (#[trigger] all[j]).id == id);
                    assert(all[i as int].id == new@[i as int].id@);
                }
            }
            i += 1;
        }
        assert(all.take(i as int) =~= all);
        Creations { ids, steps }
    }
}

} // verus!
