//! What holds of what the operations on memories, batches, stray stores and tasks
//! come to.
use vstd::prelude::*;

use crate::batches::{
    batch_rows, index_row, unresolved, ChunkWrite, GuardedChunkWrite, IndexRow, Planned,
    UpdateReport,
};
use crate::challenge::Challenge;
use crate::error::StorageError;
use crate::manifest::{ManifestStats, Missing, Opening, Present, Stamps};
use crate::memory::{Memory, MemoryUpdate, Status};
use crate::path::{FilePath, PartView};
use crate::plan_laws::{brings_vectors, ends_at, is_first_found, is_text, lacks};
use crate::store::MemoryStore;
use crate::task_state::{Cleared, SessionTasks};
use crate::time::Timestamp;
use crate::worktree::{
    consolidate_worktree_into_main, may_remove_stray_store, migrate_dir, relocate,
    resolve_project_root, Consolidation, Migration, Resolution, Stray,
};

verus! {

broadcast use vstd::string::group_string_axioms;

// ---------------------------------------------------------------------------
// Memories
// ---------------------------------------------------------------------------

/// That one optional text is another.
pub open spec fn same_option(a: Option<String>, b: Option<String>) -> bool {
    match (a, b) {
        (Some(x), Some(y)) => x@ == y@,
        (None, None) => true,
        _ => false,
    }
}

/// That two lists hold the same texts.
pub open spec fn same_texts(a: Seq<String>, b: Seq<String>) -> bool {
    a.len() == b.len() && forall|i: int| 0 <= i < a.len() ==> (#[trigger] a[i])@ == b[i]@
}

/// Each field is updated on its own: what the update gives is taken, whatever else
/// it gives, and what it does not give stays.
pub proof fn an_update_changes_each_field_on_its_own(
    u: &MemoryUpdate,
    m: &mut Memory,
    now: Timestamp,
)
    requires
        call_ensures(MemoryUpdate::apply_to_at, (u, m, now), ()),
    ensures
        u.summary matches Some(v) ==> final(m).summary@ == v@,
        u.summary is None ==> final(m).summary@ == old(m).summary@,
        u.content matches Some(v) ==> final(m).content@ == v@,
        u.content is None ==> final(m).content@ == old(m).content@,
        u.title is Some ==> same_option(final(m).title, u.title),
        u.title is None ==> same_option(final(m).title, old(m).title),
        u.details is Some ==> same_option(final(m).details, u.details),
        u.details is None ==> same_option(final(m).details, old(m).details),
        u.tags matches Some(v) ==> same_texts(final(m).tags@, v@),
        u.tags is None ==> same_texts(final(m).tags@, old(m).tags@),
        u.physical matches Some(v) ==> same_texts(final(m).physical@, v@),
        u.physical is None ==> same_texts(final(m).physical@, old(m).physical@),
        u.logical matches Some(v) ==> same_texts(final(m).logical@, v@),
        u.logical is None ==> same_texts(final(m).logical@, old(m).logical@),
        u.supersedes matches Some(v) ==> same_texts(final(m).supersedes@, v@),
        u.supersedes is None ==> same_texts(final(m).supersedes@, old(m).supersedes@),
        u.type_ matches Some(v) ==> final(m).type_ == v,
        u.type_ is None ==> final(m).type_ == old(m).type_,
        u.epistemic matches Some(v) ==> final(m).epistemic == v,
        u.epistemic is None ==> final(m).epistemic == old(m).epistemic,
        u.criticality matches Some(v) ==> final(m).criticality == v,
        u.criticality is None ==> final(m).criticality == old(m).criticality,
        u.confidence matches Some(v) ==> final(m).confidence == v,
        u.confidence is None ==> final(m).confidence == old(m).confidence,
        u.status matches Some(v) ==> final(m).status == v,
        u.status is None ==> final(m).status == old(m).status,
        u.visibility matches Some(v) ==> final(m).visibility == v,
        u.visibility is None ==> final(m).visibility == old(m).visibility,
        u.provenance matches Some(v) ==> final(m).provenance == v,
        u.provenance is None ==> final(m).provenance == old(m).provenance,
        u.challenges matches Some(v) ==> final(m).challenges@ == v@,
        u.challenges is None ==> final(m).challenges@ == old(m).challenges@,
        u.decay is Some ==> final(m).decay == u.decay,
        u.decay is None ==> final(m).decay == old(m).decay,
        u.valid_from is Some ==> final(m).valid_from == u.valid_from,
        u.valid_from is None ==> final(m).valid_from == old(m).valid_from,
        u.verified_at is Some ==> final(m).verified_at == u.verified_at,
        u.verified_at is None ==> final(m).verified_at == old(m).verified_at,
        u.expires_at is Some ==> final(m).expires_at == u.expires_at,
        u.expires_at is None ==> final(m).expires_at == old(m).expires_at,
        u.clear_invalidated ==> final(m).invalidated_at is None && final(m).superseded_by is None,
        !u.clear_invalidated && u.invalidated_at is Some ==> final(m).invalidated_at
            == u.invalidated_at,
        !u.clear_invalidated && u.invalidated_at is None ==> final(m).invalidated_at
            == old(m).invalidated_at,
        !u.clear_invalidated && u.superseded_by is Some ==> same_option(
            final(m).superseded_by,
            u.superseded_by,
        ),
        !u.clear_invalidated && u.superseded_by is None ==> same_option(
            final(m).superseded_by,
            old(m).superseded_by,
        ),
        final(m).id@ == old(m).id@,
        final(m).created_at == old(m).created_at,
        final(m).accessed_at == old(m).accessed_at,
        final(m).updated_at == now,
{
    assert(final(m)@ == crate::memory::with_update(old(m)@, u@, now));
    lemma_same_texts(final(m).tags@, old(m).tags@);
    lemma_same_texts(final(m).physical@, old(m).physical@);
    lemma_same_texts(final(m).logical@, old(m).logical@);
    lemma_same_texts(final(m).supersedes@, old(m).supersedes@);
    if let Some(v) = u.tags {
        lemma_same_texts(final(m).tags@, v@);
    }
    if let Some(v) = u.physical {
        lemma_same_texts(final(m).physical@, v@);
    }
    if let Some(v) = u.logical {
        lemma_same_texts(final(m).logical@, v@);
    }
    if let Some(v) = u.supersedes {
        lemma_same_texts(final(m).supersedes@, v@);
    }
}

proof fn lemma_same_texts(a: Seq<String>, b: Seq<String>)
    ensures
        crate::text::texts(a) == crate::text::texts(b) ==> same_texts(a, b),
{
    let x = crate::text::texts(a);
    let y = crate::text::texts(b);
    if x == y {
        assert(a.len() == x.len() && b.len() == y.len());
        assert forall|i: int| 0 <= i < a.len() implies (#[trigger] a[i])@ == b[i]@ by {
            assert(x[i] == a[i]@);
            assert(y[i] == b[i]@);
        }
    }
}

/// A memory is in force exactly where it is active, has not expired and has not
/// been invalidated by then.
pub proof fn a_memory_is_in_force_by_status_and_time(m: &Memory, now: Timestamp, r: bool)
    requires
        call_ensures(Memory::is_active_at, (m, now), r),
    ensures
        r <==> {
            &&& m.status == Status::Active
            &&& !(m.expires_at matches Some(t) && (t.secs < now.secs || (t.secs == now.secs
                && t.nanos < now.nanos)))
            &&& !(m.invalidated_at matches Some(t) && (t.secs < now.secs || (t.secs == now.secs
                && t.nanos <= now.nanos)))
        },
{
}

/// A challenge is added behind the others and marks the memory as challenged, at
/// the time it was made.
pub proof fn a_challenge_is_put_behind_the_others(
    m: &mut Memory,
    challenge: Challenge,
    now: Timestamp,
)
    requires
        call_ensures(Memory::add_challenge_at, (m, challenge, now), ()),
    ensures
        final(m).challenges@ == old(m).challenges@.push(challenge),
        final(m).status == Status::Challenged,
        final(m).updated_at == now,
        final(m).content@ == old(m).content@,
        final(m).id@ == old(m).id@,
{
}

/// An edited memory is what the editor made of it, updated now. Where the editor
/// complains, so does the update.
pub proof fn an_edit_is_taken_as_it_is(
    edited: Result<Memory, String>,
    now: Timestamp,
    r: Result<Memory, StorageError>,
)
    requires
        call_ensures(MemoryStore::update_with, (edited, now), r),
    ensures
        edited is Ok <==> r is Ok,
        edited is Ok ==> r->Ok_0@.content == edited->Ok_0@.content && r->Ok_0@.summary
            == edited->Ok_0@.summary && r->Ok_0@.tags == edited->Ok_0@.tags && r->Ok_0@.id
            == edited->Ok_0@.id && r->Ok_0@.status == edited->Ok_0@.status
            && r->Ok_0@.created_at == edited->Ok_0@.created_at && r->Ok_0@.updated_at == now,
        edited is Err ==> (r->Err_0 matches StorageError::Validation(t) && t@ == edited->Err_0@),
{
}

/// Invalidating a memory ends its validity at the given time, names what took its
/// place, and leaves what it says.
pub proof fn invalidating_ends_the_validity(
    m: &mut Memory,
    superseded_by: Option<String>,
    now: Timestamp,
    written_at: Timestamp,
)
    requires
        call_ensures(MemoryStore::invalidate_with, (m, superseded_by, now, written_at), ()),
    ensures
        final(m).invalidated_at == Some(now),
        same_option(final(m).superseded_by, superseded_by),
        final(m).updated_at == written_at,
        final(m).id@ == old(m).id@,
        final(m).content@ == old(m).content@,
        final(m).summary@ == old(m).summary@,
        final(m).status == old(m).status,
        final(m).created_at == old(m).created_at,
        final(m).expires_at == old(m).expires_at,
{
}

// ---------------------------------------------------------------------------
// Batches
// ---------------------------------------------------------------------------

/// The ids for which nothing was read are all looked up once more, and no other.
pub proof fn an_id_that_was_not_read_is_looked_up(
    ids: &[String],
    read: &[(String, Memory)],
    r: Vec<String>,
    k: int,
)
    requires
        call_ensures(unresolved, (ids, read), r),
        0 <= k < ids@.len(),
    ensures
        lacks(read@, ids@[k]@) <==> exists|l: int|
            0 <= l < r@.len() && (#[trigger] r@[l])@ == ids@[k]@,
{
    let id = ids@[k]@;
    let all = crate::text::texts(ids@);
    let out = crate::text::texts(r@);
    let keep = |id: Seq<char>| !crate::batches::was_read(read@, id);
    assert(all[k] == id);
    crate::plan_laws::an_id_was_read_where_a_pair_has_it(read@, id);
    crate::seqs::lemma_filter_contains(all, keep, id);
    if out.contains(id) {
        let l = choose|l: int| 0 <= l < out.len() && out[l] == id;
        assert(r@[l]@ == id);
    }
    if exists|l: int| 0 <= l < r@.len() && (#[trigger] r@[l])@ == id {
        let l = choose|l: int| 0 <= l < r@.len() && (#[trigger] r@[l])@ == id;
        assert(out[l] == id);
    }
}

/// That a plan changes a memory, given as spelled.
pub open spec fn applies(p: Planned, given: Seq<char>, m: crate::memory::MemoryView) -> bool {
    p matches Planned::Apply { given: g, memory } && g@ == given && memory@ == m
}

/// That a plan reports a spelling as missing.
pub open spec fn reports(p: Planned, given: Seq<char>) -> bool {
    p matches Planned::Missing { given: g } && g@ == given
}

/// A batch plans something for every id, in its place: the first mention of an id
/// that was read changes the memory last read for it; a mention of an id for which
/// nothing was read or found, and a second mention, is missing.
pub proof fn a_batch_update_plans_for_every_id(
    ids: &[String],
    read: Vec<(String, Memory)>,
    found: Vec<(String, Memory)>,
    r: Vec<Planned>,
    i: int,
    j: int,
    k: int,
)
    requires
        call_ensures(MemoryStore::update_batch_with, (ids, read, found), r),
        0 <= i < ids@.len(),
        found@.len() == 0,
    ensures
        r@.len() == ids@.len(),
        ends_at(read@, ids@[i]@, k) && (forall|l: int|
            0 <= l < i ==> (#[trigger] ids@[l])@ != ids@[i]@) ==> applies(
            r@[i],
            ids@[i]@,
            read@[k].1@,
        ),
        lacks(read@, ids@[i]@) ==> reports(r@[i], ids@[i]@),
        0 <= j < i && ids@[j]@ == ids@[i]@ ==> reports(r@[i], ids@[i]@),
{
    let all = crate::text::texts(ids@);
    assert(found@ =~= Seq::empty());
    let pool = crate::batches::pool_of(read@, found@);
    crate::plan_laws::a_batch_takes_the_first_mention_of_an_id(read@, all, i);
    crate::plan_laws::a_spelling_stands_for_what_was_found(read@, found@, all[i]);
    crate::plan_laws::a_batch_changes_a_memory_as_it_was_read(read@, found@, all[i]);
    let _ = r@[i];
    let before = all.take(i);
    if before.contains(all[i]) {
        let l = choose|l: int| 0 <= l < before.len() && before[l] == all[i];
        assert(ids@[l]@ == ids@[i]@);
    }
    if 0 <= j < i && ids@[j]@ == ids@[i]@ {
        assert(before[j] == all[i]);
    }
    if ends_at(read@, ids@[i]@, k) {
        assert(read@[k].0@ == ids@[i]@);
    }
}

/// A memory found under another spelling is changed under it, once.
pub proof fn a_batch_update_changes_what_was_found(
    ids: &[String],
    read: Vec<(String, Memory)>,
    found: Vec<(String, Memory)>,
    r: Vec<Planned>,
    k: int,
)
    requires
        call_ensures(MemoryStore::update_batch_with, (ids, read, found), r),
        ids@.len() > 0,
        ends_at(found@, ids@[0]@, k),
        is_first_found(found@, found@[k].1@.id, k),
        lacks(read@, found@[k].1@.id),
    ensures
        applies(r@[0], ids@[0]@, found@[k].1@),
{
    let all = crate::text::texts(ids@);
    let pool = crate::batches::pool_of(read@, found@);
    crate::plan_laws::a_spelling_stands_for_what_was_found(read@, found@, all[0]);
    crate::plan_laws::a_batch_changes_a_memory_as_it_was_read(read@, found@, found@[k].1@.id);
    let _ = r@[0];
    assert(crate::batches::takes(pool, all, 0));
}

/// A report takes what came of each change: an id that was written, or why not.
pub proof fn a_report_takes_what_came_of_a_change(
    report: &mut UpdateReport,
    given: String,
    id: String,
    outcome: Result<(), String>,
)
    requires
        call_ensures(UpdateReport::written, (report, given, id, outcome), ()),
    ensures
        outcome is Ok ==> final(report)@.updated == old(report)@.updated.push(id@)
            && final(report)@.errors == old(report)@.errors,
        outcome matches Err(why) ==> final(report)@.updated == old(report)@.updated
            && final(report)@.errors == old(report)@.errors.push((given@, why@)),
{
}

/// A spelling of no memory is reported as not found, and a memory to change is
/// handed on with nothing reported yet.
pub proof fn a_report_notes_what_is_missing(
    report: &mut UpdateReport,
    planned: Planned,
    r: Option<(String, Memory)>,
)
    requires
        call_ensures(UpdateReport::take, (report, planned), r),
    ensures
        planned matches Planned::Apply { given, memory } ==> r == Some((given, memory))
            && final(report)@ == old(report)@,
        planned matches Planned::Missing { given } ==> r is None && final(report)@.updated
            == old(report)@.updated && final(report)@.errors == old(report)@.errors.push(
            (given@, "memory not found"@),
        ),
{
}

/// An editor's complaint is reported, and nothing is written.
pub proof fn a_report_notes_what_the_editor_refused(
    report: &mut UpdateReport,
    given: &str,
    edited: Result<Memory, String>,
    now: Timestamp,
    r: Option<Memory>,
)
    requires
        call_ensures(UpdateReport::edited, (report, given, edited, now), r),
    ensures
        edited is Ok <==> r is Some,
        edited is Ok ==> r->0@.updated_at == now && r->0@.content == edited->Ok_0@.content
            && r->0@.id == edited->Ok_0@.id && final(report)@ == old(report)@,
        edited matches Err(why) ==> final(report)@.updated == old(report)@.updated
            && final(report)@.errors == old(report)@.errors.push((given@, why@)),
{
}

/// A conditional deletion goes by the memory as it was read. What is not found is
/// not deleted, and that is no error; any other error is handed on.
pub proof fn a_deletion_on_condition_goes_by_the_memory_read<F: Fn(&Memory) -> bool>(
    resolved: Result<String, StorageError>,
    read: Result<Memory, StorageError>,
    predicate: F,
    r: Result<Option<String>, StorageError>,
)
    requires
        call_ensures(MemoryStore::delete_if::<F>, (resolved, read, predicate), r),
    ensures
        resolved matches Err(StorageError::NotFound(_)) ==> r == Ok::<Option<String>, StorageError>(
            None,
        ),
        resolved matches Err(e) ==> !(e is NotFound) ==> r == Err::<Option<String>, StorageError>(e),
        resolved is Ok && (read matches Err(StorageError::NotFound(_))) ==> r == Ok::<
            Option<String>,
            StorageError,
        >(None),
        resolved is Ok ==> (read matches Err(e) ==> !(e is NotFound) ==> r == Err::<
            Option<String>,
            StorageError,
        >(e)),
        resolved matches Ok(id) ==> (read matches Ok(m) ==> {
            &&& r is Ok
            &&& !predicate.ensures((&m,), false) ==> r == Ok::<Option<String>, StorageError>(
                Some(id),
            )
            &&& !predicate.ensures((&m,), true) ==> r == Ok::<Option<String>, StorageError>(None)
        }),
{
}

/// A batch deletion on condition sorts every id: one that was not read is kept, one
/// whose memory meets the condition is deleted, and any other is kept.
pub proof fn a_batch_deletion_sorts_every_id<F: Fn(&Memory) -> bool>(
    ids: &[String],
    current: &[(String, Memory)],
    predicate: F,
    r: (Vec<String>, Vec<String>),
    i: int,
    k: int,
)
    requires
        call_ensures(MemoryStore::delete_batch_if::<F>, (ids, current, predicate), r),
        0 <= i < ids@.len(),
    ensures
        r.0@.len() + r.1@.len() == ids@.len(),
        lacks(current@, ids@[i]@) ==> lists(r.1@, ids@[i]@),
        ends_at(current@, ids@[i]@, k) && !predicate.ensures((&current@[k].1,), false) ==> lists(
            r.0@,
            ids@[i]@,
        ),
        ends_at(current@, ids@[i]@, k) && !predicate.ensures((&current@[k].1,), true) ==> lists(
            r.1@,
            ids@[i]@,
        ),
{
    let all = crate::text::texts(ids@);
    let verdicts = choose|verdicts: Seq<bool>| #[trigger]
        crate::batches::divided(
            all,
            current@,
            predicate,
            verdicts,
            crate::text::texts(r.0@),
            crate::text::texts(r.1@),
        );
    crate::batches::a_batch_answers_for_every_id(all, verdicts, i);
    let verdict = verdicts[i];
    assert(crate::batches::judged(current@, predicate, all[i], verdict));
    crate::plan_laws::a_memory_is_judged_as_it_was_read(current@, predicate, all[i], verdict);
    lemma_lists(r.0@, ids@[i]@);
    lemma_lists(r.1@, ids@[i]@);
}

/// That a text is in a list.
pub open spec fn lists(v: Seq<String>, text: Seq<char>) -> bool {
    exists|l: int| 0 <= l < v.len() && (#[trigger] v[l])@ == text
}

/// A list has the texts that its values have.
pub(crate) proof fn lemma_lists(v: Seq<String>, text: Seq<char>)
    ensures
        crate::text::texts(v).contains(text) <==> lists(v, text),
{
    let t = crate::text::texts(v);
    if t.contains(text) {
        let l = choose|l: int| 0 <= l < t.len() && t[l] == text;
        assert(v[l]@ == text);
    }
    if lists(v, text) {
        let l = choose|l: int| 0 <= l < v.len() && (#[trigger] v[l])@ == text;
        assert(t[l] == text);
    }
}

/// Vectors are written exactly for the memories that have not been updated since
/// they were computed.
pub proof fn vectors_are_written_for_unchanged_memories<T>(
    entries: Vec<GuardedChunkWrite<T>>,
    current: &[(String, Memory)],
    r: Vec<ChunkWrite<T>>,
    i: int,
    k: int,
)
    requires
        call_ensures(MemoryStore::upsert_chunks_batch::<T>, (entries, current), r),
        entries@.len() == 1,
        i == 0,
    ensures
        lacks(current@, entries@[i].memory_id@) ==> r@.len() == 0,
        ends_at(current@, entries@[i].memory_id@, k) && current@[k].1.updated_at
            != entries@[i].snapshot_updated_at ==> r@.len() == 0,
        ends_at(current@, entries@[i].memory_id@, k) && current@[k].1.updated_at
            == entries@[i].snapshot_updated_at ==> r@.len() == 1 && r@[0].memory_id
            == entries@[i].memory_id && r@[0].chunks == entries@[i].chunks && r@[0].digest
            == entries@[i].digest,
{
    let e = entries@[0];
    let keep = |e: GuardedChunkWrite<T>|
        crate::batches::is_current(current@, e.memory_id@, e.snapshot_updated_at);
    crate::plan_laws::vectors_are_kept_for_the_memory_they_were_made_from(
        current@,
        e.memory_id@,
        e.snapshot_updated_at,
    );
    crate::seqs::lemma_filter_ends(entries@, keep);
    crate::seqs::lemma_filter_take(entries@, 0, keep);
    assert(entries@.take(1) =~= entries@);
    if keep(e) {
        assert(entries@.filter(keep) =~= seq![e]);
    } else {
        assert(entries@.filter(keep) =~= Seq::empty());
    }
}

/// Vectors of a single memory are written where it was last updated when they were
/// computed, and not where it is gone.
pub proof fn vectors_are_current_where_the_times_agree(
    read: Result<Memory, StorageError>,
    at: Timestamp,
    r: Result<bool, StorageError>,
)
    requires
        call_ensures(MemoryStore::upsert_chunks_if_current, (read, at), r),
    ensures
        read matches Ok(m) ==> r is Ok && (r->Ok_0 <==> m.updated_at.secs == at.secs
            && m.updated_at.nanos == at.nanos),
        read matches Err(e) ==> (e is NotFound ==> r == Ok::<bool, StorageError>(false)) && (!(
        e is NotFound) ==> r == Err::<bool, StorageError>(e)),
{
}

/// The row of a memory has its id and visibility, the digest, and whether vectors
/// are stored for it.
pub proof fn a_row_describes_its_memory(m: &Memory, digest: &str, has_chunks: bool, r: IndexRow)
    requires
        call_ensures(index_row, (m, digest, has_chunks), r),
    ensures
        r.id@ == m.id@,
        r.visibility == m.visibility,
        r.digest@ == digest@,
        r.has_embedding == has_chunks,
{
}

/// Every memory written in a batch gets its row, in its place.
pub proof fn a_batch_gets_a_row_for_each_memory(
    memories: &[Memory],
    digests: &[String],
    with_chunks: &[String],
    r: Vec<IndexRow>,
    i: int,
)
    requires
        call_ensures(batch_rows, (memories, digests, with_chunks), r),
        digests@.len() == memories@.len(),
        0 <= i < memories@.len(),
        forall|j: int|
            i < j < memories@.len() ==> (#[trigger] memories@[j]).id@ != memories@[i].id@,
    ensures
        r@.len() == memories@.len(),
        r@[i].id@ == memories@[i].id@,
        r@[i].visibility == memories@[i].visibility,
        r@[i].digest@ == digests@[i]@,
        r@[i].has_embedding <==> lists(with_chunks@, memories@[i].id@),
{
    crate::plan_laws::every_memory_of_a_batch_gets_its_row(
        r@,
        memories@,
        digests@,
        with_chunks@,
        i,
        i,
    );
}

// ---------------------------------------------------------------------------
// Stray stores
// ---------------------------------------------------------------------------

/// Every stray memory is moved or dropped: dropped exactly where the main store has
/// one that was updated later.
pub proof fn a_stray_memory_is_moved_or_dropped(
    strays: Vec<Stray>,
    existing: &[(String, Memory)],
    r: Migration,
    i: int,
    k: int,
)
    requires
        call_ensures(migrate_dir, (strays, existing), r),
        0 <= i < strays@.len(),
    ensures
        lacks(existing@, strays@[i].memory.id@) ==> r.to_migrate@.contains(strays@[i]),
        ends_at(existing@, strays@[i].memory.id@, k) ==> (r.to_migrate@.contains(strays@[i])
            <==> !(strays@[i].memory.updated_at.secs < existing@[k].1.updated_at.secs || (
        strays@[i].memory.updated_at.secs == existing@[k].1.updated_at.secs
            && strays@[i].memory.updated_at.nanos < existing@[k].1.updated_at.nanos))),
        r.to_migrate@.contains(strays@[i]) || exists|l: int|
            0 <= l < r.dropped@.len() && (#[trigger] r.dropped@[l])@ == strays@[i].path@,
{
    let s = strays@[i];
    let keep = |s: Stray| !crate::worktree::outdated(existing@, s);
    let drop = |s: Stray| crate::worktree::outdated(existing@, s);
    assert(strays@.contains(s));
    crate::seqs::lemma_filter_contains(strays@, keep, s);
    crate::seqs::lemma_filter_contains(strays@, drop, s);
    crate::plan_laws::a_stray_memory_is_dropped_for_a_later_one(existing@, s);
    if drop(s) {
        let gone = strays@.filter(drop);
        let l = choose|l: int| 0 <= l < gone.len() && gone[l] == s;
        let paths = crate::reindex::path_views(r.dropped@);
        assert(paths.len() == gone.len());
        assert(paths[l] == s.path@);
        assert(r.dropped@[l]@ == s.path@);
    }
}

/// The vectors of a memory are moved with the first stray copy of it, and with no
/// other.
pub proof fn vectors_are_moved_with_their_memory<T>(
    strays: &[Stray],
    chunks: Vec<(String, Vec<T>)>,
    r: Vec<GuardedChunkWrite<Vec<T>>>,
    i: int,
    k: int,
)
    requires
        call_ensures(relocate::<T>, (strays, chunks), r),
        0 <= i < strays@.len(),
        brings_vectors(strays@, chunks@, i, k),
    ensures
        exists|l: int|
            0 <= l < r@.len() && (#[trigger] r@[l]).memory_id@ == strays@[i].memory.id@
                && r@[l].chunks@ == chunks@[k].1@ && r@[l].snapshot_updated_at
                == strays@[i].memory.updated_at && r@[l].digest is None,
{
    let n = strays@.len() as int;
    let at = crate::worktree::places(strays@, chunks@, n);
    crate::plan_laws::vectors_move_with_the_first_memory_of_an_id(strays@, chunks@, n, i);
    let l = choose|l: int| 0 <= l < at.len() && at[l] == i;
    assert(crate::worktree::moves(r@[l], strays@[at[l]], chunks@));
    crate::plan_laws::moved_vectors_are_those_last_read(r@[l], strays@[i], chunks@, k);
}

/// Every set of vectors that moves is that of a stray memory.
pub proof fn only_the_vectors_of_strays_move<T>(
    strays: &[Stray],
    chunks: Vec<(String, Vec<T>)>,
    r: Vec<GuardedChunkWrite<Vec<T>>>,
    l: int,
)
    requires
        call_ensures(relocate::<T>, (strays, chunks), r),
        0 <= l < r@.len(),
    ensures
        exists|i: int, k: int| #[trigger]
            brings_vectors(strays@, chunks@, i, k) && 0 <= i < strays@.len() && r@[l].memory_id@
                == strays@[i].memory.id@ && r@[l].chunks@ == chunks@[k].1@,
{
    let n = strays@.len() as int;
    let at = crate::worktree::places(strays@, chunks@, n);
    let i = at[l];
    crate::plan_laws::vectors_move_with_the_first_memory_of_an_id(strays@, chunks@, n, i);
    assert(at.contains(i));
    let k = choose|k: int| #[trigger] brings_vectors(strays@, chunks@, i, k);
    assert(crate::worktree::moves(r@[l], strays@[i], chunks@));
    crate::plan_laws::moved_vectors_are_those_last_read(r@[l], strays@[i], chunks@, k);
}

/// A worktree of another project is emptied into the main checkout where both have
/// a store; a store is left alone where it is the same.
pub proof fn a_worktree_is_moved_where_both_have_a_store(
    worktree_id: &str,
    main_id: &str,
    worktree_has_store: bool,
    main_has_store: bool,
    r: Consolidation,
)
    requires
        call_ensures(
            consolidate_worktree_into_main,
            (worktree_id, main_id, worktree_has_store, main_has_store),
            r,
        ),
    ensures
        r is SameProject <==> worktree_id@ == main_id@,
        r is Migrate <==> worktree_id@ != main_id@ && worktree_has_store && main_has_store,
        r is ReclaimOnly <==> worktree_id@ != main_id@ && !(worktree_has_store && main_has_store),
{
}

/// A stray store is removed only when nothing shared is stranded in it and its
/// ledger has been taken over.
pub proof fn a_stray_store_is_removed_when_nothing_is_left(
    stranded_shared: usize,
    ledger_adopted: bool,
    r: bool,
)
    requires
        call_ensures(may_remove_stray_store, (stranded_shared, ledger_adopted), r),
    ensures
        r <==> stranded_shared == 0 && ledger_adopted,
{
}

/// A linked worktree uses the store of its main checkout, which is set up where
/// it is missing; any other directory uses its own.
pub proof fn a_worktree_uses_the_store_of_its_main_checkout(
    dir: &FilePath,
    main: Option<(FilePath, bool)>,
    child_id: &str,
    parent_id: &str,
    r: Resolution,
)
    requires
        call_ensures(resolve_project_root, (dir, main, child_id, parent_id), r),
    ensures
        main is None ==> r.root@ == dir@ && !r.set_up && !r.consolidate && !r.register,
        main matches Some(m) ==> r.root@ == m.0@ && r.consolidate && (r.set_up <==> !m.1) && (
        r.register <==> child_id@ != parent_id@),
{
}

// ---------------------------------------------------------------------------
// Setting up
// ---------------------------------------------------------------------------

/// A project's store is named after its directory and kept out of the repository
/// where it holds state.
pub proof fn a_project_store_is_set_up_with_what_is_missing(
    dir: &FilePath,
    present: Present,
    r: Missing,
    name: Seq<char>,
)
    requires
        call_ensures(MemoryStore::init, (dir, present), r),
        dir@.len() > 0,
        dir@.last() == PartView::Name(name),
    ensures
        present.manifest ==> r.manifest is None,
        !present.manifest ==> is_text(r.manifest, name),
        r.gitignore is Some <==> !present.gitignore,
        r.config is Some <==> !present.config,
{
    assert(dir@.drop_last().push(PartView::Name(name)) =~= dir@);
    crate::plan_laws::a_project_is_named_after_its_directory(dir@.drop_last(), name);
}

/// The stores of all projects and of a group lie in no repository, and are named as
/// what they are.
pub proof fn other_stores_are_set_up_with_what_is_missing(
    group_id: &str,
    present: Present,
    all: Missing,
    group: Missing,
)
    requires
        call_ensures(MemoryStore::init_global, (present,), all),
        call_ensures(MemoryStore::init_group, (group_id, present), group),
    ensures
        all.gitignore is None,
        group.gitignore is None,
        all.config is Some <==> !present.config,
        group.config is Some <==> !present.config,
        all.manifest is Some <==> !present.manifest,
        group.manifest is Some <==> !present.manifest,
        !present.manifest ==> is_text(all.manifest, "global"@),
        !present.manifest ==> is_text(group.manifest, "group:"@ + group_id@),
{
}

/// A store that is not there cannot be opened. One that is there is told to keep
/// its state out of the repository where it does not yet.
pub proof fn a_store_is_opened_where_it_is(
    present: bool,
    ignored: bool,
    r: Result<Option<String>, StorageError>,
    all: Opening,
    group: Opening,
)
    requires
        call_ensures(MemoryStore::open, (present, ignored), r),
        call_ensures(MemoryStore::open_global, (present,), all),
        call_ensures(MemoryStore::open_group, (present,), group),
    ensures
        !present ==> r == Err::<Option<String>, StorageError>(StorageError::NotInitialized),
        present ==> r is Ok && (r->Ok_0 is Some <==> !ignored),
        present <==> all is AsItIs,
        present <==> group is AsItIs,
{
}

/// Statistics are written only where they differ from the recorded ones, and then
/// with every scope that was found, in order.
pub proof fn statistics_are_written_where_they_differ(
    recorded: &ManifestStats,
    memory_count: usize,
    scopes: Vec<String>,
    r: Option<ManifestStats>,
    i: int,
    j: int,
    k: int,
)
    requires
        call_ensures(
            MemoryStore::update_manifest_stats,
            (recorded, memory_count, scopes),
            r,
        ),
    ensures
        recorded.memory_count != memory_count ==> r is Some,
        recorded.logical_scopes@.len() != scopes@.len() ==> r is Some,
        r is None ==> recorded.memory_count == memory_count,
        r matches Some(s) ==> {
            &&& s.memory_count == memory_count
            &&& s.logical_scopes@.len() == scopes@.len()
            &&& 0 <= k < scopes@.len() ==> lists(s.logical_scopes@, scopes@[k]@)
            &&& 0 <= i < j < s.logical_scopes@.len() ==> !crate::order::text_less(
                s.logical_scopes@[j]@,
                s.logical_scopes@[i]@,
            )
        },
{
    let all = crate::text::texts(scopes@);
    let old_scopes = crate::text::texts(recorded.logical_scopes@);
    all.to_multiset_ensures();
    old_scopes.to_multiset_ensures();
    assert(all.len() == scopes@.len());
    assert(old_scopes.len() == recorded.logical_scopes@.len());
    if let Some(s) = r {
        let new = crate::text::texts(s.logical_scopes@);
        new.to_multiset_ensures();
        assert(new.len() == s.logical_scopes@.len());
        if 0 <= k < scopes@.len() {
            assert(all[k] == scopes@[k]@);
            assert(all.contains(all[k]));
            assert(all.to_multiset().count(all[k]) > 0);
            assert(new.to_multiset().count(all[k]) > 0);
            assert(new.contains(all[k]));
            lemma_lists(s.logical_scopes@, scopes@[k]@);
        }
        if 0 <= i < j < s.logical_scopes@.len() {
            assert(crate::manifest::text_at_most()(new[i], new[j]));
        }
    }
}

/// A store is migrated unless its schema is current and its terms are those of the
/// present normalizer, and what is stamped then is.
pub proof fn a_store_is_migrated_once(
    stored: &Option<Stamps>,
    schema_is_current: bool,
    r: bool,
    version: &str,
    stamped: Stamps,
)
    requires
        call_ensures(MemoryStore::migrate_schema_if_needed, (stored, schema_is_current), r),
        call_ensures(MemoryStore::stamp, (version,), stamped),
    ensures
        *stored is None ==> r,
        !schema_is_current ==> r,
        *stored matches Some(s) ==> schema_is_current ==> (r <==> !is_text(
            s.normalizer,
            "snowball-en+stop-v1"@,
        )),
        stamped.schema_version@ == version@,
        is_text(stamped.normalizer, "snowball-en+stop-v1"@),
{
}

// ---------------------------------------------------------------------------
// Tasks
// ---------------------------------------------------------------------------

/// A declared task is the session's own until another is declared, and leaves the
/// tasks of the others alone. No task is kept for a session without an id.
pub proof fn a_declared_task_is_the_sessions_own(
    tasks: &mut SessionTasks,
    session: &str,
    task: &str,
    now: Timestamp,
    r: Result<(), StorageError>,
    other: Seq<char>,
)
    requires
        call_ensures(SessionTasks::set_current_task_at, (tasks, session, task, now), r),
    ensures
        session@.len() == 0 ==> r is Err && final(tasks)@ == old(tasks)@,
        session@.len() > 0 ==> r is Ok && final(tasks)@.contains_key(session@)
            && final(tasks)@[session@].task == task@ && final(tasks)@[session@].declared_at == now,
        other != session@ ==> final(tasks)@.contains_key(other) == old(tasks)@.contains_key(other),
        other != session@ && old(tasks)@.contains_key(other) ==> final(tasks)@[other]
            == old(tasks)@[other],
{
}

/// The task of a session is the one that it declared.
pub proof fn the_current_task_is_the_declared_one(
    tasks: &SessionTasks,
    session: &str,
    r: Option<String>,
)
    requires
        call_ensures(SessionTasks::current_task, (tasks, session), r),
    ensures
        session@.len() > 0 && tasks@.contains_key(session@) ==> is_text(r, tasks@[session@].task),
        session@.len() == 0 || !tasks@.contains_key(session@) ==> r is None,
{
}

/// Ending a session gives back its task and forgets it, and whether anything changed
/// is told.
pub proof fn an_ended_session_gives_back_its_task(
    tasks: &mut SessionTasks,
    session: &str,
    now: Timestamp,
    r: Cleared,
)
    requires
        call_ensures(SessionTasks::clear_session_task_at, (tasks, session, now), r),
    ensures
        session@.len() > 0 ==> !final(tasks)@.contains_key(session@),
        session@.len() > 0 && old(tasks)@.contains_key(session@) ==> is_text(
            r.task,
            old(tasks)@[session@].task,
        ) && r.changed,
        session@.len() == 0 ==> final(tasks)@ == old(tasks)@,
        session@.len() == 0 || !old(tasks)@.contains_key(session@) ==> r.task is None,
        !r.changed <==> final(tasks)@ == old(tasks)@,
{
}

} // verus!
