//! What holds of the plans made for batches, stray stores and setting up.
use vstd::prelude::*;

use crate::batches::{
    are_rows_of, chosen, is_current, is_last, is_last_write, judged, key_of, last_of,
    lemma_last_is_unique, pool_found, pool_of, pool_read, report_on, takes, was_read, Change,
    GuardedChunkWrite, IndexRow,
};
use crate::error::StorageError;
use crate::manifest::{
    completed, is_setup, must_migrate, name_of, up_to_date, ManifestStats, Missing, Present,
    Stamps,
};
use crate::memory::Memory;
use crate::path::PartView;
use crate::time::Timestamp;
use crate::worktree::{moves, outdated, places, takes_vectors, Stray};

verus! {

broadcast use vstd::string::group_string_axioms;

// ---------------------------------------------------------------------------
// What was read for an id
// ---------------------------------------------------------------------------

/// That an id stands at a place of a list of pairs and at none behind it.
pub open spec fn ends_at<T>(pairs: Seq<(String, T)>, id: Seq<char>, k: int) -> bool {
    0 <= k < pairs.len() && pairs[k].0@ == id && forall|j: int|
        k < j < pairs.len() ==> (#[trigger] pairs[j]).0@ != id
}

/// That an id stands at no place of a list of pairs.
pub open spec fn lacks<T>(pairs: Seq<(String, T)>, id: Seq<char>) -> bool {
    forall|j: int| 0 <= j < pairs.len() ==> (#[trigger] pairs[j]).0@ != id
}

proof fn lemma_ends_or_lacks<T>(pairs: Seq<(String, T)>, id: Seq<char>) -> (k: int)
    ensures
        lacks(pairs, id) || ends_at(pairs, id, k),
    decreases pairs.len(),
{
    if pairs.len() == 0 {
        0
    } else if pairs.last().0@ == id {
        pairs.len() - 1
    } else {
        let before = pairs.drop_last();
        let k = lemma_ends_or_lacks(before, id);
        if lacks(before, id) {
            assert forall|j: int| 0 <= j < pairs.len() implies (#[trigger] pairs[j]).0@ != id by {
                if j < before.len() {
                    assert(before[j] == pairs[j]);
                }
            }
        } else {
            assert(before[k] == pairs[k]);
            assert forall|j: int| k < j < pairs.len() implies (#[trigger] pairs[j]).0@ != id by {
                if j < before.len() {
                    assert(before[j] == pairs[j]);
                }
            }
        }
        k
    }
}

/// Of several that were read for one id the last counts.
pub proof fn the_last_one_read_counts<T>(pairs: Seq<(String, T)>, id: Seq<char>, k: int)
    requires
        ends_at(pairs, id, k),
    ensures
        was_read(pairs, id),
        last_of(pairs, id) == pairs[k].1,
{
    assert(is_last(pairs, id, k));
    lemma_last_is_unique(pairs, id, k);
}

/// An id was read where some pair has it, wherever that pair stands.
pub proof fn an_id_was_read_where_a_pair_has_it<T>(pairs: Seq<(String, T)>, id: Seq<char>)
    ensures
        was_read(pairs, id) <==> exists|j: int|
            0 <= j < pairs.len() && (#[trigger] pairs[j]).0@ == id,
{
    if was_read(pairs, id) {
        let k = choose|k: int| is_last(pairs, id, k);
        assert(pairs[k].0@ == id);
    }
    let k = lemma_ends_or_lacks(pairs, id);
    if ends_at(pairs, id, k) {
        assert(is_last(pairs, id, k));
    }
}

// ---------------------------------------------------------------------------
// Updates
// ---------------------------------------------------------------------------

/// That a memory stands at a place of a list and no memory of its id before it.
pub open spec fn is_first_found(found: Seq<(String, Memory)>, id: Seq<char>, k: int) -> bool {
    0 <= k < found.len() && found[k].1@.id == id && forall|j: int|
        0 <= j < k ==> (#[trigger] found[j]).1@.id != id
}

/// That no memory of a list has an id.
pub open spec fn none_found(found: Seq<(String, Memory)>, id: Seq<char>) -> bool {
    forall|j: int| 0 <= j < found.len() ==> (#[trigger] found[j]).1@.id != id
}

proof fn lemma_pool_read(read: Seq<(String, Memory)>, id: Seq<char>)
    ensures
        pool_read(read).memories.contains_key(id) <==> !lacks(read, id),
        forall|k: int| #[trigger]
            ends_at(read, id, k) ==> pool_read(read).memories[id] == read[k].1@,
        !pool_read(read).aliases.contains_key(id),
    decreases read.len(),
{
    if read.len() > 0 {
        let before = read.drop_last();
        lemma_pool_read(before, id);
        if read.last().0@ == id {
            assert(read[read.len() - 1].0@ == id);
        } else {
            if !lacks(before, id) {
                let j = choose|j: int| 0 <= j < before.len() && (#[trigger] before[j]).0@ == id;
                assert(read[j].0@ == id);
            } else {
                assert forall|j: int| 0 <= j < read.len() implies (#[trigger] read[j]).0@ != id by {
                    if j < before.len() {
                        assert(before[j] == read[j]);
                    }
                }
            }
        }
        assert forall|k: int| #[trigger] ends_at(read, id, k) implies pool_read(read).memories[id]
            == read[k].1@ by {
            if k < before.len() {
                assert(read[read.len() - 1].0@ != id);
                assert(before[k] == read[k]);
                assert forall|j: int| k < j < before.len() implies (#[trigger] before[j]).0@
                    != id by {
                    assert(read[j] == before[j]);
                }
                assert(ends_at(before, id, k));
            }
        }
    }
}

proof fn lemma_pool_found(read: Seq<(String, Memory)>, found: Seq<(String, Memory)>, id: Seq<char>)
    ensures
        ({
            let start = pool_read(read);
            let pool = pool_found(start, found);
            &&& pool.memories.contains_key(id) <==> start.memories.contains_key(id)
                || !none_found(found, id)
            &&& start.memories.contains_key(id) ==> pool.memories[id] == start.memories[id]
            &&& !start.memories.contains_key(id) ==> forall|k: int| #[trigger]
                is_first_found(found, id, k) ==> pool.memories[id] == found[k].1@
            &&& pool.aliases.contains_key(id) <==> !lacks(found, id)
            &&& forall|k: int| #[trigger]
                ends_at(found, id, k) ==> pool.aliases[id] == found[k].1@.id
        }),
    decreases found.len(),
{
    let start = pool_read(read);
    lemma_pool_read(read, id);
    if found.len() > 0 {
        let before = found.drop_last();
        let old_pool = pool_found(start, before);
        let pool = pool_found(start, found);
        lemma_pool_found(read, before, id);
        assert(found[found.len() - 1] == found.last());
        if none_found(before, id) {
            if found.last().1@.id != id {
                assert forall|j: int| 0 <= j < found.len() implies (#[trigger] found[j]).1@.id
                    != id by {
                    if j < before.len() {
                        assert(before[j] == found[j]);
                    }
                }
            }
        } else {
            let j = choose|j: int| 0 <= j < before.len() && (#[trigger] before[j]).1@.id == id;
            assert(found[j].1@.id == id);
        }
        assert forall|k: int| !start.memories.contains_key(id) && #[trigger] is_first_found(
            found,
            id,
            k,
        ) implies pool.memories[id] == found[k].1@ by {
            if k < before.len() {
                assert(before[k] == found[k]);
                assert forall|j: int| 0 <= j < k implies (#[trigger] before[j]).1@.id != id by {
                    assert(found[j] == before[j]);
                }
                assert(is_first_found(before, id, k));
                assert(before[k].1@.id == id);
            } else {
                assert forall|j: int| 0 <= j < before.len() implies (#[trigger] before[j]).1@.id
                    != id by {
                    assert(found[j] == before[j]);
                }
                assert(none_found(before, id));
            }
        }
        if lacks(before, id) {
            if found.last().0@ != id {
                assert forall|j: int| 0 <= j < found.len() implies (#[trigger] found[j]).0@
                    != id by {
                    if j < before.len() {
                        assert(before[j] == found[j]);
                    }
                }
            }
        } else {
            let j = choose|j: int| 0 <= j < before.len() && (#[trigger] before[j]).0@ == id;
            assert(found[j].0@ == id);
        }
        assert forall|k: int| #[trigger] ends_at(found, id, k) implies pool.aliases[id]
            == found[k].1@.id by {
            if k < before.len() {
                assert(found[found.len() - 1].0@ != id);
                assert(before[k] == found[k]);
                assert forall|j: int| k < j < before.len() implies (#[trigger] before[j]).0@
                    != id by {
                    assert(found[j] == before[j]);
                }
                assert(ends_at(before, id, k));
            }
        }
    }
}

/// A spelling under which a memory was found stands for that memory's id, and
/// any other spelling for itself. Of several memories found under one spelling
/// the last counts.
pub proof fn a_spelling_stands_for_what_was_found(
    read: Seq<(String, Memory)>,
    found: Seq<(String, Memory)>,
    given: Seq<char>,
)
    ensures
        lacks(found, given) ==> key_of(pool_of(read, found), given) == given,
        forall|k: int| #[trigger]
            ends_at(found, given, k) ==> key_of(pool_of(read, found), given) == found[k].1@.id,
{
    lemma_pool_found(read, found, given);
    assert forall|k: int| #[trigger] ends_at(found, given, k) implies key_of(
        pool_of(read, found),
        given,
    ) == found[k].1@.id by {
        assert(found[k].0@ == given);
    }
}

/// A batch changes a memory as it was last read. One that was not read it
/// changes as it was first found. No other memory has anything to change.
pub proof fn a_batch_changes_a_memory_as_it_was_read(
    read: Seq<(String, Memory)>,
    found: Seq<(String, Memory)>,
    id: Seq<char>,
)
    ensures
        forall|k: int| #[trigger]
            ends_at(read, id, k) ==> pool_of(read, found).memories.contains_key(id)
                && pool_of(read, found).memories[id] == read[k].1@,
        lacks(read, id) ==> forall|k: int| #[trigger]
            is_first_found(found, id, k) ==> pool_of(read, found).memories.contains_key(id)
                && pool_of(read, found).memories[id] == found[k].1@,
        lacks(read, id) && none_found(found, id) ==> !pool_of(
            read,
            found,
        ).memories.contains_key(id),
{
    lemma_pool_read(read, id);
    lemma_pool_found(read, found, id);
    assert forall|k: int| #[trigger] ends_at(read, id, k) implies pool_of(
        read,
        found,
    ).memories.contains_key(id) && pool_of(read, found).memories[id] == read[k].1@ by {
        assert(read[k].0@ == id);
    }
    assert forall|k: int| lacks(read, id) && #[trigger] is_first_found(found, id, k) implies
        pool_of(read, found).memories.contains_key(id) && pool_of(read, found).memories[id]
        == found[k].1@ by {
        assert(found[k].1@.id == id);
    }
}

/// Where every memory was read under its own id, a batch changes the first
/// mention of each id that was read. A mention of an id that was not read, and
/// every later mention of one that was, is reported as missing.
pub proof fn a_batch_takes_the_first_mention_of_an_id(
    read: Seq<(String, Memory)>,
    ids: Seq<Seq<char>>,
    i: int,
)
    requires
        0 <= i < ids.len(),
    ensures
        takes(pool_of(read, Seq::empty()), ids, i) <==> !lacks(read, ids[i]) && !ids.take(
            i,
        ).contains(ids[i]),
{
    let found = Seq::<(String, Memory)>::empty();
    let pool = pool_of(read, found);
    lemma_pool_found(read, found, ids[i]);
    lemma_pool_read(read, ids[i]);
    a_spelling_stands_for_what_was_found(read, found, ids[i]);
    assert forall|j: int| 0 <= j < i implies key_of(pool, #[trigger] ids[j]) == ids[j] by {
        a_spelling_stands_for_what_was_found(read, found, ids[j]);
    }
    if ids.take(i).contains(ids[i]) {
        let j = choose|j: int| 0 <= j < ids.take(i).len() && ids.take(i)[j] == ids[i];
        assert(key_of(pool, ids[j]) == ids[j]);
    } else {
        assert forall|j: int| 0 <= j < i implies #[trigger] ids[j] != ids[i] by {
            assert(ids.take(i)[j] == ids[j]);
        }
    }
}

/// Two spellings of one memory change it once, at the spelling that comes
/// first, and a spelling of a memory whose id comes later is not lost.
pub proof fn two_spellings_change_a_memory_once(
    read: Seq<(String, Memory)>,
    found: Seq<(String, Memory)>,
    a: Seq<char>,
    b: Seq<char>,
    k: int,
)
    requires
        a != b,
        ends_at(found, a, k),
        found[k].1@.id == b,
        lacks(found, b),
    ensures
        takes(pool_of(read, found), seq![a, b], 0),
        !takes(pool_of(read, found), seq![a, b], 1),
        takes(pool_of(read, found), seq![b, a], 0),
        !takes(pool_of(read, found), seq![b, a], 1),
{
    let pool = pool_of(read, found);
    a_spelling_stands_for_what_was_found(read, found, a);
    a_spelling_stands_for_what_was_found(read, found, b);
    lemma_pool_found(read, found, b);
    assert(found[k].1@.id == b);
    assert(key_of(pool, a) == b && key_of(pool, b) == b);
    assert(pool.memories.contains_key(b));
    let x = seq![a, b];
    let y = seq![b, a];
    assert(key_of(pool, x[0]) == key_of(pool, x[1]));
    assert(key_of(pool, y[0]) == key_of(pool, y[1]));
}

/// A report lists what was written and what failed in the order in which it
/// came, each under its own heading.
pub proof fn a_report_grows_change_by_change(
    changes: Seq<(Seq<char>, Change)>,
    given: Seq<char>,
    text: Seq<char>,
)
    ensures
        report_on(Seq::empty()).updated.len() == 0,
        report_on(Seq::empty()).errors.len() == 0,
        report_on(changes.push((given, Change::Written(text)))).updated == report_on(
            changes,
        ).updated.push(text),
        report_on(changes.push((given, Change::Written(text)))).errors == report_on(changes).errors,
        report_on(changes.push((given, Change::Failed(text)))).updated == report_on(
            changes,
        ).updated,
        report_on(changes.push((given, Change::Failed(text)))).errors == report_on(
            changes,
        ).errors.push((given, text)),
{
    assert(changes.push((given, Change::Written(text))).drop_last() =~= changes);
    assert(changes.push((given, Change::Failed(text))).drop_last() =~= changes);
}

// ---------------------------------------------------------------------------
// Deletions
// ---------------------------------------------------------------------------

/// Each id of a batch is sorted by its own verdict, in the order given.
pub proof fn every_id_is_sorted_by_its_verdict(
    ids: Seq<Seq<char>>,
    verdicts: Seq<bool>,
    id: Seq<char>,
    verdict: bool,
)
    requires
        ids.len() == verdicts.len(),
    ensures
        chosen(Seq::empty(), Seq::empty(), verdict) == Seq::<Seq<char>>::empty(),
        chosen(ids.push(id), verdicts.push(verdict), verdict) == chosen(
            ids,
            verdicts,
            verdict,
        ).push(id),
        chosen(ids.push(id), verdicts.push(verdict), !verdict) == chosen(ids, verdicts, !verdict),
{
    assert(ids.push(id).drop_last() =~= ids);
    assert(verdicts.push(verdict).drop_last() =~= verdicts);
}

/// A memory is judged as it was last read, and one that was not read is kept.
pub proof fn a_memory_is_judged_as_it_was_read<F: Fn(&Memory) -> bool>(
    current: Seq<(String, Memory)>,
    predicate: F,
    id: Seq<char>,
    verdict: bool,
)
    ensures
        lacks(current, id) ==> (judged(current, predicate, id, verdict) <==> !verdict),
        forall|k: int| #[trigger]
            ends_at(current, id, k) ==> (judged(current, predicate, id, verdict)
                <==> predicate.ensures((&current[k].1,), verdict)),
{
    an_id_was_read_where_a_pair_has_it(current, id);
    assert forall|k: int| #[trigger] ends_at(current, id, k) implies (judged(
        current,
        predicate,
        id,
        verdict,
    ) <==> predicate.ensures((&current[k].1,), verdict)) by {
        the_last_one_read_counts(current, id, k);
    }
}

// ---------------------------------------------------------------------------
// Vectors
// ---------------------------------------------------------------------------

/// Vectors are kept where the memory was last updated at the very time at which
/// it was when they were computed, and not where it was not read.
pub proof fn vectors_are_kept_for_the_memory_they_were_made_from(
    current: Seq<(String, Memory)>,
    id: Seq<char>,
    at: Timestamp,
)
    ensures
        lacks(current, id) ==> !is_current(current, id, at),
        forall|k: int| #[trigger]
            ends_at(current, id, k) ==> (is_current(current, id, at)
                <==> current[k].1.updated_at.secs == at.secs && current[k].1.updated_at.nanos
                == at.nanos),
{
    an_id_was_read_where_a_pair_has_it(current, id);
    assert forall|k: int| #[trigger] ends_at(current, id, k) implies (is_current(current, id, at)
        <==> current[k].1.updated_at.secs == at.secs && current[k].1.updated_at.nanos
        == at.nanos) by {
        the_last_one_read_counts(current, id, k);
    }
}

/// Every memory of a batch gets a row of its own, in its place, with the digest
/// of the last one of its id, and is marked where vectors were stored for it.
pub proof fn every_memory_of_a_batch_gets_its_row(
    rows: Seq<IndexRow>,
    memories: Seq<Memory>,
    digests: Seq<String>,
    with_chunks: Seq<String>,
    i: int,
    k: int,
)
    requires
        are_rows_of(rows, memories, digests, with_chunks),
        0 <= i < memories.len(),
        i <= k < memories.len(),
        memories[k].id@ == memories[i].id@,
        forall|j: int| k < j < memories.len() ==> (#[trigger] memories[j]).id@ != memories[i].id@,
    ensures
        rows.len() == memories.len(),
        rows[i].id@ == memories[i].id@,
        rows[i].visibility == memories[i].visibility,
        rows[i].digest@ == digests[k]@,
        rows[i].has_embedding <==> exists|j: int|
            0 <= j < with_chunks.len() && (#[trigger] with_chunks[j])@ == memories[i].id@,
{
    let id = memories[i].id@;
    let _ = rows[i];
    let l = choose|l: int|
        #[trigger] is_last_write(memories, id, l) && rows[i]@ == (crate::batches::RowView {
            id,
            visibility: memories[i].visibility,
            digest: digests[l]@,
            has_embedding: crate::text::texts(with_chunks).contains(id),
        });
    assert(is_last_write(memories, id, l));
    if l < k {
        assert(memories[k].id@ != id);
    }
    if k < l {
        assert(memories[l].id@ != id);
    }
    assert(l == k);
    let t = crate::text::texts(with_chunks);
    if t.contains(id) {
        let j = choose|j: int| 0 <= j < t.len() && t[j] == id;
        assert(with_chunks[j]@ == id);
    }
    if exists|j: int| 0 <= j < with_chunks.len() && (#[trigger] with_chunks[j])@ == id {
        let j = choose|j: int| 0 <= j < with_chunks.len() && (#[trigger] with_chunks[j])@ == id;
        assert(t[j] == id);
    }
}

// ---------------------------------------------------------------------------
// Stray stores
// ---------------------------------------------------------------------------

/// A stray memory is dropped where the main store's copy was updated later. One
/// of the same age, or one that the main store lacks, is moved.
pub proof fn a_stray_memory_is_dropped_for_a_later_one(
    existing: Seq<(String, Memory)>,
    stray: Stray,
)
    ensures
        lacks(existing, stray.memory.id@) ==> !outdated(existing, stray),
        forall|k: int| #[trigger]
            ends_at(existing, stray.memory.id@, k) ==> (outdated(existing, stray) <==> {
                ||| stray.memory.updated_at.secs < existing[k].1.updated_at.secs
                ||| stray.memory.updated_at.secs == existing[k].1.updated_at.secs
                    && stray.memory.updated_at.nanos < existing[k].1.updated_at.nanos
            }),
{
    let id = stray.memory.id@;
    an_id_was_read_where_a_pair_has_it(existing, id);
    assert forall|k: int| #[trigger] ends_at(existing, id, k) implies (outdated(existing, stray)
        <==> {
        ||| stray.memory.updated_at.secs < existing[k].1.updated_at.secs
        ||| stray.memory.updated_at.secs == existing[k].1.updated_at.secs
            && stray.memory.updated_at.nanos < existing[k].1.updated_at.nanos
    }) by {
        the_last_one_read_counts(existing, id, k);
    }
}

/// That a stray memory is the first of its id, with vectors to take along.
pub open spec fn brings_vectors<T>(
    strays: Seq<Stray>,
    chunks: Seq<(String, Vec<T>)>,
    i: int,
    k: int,
) -> bool {
    &&& ends_at(chunks, strays[i].memory.id@, k)
    &&& chunks[k].1@.len() > 0
    &&& forall|j: int|
        0 <= j < i ==> (#[trigger] strays[j]).memory.id@ != strays[i].memory.id@
}

proof fn lemma_takes_vectors<T>(strays: Seq<Stray>, chunks: Seq<(String, Vec<T>)>, i: int)
    ensures
        takes_vectors(strays, chunks, i) <==> exists|k: int| #[trigger]
            brings_vectors(strays, chunks, i, k),
{
    let id = strays[i].memory.id@;
    an_id_was_read_where_a_pair_has_it(chunks, id);
    let k = lemma_ends_or_lacks(chunks, id);
    if takes_vectors(strays, chunks, i) {
        the_last_one_read_counts(chunks, id, k);
        assert(brings_vectors(strays, chunks, i, k));
    }
    if exists|k: int| #[trigger] brings_vectors(strays, chunks, i, k) {
        let k = choose|k: int| #[trigger] brings_vectors(strays, chunks, i, k);
        the_last_one_read_counts(chunks, id, k);
    }
}

/// Vectors move with a memory: exactly the first stray memory of each id for
/// which vectors were read takes them, and they stay in the order of the
/// memories.
pub proof fn vectors_move_with_the_first_memory_of_an_id<T>(
    strays: Seq<Stray>,
    chunks: Seq<(String, Vec<T>)>,
    n: int,
    i: int,
)
    requires
        0 <= n <= strays.len(),
    ensures
        places(strays, chunks, n).contains(i) <==> 0 <= i < n && exists|k: int| #[trigger]
            brings_vectors(strays, chunks, i, k),
        forall|a: int, b: int|
            0 <= a < b < places(strays, chunks, n).len() ==> #[trigger] places(
                strays,
                chunks,
                n,
            )[a] < #[trigger] places(strays, chunks, n)[b],
        forall|a: int|
            0 <= a < places(strays, chunks, n).len() ==> 0 <= #[trigger] places(
                strays,
                chunks,
                n,
            )[a] < n,
    decreases n,
{
    if n > 0 {
        let before = places(strays, chunks, n - 1);
        let all = places(strays, chunks, n);
        vectors_move_with_the_first_memory_of_an_id(strays, chunks, n - 1, i);
        lemma_takes_vectors(strays, chunks, n - 1);
        if takes_vectors(strays, chunks, n - 1) {
            assert(all[before.len() as int] == n - 1);
            if before.contains(i) {
                let k = choose|k: int| 0 <= k < before.len() && before[k] == i;
                assert(all[k] == i);
            }
            if all.contains(i) && i != n - 1 {
                let k = choose|k: int| 0 <= k < all.len() && all[k] == i;
                assert(before[k] == i);
            }
        }
    }
}

/// What moves for a memory are the vectors last read for it, guarded by the time
/// at which it was last updated, with the digest left to be computed.
pub proof fn moved_vectors_are_those_last_read<T>(
    entry: GuardedChunkWrite<Vec<T>>,
    stray: Stray,
    chunks: Seq<(String, Vec<T>)>,
    k: int,
)
    requires
        ends_at(chunks, stray.memory.id@, k),
    ensures
        moves(entry, stray, chunks) <==> entry.memory_id@ == stray.memory.id@
            && entry.snapshot_updated_at == stray.memory.updated_at && entry.chunks@
            == chunks[k].1@ && entry.digest is None,
{
    the_last_one_read_counts(chunks, stray.memory.id@, k);
}

// ---------------------------------------------------------------------------
// Setting up
// ---------------------------------------------------------------------------

/// That a text is given, and which.
pub open spec fn is_text(found: Option<String>, text: Seq<char>) -> bool {
    found matches Some(t) && t@ == text
}

/// Setting up writes what is missing and nothing that is there. Each file is
/// judged alone, and only in a repository is a file written that keeps the
/// state out of it.
pub proof fn setting_up_writes_what_is_missing(
    name: Seq<char>,
    in_repository: bool,
    config: Seq<char>,
    present: Present,
    missing: Missing,
)
    requires
        is_setup(name, in_repository, config, present, missing),
    ensures
        present.manifest ==> missing.manifest is None,
        !present.manifest ==> is_text(missing.manifest, name),
        present.config ==> missing.config is None,
        !present.config ==> is_text(missing.config, config),
        present.gitignore ==> missing.gitignore is None,
        !in_repository ==> missing.gitignore is None,
        in_repository && !present.gitignore ==> is_text(
            missing.gitignore,
            crate::manifest::STATE_GITIGNORE@,
        ),
        completed(present, missing).manifest,
        completed(present, missing).config,
        completed(present, missing).gitignore <==> present.gitignore || in_repository,
{
}

/// A project is named after the last part of its directory where that is a name.
pub proof fn a_project_is_named_after_its_directory(dir: Seq<PartView>, name: Seq<char>)
    ensures
        name_of(dir.push(PartView::Name(name))) == name,
        name_of(dir.push(PartView::Parent)) == "unnamed-project"@,
        name_of(seq![PartView::Root]) == "unnamed-project"@,
        name_of(Seq::empty()) == "unnamed-project"@,
{
}

/// A store is left as it is only where its schema is current and its terms were
/// made by the present normalizer.
pub proof fn a_store_is_migrated_for_its_schema_or_its_terms(
    stored: Stamps,
    schema_is_current: bool,
)
    ensures
        must_migrate(None, schema_is_current),
        must_migrate(Some(stored), false),
        must_migrate(Some(stored), true) <==> !is_text(stored.normalizer, "snowball-en+stop-v1"@),
{
}

/// Statistics are up to date where the number of memories is the recorded one
/// and every scope is recorded as often as it was found.
pub proof fn statistics_are_up_to_date_scope_by_scope(
    recorded: ManifestStats,
    memory_count: usize,
    scopes: Seq<Seq<char>>,
    scope: Seq<char>,
)
    ensures
        up_to_date(recorded, memory_count, scopes) <==> recorded.memory_count == memory_count
            && forall|s: Seq<char>| #[trigger]
            crate::text::texts(recorded.logical_scopes@).to_multiset().count(s)
                == scopes.to_multiset().count(s),
        up_to_date(recorded, memory_count, scopes) ==> !up_to_date(
            recorded,
            memory_count,
            scopes.push(scope),
        ),
{
    let t = crate::text::texts(recorded.logical_scopes@);
    if forall|s: Seq<char>| #[trigger] t.to_multiset().count(s) == scopes.to_multiset().count(s) {
        assert(t.to_multiset() =~= scopes.to_multiset());
    }
    scopes.to_multiset_ensures();
    assert(scopes.push(scope).to_multiset() == scopes.to_multiset().insert(scope));
    assert(scopes.push(scope).to_multiset().count(scope) == scopes.to_multiset().count(scope) + 1);
}

/// An error refuses with its own words, or misses the very thing asked for, and
/// never both.
pub proof fn an_error_says_one_thing(text: String, other: Seq<char>)
    ensures
        StorageError::Validation(text).refuses(other) <==> text@ == other,
        !StorageError::Validation(text).misses(other),
        StorageError::NotFound(text).misses(other) <==> text@ == other,
        !StorageError::NotFound(text).refuses(other),
        !StorageError::NotInitialized.refuses(other),
        !StorageError::NotInitialized.misses(other),
        !StorageError::Io(text).refuses(other),
        !StorageError::Io(text).misses(other),
{
}

} // verus!
