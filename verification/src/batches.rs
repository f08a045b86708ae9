//! What an operation on many memories does to each of them.

use crate::error::StorageError;
use crate::memory::{Memory, MemoryView, Visibility};
use crate::seqs::reversed;
use crate::store::MemoryStore;
use crate::time::Timestamp;
use vstd::hash_map::StringHashMap;
use vstd::hash_set::StringHashSet;
use vstd::prelude::*;

verus! {

broadcast use vstd::string::group_string_axioms;

// ---------------------------------------------------------------------------
// What was read, by id
// ---------------------------------------------------------------------------

/// Whether the pair at `k` is the last one for an id.
pub open spec fn is_last<T>(pairs: Seq<(String, T)>, id: Seq<char>, k: int) -> bool {
    &&& 0 <= k < pairs.len()
    &&& pairs[k].0@ == id
    &&& forall|j: int| k < j < pairs.len() ==> (#[trigger] pairs[j]).0@ != id
}

/// Whether some pair has the id.
pub open spec fn was_read<T>(pairs: Seq<(String, T)>, id: Seq<char>) -> bool {
    exists|k: int| is_last(pairs, id, k)
}

/// What was read for an id; the last, where there are several.
pub open spec fn last_of<T>(pairs: Seq<(String, T)>, id: Seq<char>) -> T {
    pairs[choose|k: int| is_last(pairs, id, k)].1
}

/// The last pair for an id is determined by it.
pub proof fn lemma_last_is_unique<T>(pairs: Seq<(String, T)>, id: Seq<char>, k: int)
    requires
        is_last(pairs, id, k),
    ensures
        was_read(pairs, id),
        last_of(pairs, id) == pairs[k].1,
{
    let m = choose|m: int| is_last(pairs, id, m);
    if m < k {
        assert(pairs[k].0@ != id);
    } else if k < m {
        assert(pairs[m].0@ != id);
    }
}

/// For each id the index of its last pair.
pub(crate) fn last_by_id<T>(pairs: &[(String, T)]) -> (r: StringHashMap<usize>)
    ensures
        forall|id: Seq<char>| #[trigger]
            r@.contains_key(id) ==> is_last(pairs@, id, r@[id] as int),
        forall|id: Seq<char>| #[trigger] was_read(pairs@, id) ==> r@.contains_key(id),
{
    let mut map: StringHashMap<usize> = StringHashMap::new();
    let mut i: usize = 0;
    while i < pairs.len()
        invariant
            i <= pairs.len(),
            forall|id: Seq<char>| #[trigger]
                map@.contains_key(id) ==> map@[id] < i && pairs@[map@[id] as int].0@ == id,
            forall|id: Seq<char>, j: int|
                #![trigger map@.contains_key(id), pairs@[j]]
                map@.contains_key(id) && map@[id] < j < i ==> pairs@[j].0@ != id,
            forall|j: int| 0 <= j < i ==> map@.contains_key((#[trigger] pairs@[j]).0@),
        decreases pairs.len() - i,
    {
        map.insert(pairs[i].0.clone(), i);
        i += 1;
    }
    map
}

// ---------------------------------------------------------------------------
// Updates
// ---------------------------------------------------------------------------

/// What is done for one of the ids given to an update.
#[derive(Debug)]
pub enum Planned {
    /// The memory is changed and written.
    Apply { given: String, memory: Memory },
    /// No memory has the id, or it was taken under another spelling already.
    Missing { given: String },
}

/// The memories that an update can change, by their ids, and what other
/// spellings stand for.
pub struct Pool {
    pub memories: Map<Seq<char>, MemoryView>,
    pub aliases: Map<Seq<char>, Seq<char>>,
}

/// What a batched read brought.
pub open spec fn pool_read(read: Seq<(String, Memory)>) -> Pool
    decreases read.len(),
{
    if read.len() == 0 {
        Pool { memories: Map::empty(), aliases: Map::empty() }
    } else {
        let before = pool_read(read.drop_last());
        Pool { memories: before.memories.insert(read.last().0@, read.last().1@), ..before }
    }
}

/// What the lookups of the remaining ids add. A memory that is there already
/// stays as it is.
pub open spec fn pool_found(start: Pool, found: Seq<(String, Memory)>) -> Pool
    decreases found.len(),
{
    if found.len() == 0 {
        start
    } else {
        let before = pool_found(start, found.drop_last());
        let given = found.last().0@;
        let memory = found.last().1@;
        Pool {
            memories: if before.memories.contains_key(memory.id) {
                before.memories
            } else {
                before.memories.insert(memory.id, memory)
            },
            aliases: before.aliases.insert(given, memory.id),
        }
    }
}

/// All that an update can change.
pub open spec fn pool_of(read: Seq<(String, Memory)>, found: Seq<(String, Memory)>) -> Pool {
    pool_found(pool_read(read), found)
}

/// The id under which the pool has what a given spelling stands for.
pub open spec fn key_of(pool: Pool, given: Seq<char>) -> Seq<char> {
    if pool.aliases.contains_key(given) {
        pool.aliases[given]
    } else {
        given
    }
}

/// Whether the spelling at `i` is the first one that stands for a memory of the
/// pool.
pub open spec fn takes(pool: Pool, ids: Seq<Seq<char>>, i: int) -> bool {
    &&& pool.memories.contains_key(key_of(pool, ids[i]))
    &&& forall|j: int| 0 <= j < i ==> key_of(pool, #[trigger] ids[j]) != key_of(pool, ids[i])
}

/// Those of the ids that a batched read did not answer.
pub fn unresolved(ids: &[String], read: &[(String, Memory)]) -> (r: Vec<String>)
    ensures
        crate::text::texts(r@) == crate::text::texts(ids@).filter(
            |id: Seq<char>| !was_read(read@, id),
        ),
{
    let ghost all = crate::text::texts(ids@);
    let ghost keep = |id: Seq<char>| !was_read(read@, id);
    let map = last_by_id(read);
    let mut out: Vec<String> = Vec::new();
    let mut i: usize = 0;
    proof {
        crate::seqs::lemma_filter_ends(all, keep);
        assert(crate::text::texts(out@) =~= Seq::empty());
    }
    while i < ids.len()
        invariant
            i <= ids.len(),
            all == crate::text::texts(ids@),
            keep == (|id: Seq<char>| !was_read(read@, id)),
            forall|id: Seq<char>| #[trigger]
                map@.contains_key(id) ==> is_last(read@, id, map@[id] as int),
            forall|id: Seq<char>| #[trigger] was_read(read@, id) ==> map@.contains_key(id),
            crate::text::texts(out@) == all.take(i as int).filter(keep),
        decreases ids.len() - i,
    {
        proof {
            crate::seqs::lemma_filter_take(all, i as int, keep);
        }
        if !map.contains_key(ids[i].as_str()) {
            let ghost before = crate::text::texts(out@);
            out.push(ids[i].clone());
            assert(crate::text::texts(out@) =~= before.push(all[i as int]));
        } else {
            assert(is_last(read@, all[i as int], map@[all[i as int]] as int));
        }
        i += 1;
    }
    proof {
        crate::seqs::lemma_filter_ends(all, keep);
    }
    out
}

/// Whether an exec table of memories is that of a pool.
spec fn holds_pool(
    slots: Seq<Option<Memory>>,
    at: Map<Seq<char>, usize>,
    memories: Map<Seq<char>, MemoryView>,
) -> bool {
    &&& forall|k: Seq<char>| #[trigger] at.contains_key(k) <==> memories.contains_key(k)
    &&& forall|k: Seq<char>| #[trigger]
        at.contains_key(k) ==> at[k] < slots.len() && slots[at[k] as int] is Some && slots[at[k] as int]->0@
            == memories[k]
    &&& forall|k: Seq<char>, l: Seq<char>| #[trigger]
        at.contains_key(k) && #[trigger] at.contains_key(l) && k != l ==> at[k] != at[l]
}

proof fn lemma_pool_insert(
    slots: Seq<Option<Memory>>,
    at: Map<Seq<char>, usize>,
    memories: Map<Seq<char>, MemoryView>,
    key: Seq<char>,
    memory: Memory,
    n: usize,
)
    requires
        holds_pool(slots, at, memories),
        n == slots.len(),
    ensures
        holds_pool(slots.push(Some(memory)), at.insert(key, n), memories.insert(key, memory@)),
{
    let after = slots.push(Some(memory));
    let at2 = at.insert(key, n);
    assert forall|k: Seq<char>| #[trigger] at2.contains_key(k) implies at2[k] < after.len()
        && after[at2[k] as int] is Some && after[at2[k] as int]->0@ == memories.insert(
        key,
        memory@,
    )[k] by {
        if k != key {
            assert(at.contains_key(k));
            assert(after[at[k] as int] == slots[at[k] as int]);
        }
    }
    assert forall|k: Seq<char>, l: Seq<char>| #[trigger]
        at2.contains_key(k) && #[trigger] at2.contains_key(l) && k != l implies at2[k] != at2[l] by {
        if k != key {
            assert(at.contains_key(k));
        }
        if l != key {
            assert(at.contains_key(l));
        }
    }
}

proof fn lemma_read_aliases(read: Seq<(String, Memory)>)
    ensures
        pool_read(read).aliases == Map::<Seq<char>, Seq<char>>::empty(),
    decreases read.len(),
{
    if read.len() > 0 {
        lemma_read_aliases(read.drop_last());
    }
}

/// Fills the table with what a batched read brought.
fn fill_read(
    read: Vec<(String, Memory)>,
    slots: &mut Vec<Option<Memory>>,
    at: &mut StringHashMap<usize>,
)
    requires
        old(slots)@.len() == 0,
        old(at)@ == Map::<Seq<char>, usize>::empty(),
    ensures
        holds_pool(final(slots)@, final(at)@, pool_read(read@).memories),
{
    let ghost all = read@;
    let mut rest = reversed(read);
    let ghost mut done: int = 0;
    assert(all.take(0) =~= Seq::empty());
    while rest.len() > 0
        invariant
            0 <= done <= all.len(),
            rest@.len() == all.len() - done,
            forall|j: int| 0 <= j < rest@.len() ==> #[trigger] rest@[j] == all[all.len() - 1 - j],
            holds_pool(slots@, at@, pool_read(all.take(done)).memories),
        decreases rest.len(),
    {
        assert(rest@[rest@.len() - 1] == all[done]);
        match rest.pop() {
            Some((id, memory)) => {
                let n: usize = slots.len();
                proof {
                    assert(all.take(done + 1).drop_last() =~= all.take(done));
                    lemma_pool_insert(
                        slots@,
                        at@,
                        pool_read(all.take(done)).memories,
                        id@,
                        memory,
                        n,
                    );
                }
                at.insert(id, n);
                slots.push(Some(memory));
            },
            None => {},
        }
        proof {
            done = done + 1;
        }
    }
    assert(all.take(done) =~= all);
}

/// Adds what the other spellings were found to stand for, and returns what
/// each of them stands for.
fn fill_found(
    found: Vec<(String, Memory)>,
    slots: &mut Vec<Option<Memory>>,
    at: &mut StringHashMap<usize>,
    Ghost(start): Ghost<Pool>,
) -> (r: StringHashMap<String>)
    requires
        holds_pool(old(slots)@, old(at)@, start.memories),
        start.aliases == Map::<Seq<char>, Seq<char>>::empty(),
    ensures
        holds_pool(final(slots)@, final(at)@, pool_found(start, found@).memories),
        forall|k: Seq<char>| #[trigger]
            r@.contains_key(k) <==> pool_found(start, found@).aliases.contains_key(k),
        forall|k: Seq<char>| #[trigger]
            r@.contains_key(k) ==> r@[k]@ == pool_found(start, found@).aliases[k],
{
    let ghost all = found@;
    let mut aliases: StringHashMap<String> = StringHashMap::new();
    let mut rest = reversed(found);
    let ghost mut done: int = 0;
    assert(all.take(0) =~= Seq::empty());
    while rest.len() > 0
        invariant
            0 <= done <= all.len(),
            rest@.len() == all.len() - done,
            forall|j: int| 0 <= j < rest@.len() ==> #[trigger] rest@[j] == all[all.len() - 1 - j],
            holds_pool(slots@, at@, pool_found(start, all.take(done)).memories),
            forall|k: Seq<char>| #[trigger]
                aliases@.contains_key(k) <==> pool_found(
                    start,
                    all.take(done),
                ).aliases.contains_key(k),
            forall|k: Seq<char>| #[trigger]
                aliases@.contains_key(k) ==> aliases@[k]@ == pool_found(
                    start,
                    all.take(done),
                ).aliases[k],
        decreases rest.len(),
    {
        assert(rest@[rest@.len() - 1] == all[done]);
        let ghost before = pool_found(start, all.take(done));
        match rest.pop() {
            Some((given, memory)) => {
                assert(all.take(done + 1).drop_last() =~= all.take(done));
                let full = memory.id.clone();
                if !at.contains_key(full.as_str()) {
                    let n: usize = slots.len();
                    proof {
                        lemma_pool_insert(
                            slots@,
                            at@,
                            before.memories,
                            memory@.id,
                            memory,
                            n,
                        );
                    }
                    at.insert(full.clone(), n);
                    slots.push(Some(memory));
                }
                aliases.insert(given, full);
            },
            None => {},
        }
        proof {
            done = done + 1;
        }
    }
    assert(all.take(done) =~= all);
    aliases
}

impl MemoryStore {
    /// Plans an update of many memories: `read` is what a batched read of the ids
    /// brought, and `found` what the other ids, or beginnings of ids, were found to
    /// stand for. Each memory is changed at most once, for the first spelling that
    /// stands for it.
    pub fn update_batch_with(
        ids: &[String],
        read: Vec<(String, Memory)>,
        found: Vec<(String, Memory)>,
    ) -> (r: Vec<Planned>)
        ensures
            r@.len() == ids@.len(),
            forall|i: int|
                0 <= i < ids@.len() ==> ({
                    let pool = pool_of(read@, found@);
                    let spellings = crate::text::texts(ids@);
                    match #[trigger] r@[i] {
                        Planned::Apply { given, memory } => given@ == ids@[i]@ && takes(
                            pool,
                            spellings,
                            i,
                        ) && memory@ == pool.memories[key_of(pool, ids@[i]@)],
                        Planned::Missing { given } => given@ == ids@[i]@ && !takes(pool, spellings, i),
                    }
                }),
    {
        let ghost pool = pool_of(read@, found@);
        let ghost spellings = crate::text::texts(ids@);
        let mut slots: Vec<Option<Memory>> = Vec::new();
        let mut at: StringHashMap<usize> = StringHashMap::new();
        proof {
            lemma_read_aliases(read@);
        }
        fill_read(read, &mut slots, &mut at);
        let aliases = fill_found(found, &mut slots, &mut at, Ghost(pool_read(read@)));
        let mut out: Vec<Planned> = Vec::new();
        let mut i: usize = 0;
        assert(holds_pool(slots@, at@, pool.memories));
        let ghost mut left = pool.memories;
        while i < ids.len()
            invariant
                i <= ids.len(),
                spellings == crate::text::texts(ids@),
                out@.len() == i,
                holds_pool(slots@, at@, left),
                forall|k: Seq<char>| #[trigger]
                    aliases@.contains_key(k) <==> pool.aliases.contains_key(k),
                forall|k: Seq<char>| #[trigger]
                    aliases@.contains_key(k) ==> aliases@[k]@ == pool.aliases[k],
                forall|k: Seq<char>| #[trigger]
                    left.contains_key(k) <==> pool.memories.contains_key(k) && forall|j: int|
                        0 <= j < i ==> key_of(pool, #[trigger] spellings[j]) != k,
                forall|k: Seq<char>| #[trigger] left.contains_key(k) ==> left[k] == pool.memories[k],
                forall|j: int|
                    0 <= j < i ==> (match #[trigger] out@[j] {
                        Planned::Apply { given, memory } => given@ == ids@[j]@ && takes(
                            pool,
                            spellings,
                            j,
                        ) && memory@ == pool.memories[key_of(pool, ids@[j]@)],
                        Planned::Missing { given } => given@ == ids@[j]@ && !takes(pool, spellings, j),
                    }),
            decreases ids.len() - i,
        {
            let ghost old_left = left;
            let ghost key = key_of(pool, spellings[i as int]);
            let ghost old_slots = slots@;
            let ghost old_at = at@;
            let given = ids[i].clone();
            let name = match aliases.get(ids[i].as_str()) {
                Some(full) => full.clone(),
                None => ids[i].clone(),
            };
            assert(name@ == key);
            assert(takes(pool, spellings, i as int) == left.contains_key(key));
            let slot: Option<usize> = match at.get(name.as_str()) {
                Some(k) => Some(*k),
                None => None,
            };
            let mut taken: Option<Memory> = None;
            match slot {
                Some(k) => {
                    at.remove(name.as_str());
                    std::mem::swap(&mut taken, &mut slots[k]);
                    proof {
                        left = left.remove(key);
                        assert(holds_pool(slots@, at@, left)) by {
                            assert forall|x: Seq<char>| #[trigger] at@.contains_key(x) implies at@[x]
                                < slots@.len() && slots@[at@[x] as int] is Some
                                && slots@[at@[x] as int]->0@ == left[x] by {
                                assert(old_at.contains_key(x));
                                assert(old_at.contains_key(key));
                                assert(old_at[x] != old_at[key]);
                            }
                        }
                    }
                },
                None => {},
            }
            match taken {
                Some(memory) => out.push(Planned::Apply { given, memory }),
                None => out.push(Planned::Missing { given }),
            }
            proof {
                assert forall|x: Seq<char>| #[trigger] left.contains_key(x) <==> pool.memories.contains_key(
                    x,
                ) && forall|j: int| 0 <= j < i + 1 ==> key_of(pool, #[trigger] spellings[j]) != x by {
                    assert(old_left.contains_key(x) <==> pool.memories.contains_key(x) && forall|j: int|
                        0 <= j < i ==> key_of(pool, #[trigger] spellings[j]) != x);
                    assert(key_of(pool, spellings[i as int]) == key);
                }
            }
            i += 1;
        }
        out
    }
}

/// A memory is changed at most once in a batch: of the spellings that stand for
/// it only the first one takes it.
pub proof fn a_batch_changes_a_memory_at_most_once(
    pool: Pool,
    ids: Seq<Seq<char>>,
    i: int,
    j: int,
)
    requires
        0 <= i < j < ids.len(),
        takes(pool, ids, i),
        takes(pool, ids, j),
        forall|k: Seq<char>| #[trigger]
            pool.memories.contains_key(k) ==> pool.memories[k].id == k,
    ensures
        pool.memories[key_of(pool, ids[i])].id != pool.memories[key_of(pool, ids[j])].id,
{
    assert(key_of(pool, ids[i]) != key_of(pool, ids[j]));
}

/// Every memory that a batch names is changed, under whatever spelling it is
/// named.
pub proof fn a_batch_changes_every_memory_it_names(pool: Pool, ids: Seq<Seq<char>>, i: int) -> (
    first: int)
    requires
        0 <= i < ids.len(),
        pool.memories.contains_key(key_of(pool, ids[i])),
    ensures
        0 <= first <= i,
        takes(pool, ids, first),
        key_of(pool, ids[first]) == key_of(pool, ids[i]),
    decreases i,
{
    if exists|j: int| 0 <= j < i && key_of(pool, #[trigger] ids[j]) == key_of(pool, ids[i]) {
        let j = choose|j: int|
            0 <= j < i && key_of(pool, #[trigger] ids[j]) == key_of(pool, ids[i]);
        a_batch_changes_every_memory_it_names(pool, ids, j)
    } else {
        i
    }
}

impl MemoryStore {
    /// What an edit of a memory comes to: the edited memory, updated at the time of
    /// writing, or the editor's complaint. Where it complains, nothing is written.
    pub fn update_with(edited: Result<Memory, String>, now: Timestamp) -> (r: Result<
        Memory,
        StorageError,
    >)
        ensures
            match edited {
                Ok(m) => r matches Ok(w) && w@ == (MemoryView { updated_at: now, ..m@ }),
                Err(text) => r matches Err(e) && e.refuses(text@),
            },
    {
        match edited {
            Ok(m) => {
                let mut m = m;
                m.mark_updated_at(now);
                Ok(m)
            },
            Err(text) => Err(StorageError::Validation(text)),
        }
    }
}

/// What became of the memories that an update was to change.
#[derive(Debug)]
pub struct UpdateReport {
    /// The full ids of the memories that were changed and written, in order.
    pub updated: Vec<String>,
    /// The other ids, as they were given, each with the reason.
    pub errors: Vec<(String, String)>,
}

/// The mathematical value of a report.
#[verifier::ext_equal]
pub struct ReportView {
    pub updated: Seq<Seq<char>>,
    pub errors: Seq<(Seq<char>, Seq<char>)>,
}

impl View for UpdateReport {
    type V = ReportView;

    open spec fn view(&self) -> ReportView {
        ReportView {
            updated: crate::text::texts(self.updated@),
            errors: self.errors@.map_values(|e: (String, String)| (e.0@, e.1@)),
        }
    }
}

/// What became of one memory.
pub enum Change {
    /// It was written; its full id.
    Written(Seq<char>),
    /// It was not; the reason.
    Failed(Seq<char>),
}

impl ReportView {
    /// A report on nothing.
    pub open spec fn none() -> ReportView {
        ReportView { updated: Seq::empty(), errors: Seq::empty() }
    }

    /// The report with what became of one more id.
    pub open spec fn with(self, given: Seq<char>, change: Change) -> ReportView {
        match change {
            Change::Written(id) => ReportView { updated: self.updated.push(id), ..self },
            Change::Failed(why) => ReportView { errors: self.errors.push((given, why)), ..self },
        }
    }
}

/// The report on several ids, in their order.
pub open spec fn report_on(changes: Seq<(Seq<char>, Change)>) -> ReportView
    decreases changes.len(),
{
    if changes.len() == 0 {
        ReportView::none()
    } else {
        report_on(changes.drop_last()).with(changes.last().0, changes.last().1)
    }
}

impl UpdateReport {
    /// A report on nothing.
    pub fn new() -> (r: UpdateReport)
        ensures
            r@ == ReportView::none(),
    {
        let r = UpdateReport { updated: Vec::new(), errors: Vec::new() };
        assert(r@ =~= ReportView::none());
        r
    }

    fn fail(&mut self, given: String, why: String)
        ensures
            final(self)@ == old(self)@.with(given@, Change::Failed(why@)),
    {
        let ghost before = self@;
        self.errors.push((given, why));
        assert(self@ =~= before.with(given@, Change::Failed(why@)));
    }

    /// Takes up one planned change: the id as it was given and the memory to
    /// edit. Where there is no memory, that is what becomes of the id.
    pub fn take(&mut self, planned: Planned) -> (r: Option<(String, Memory)>)
        ensures
            match planned {
                Planned::Apply { given, memory } => r == Some((given, memory)) && final(self)@
                    == old(self)@,
                Planned::Missing { given } => r is None && final(self)@ == old(self)@.with(
                    given@,
                    Change::Failed("memory not found"@),
                ),
            },
    {
        match planned {
            Planned::Apply { given, memory } => Some((given, memory)),
            Planned::Missing { given } => {
                self.fail(given, "memory not found".to_owned());
                None
            },
        }
    }

    /// Takes what an edit came to: the memory to write, updated at `now`. Where
    /// the editor complained, that is what becomes of the id, and nothing is
    /// written.
    pub fn edited(&mut self, given: &str, edited: Result<Memory, String>, now: Timestamp) -> (r:
        Option<Memory>)
        ensures
            match edited {
                Ok(m) => r matches Some(w) && w@ == (MemoryView { updated_at: now, ..m@ })
                    && final(self)@ == old(self)@,
                Err(why) => r is None && final(self)@ == old(self)@.with(
                    given@,
                    Change::Failed(why@),
                ),
            },
    {
        match edited {
            Ok(m) => {
                let mut m = m;
                m.mark_updated_at(now);
                Some(m)
            },
            Err(why) => {
                self.fail(given.to_owned(), why);
                None
            },
        }
    }

    /// Takes how the write of an edited memory went. A memory that was written
    /// is reported by its full id, one that was not by the id as it was given.
    pub fn written(&mut self, given: String, id: String, outcome: Result<(), String>)
        ensures
            final(self)@ == old(self)@.with(
                given@,
                (match outcome {
                    Ok(_) => Change::Written(id@),
                    Err(why) => Change::Failed(why@),
                }),
            ),
    {
        match outcome {
            Ok(_) => {
                let ghost before = self@;
                self.updated.push(id);
                assert(self@ =~= before.with(given@, Change::Written(id@)));
            },
            Err(why) => self.fail(given, why),
        }
    }
}

/// A report answers for every id: with the full id of the memory that was
/// written, or with the id as it was given and the reason.
pub proof fn a_report_answers_for_every_id(changes: Seq<(Seq<char>, Change)>, i: int)
    requires
        0 <= i < changes.len(),
    ensures
        report_on(changes).updated.len() + report_on(changes).errors.len() == changes.len(),
        match changes[i].1 {
            Change::Written(id) => report_on(changes).updated.contains(id),
            Change::Failed(why) => report_on(changes).errors.contains((changes[i].0, why)),
        },
    decreases changes.len(),
{
    let before = changes.drop_last();
    let r = report_on(before);
    let all = report_on(changes);
    lemma_report_len(changes);
    if i < before.len() {
        assert(before[i] == changes[i]);
        a_report_answers_for_every_id(before, i);
        match changes[i].1 {
            Change::Written(id) => {
                let k = choose|k: int| 0 <= k < r.updated.len() && r.updated[k] == id;
                assert(all.updated[k] == id);
            },
            Change::Failed(why) => {
                let e = (changes[i].0, why);
                let k = choose|k: int| 0 <= k < r.errors.len() && r.errors[k] == e;
                assert(all.errors[k] == e);
            },
        }
    } else {
        match changes[i].1 {
            Change::Written(id) => assert(all.updated[r.updated.len() as int] == id),
            Change::Failed(why) => assert(all.errors[r.errors.len() as int] == (
                changes[i].0,
                why,
            )),
        }
    }
}

proof fn lemma_report_len(changes: Seq<(Seq<char>, Change)>)
    ensures
        report_on(changes).updated.len() + report_on(changes).errors.len() == changes.len(),
    decreases changes.len(),
{
    if changes.len() > 0 {
        lemma_report_len(changes.drop_last());
    }
}

impl MemoryStore {
    /// Ends a memory's validity at `now`, by what superseded it, where something
    /// did. The memory itself is kept.
    pub fn invalidate_with(
        memory: &mut Memory,
        superseded_by: Option<String>,
        now: Timestamp,
        written_at: Timestamp,
    )
        ensures
            final(memory)@ == (MemoryView {
                invalidated_at: Some(now),
                superseded_by: crate::text::opt_text(superseded_by),
                updated_at: written_at,
                ..old(memory)@
            }),
    {
        memory.invalidated_at = Some(now);
        memory.superseded_by = superseded_by;
        memory.mark_updated_at(written_at);
    }
}

/// A memory whose validity was ended is not in force from then on.
pub proof fn an_invalidated_memory_is_out_of_force(
    m: MemoryView,
    superseded_by: Option<Seq<char>>,
    now: Timestamp,
    written_at: Timestamp,
    later: Timestamp,
)
    requires
        !later.before(now),
    ensures
        !(MemoryView {
            invalidated_at: Some(now),
            superseded_by,
            updated_at: written_at,
            ..m
        }).active(later),
{
}

// ---------------------------------------------------------------------------
// Deletions
// ---------------------------------------------------------------------------

/// Those of the ids on which the verdict was `wanted`, in their order.
pub open spec fn chosen(ids: Seq<Seq<char>>, verdicts: Seq<bool>, wanted: bool) -> Seq<Seq<char>>
    decreases ids.len(),
{
    if ids.len() == 0 {
        Seq::empty()
    } else {
        let before = chosen(ids.drop_last(), verdicts.drop_last(), wanted);
        if verdicts.last() == wanted {
            before.push(ids.last())
        } else {
            before
        }
    }
}

/// Whether a predicate may have said this of the memory that was read for an
/// id. One that was not read is kept.
pub open spec fn judged<F: Fn(&Memory) -> bool>(
    current: Seq<(String, Memory)>,
    predicate: F,
    id: Seq<char>,
    verdict: bool,
) -> bool {
    if was_read(current, id) {
        predicate.ensures((&last_of(current, id),), verdict)
    } else {
        !verdict
    }
}

/// Whether ids are divided by what a predicate said of their memories.
pub open spec fn divided<F: Fn(&Memory) -> bool>(
    ids: Seq<Seq<char>>,
    current: Seq<(String, Memory)>,
    predicate: F,
    verdicts: Seq<bool>,
    deleted: Seq<Seq<char>>,
    skipped: Seq<Seq<char>>,
) -> bool {
    &&& verdicts.len() == ids.len()
    &&& forall|i: int|
        0 <= i < ids.len() ==> judged(current, predicate, ids[i], #[trigger] verdicts[i])
    &&& deleted == chosen(ids, verdicts, true)
    &&& skipped == chosen(ids, verdicts, false)
}

impl MemoryStore {
    /// Divides ids into those whose memories are deleted and those that are
    /// skipped, both in the given order: a memory goes where the predicate holds of
    /// it as it was just read, and an id without a memory is skipped.
    pub fn delete_batch_if<F: Fn(&Memory) -> bool>(
        ids: &[String],
        current: &[(String, Memory)],
        predicate: F,
    ) -> (r: (Vec<String>, Vec<String>))
        requires
            forall|m: &Memory| predicate.requires((m,)),
        ensures
            exists|verdicts: Seq<bool>| #[trigger]
                divided(
                    crate::text::texts(ids@),
                    current@,
                    predicate,
                    verdicts,
                    crate::text::texts(r.0@),
                    crate::text::texts(r.1@),
                ),
    {
        let ghost all = crate::text::texts(ids@);
        let map = last_by_id(current);
        let mut to_delete: Vec<String> = Vec::new();
        let mut skipped: Vec<String> = Vec::new();
        let ghost mut verdicts: Seq<bool> = Seq::empty();
        let mut i: usize = 0;
        proof {
            assert(all.take(0) =~= Seq::empty());
            assert(crate::text::texts(to_delete@) =~= Seq::empty());
            assert(crate::text::texts(skipped@) =~= Seq::empty());
        }
        while i < ids.len()
            invariant
                i <= ids.len(),
                all == crate::text::texts(ids@),
                forall|m: &Memory| predicate.requires((m,)),
                forall|id: Seq<char>| #[trigger]
                    map@.contains_key(id) ==> is_last(current@, id, map@[id] as int),
                forall|id: Seq<char>| #[trigger] was_read(current@, id) ==> map@.contains_key(id),
                verdicts.len() == i,
                forall|j: int|
                    0 <= j < i ==> judged(current@, predicate, all[j], #[trigger] verdicts[j]),
                crate::text::texts(to_delete@) == chosen(all.take(i as int), verdicts, true),
                crate::text::texts(skipped@) == chosen(all.take(i as int), verdicts, false),
            decreases ids.len() - i,
        {
            let ghost id = all[i as int];
            let goes = match map.get(ids[i].as_str()) {
                None => false,
                Some(k) => {
                    proof {
                        lemma_last_is_unique(current@, id, *k as int);
                    }
                    predicate(&current[*k].1)
                },
            };
            let ghost before = verdicts;
            let ghost gone = crate::text::texts(to_delete@);
            let ghost kept = crate::text::texts(skipped@);
            proof {
                verdicts = verdicts.push(goes);
                assert(judged(current@, predicate, id, goes));
                assert(all.take(i + 1).drop_last() =~= all.take(i as int));
                assert(all.take(i + 1).last() == id);
                assert(verdicts.drop_last() =~= before);
            }
            if goes {
                to_delete.push(ids[i].clone());
                assert(crate::text::texts(to_delete@) =~= gone.push(id));
            } else {
                skipped.push(ids[i].clone());
                assert(crate::text::texts(skipped@) =~= kept.push(id));
            }
            i += 1;
        }
        assert(all.take(i as int) =~= all);
        let r = (to_delete, skipped);
        assert(divided(
            crate::text::texts(ids@),
            current@,
            predicate,
            verdicts,
            crate::text::texts(r.0@),
            crate::text::texts(r.1@),
        ));
        r
    }
}

impl MemoryStore {
    /// The id of the memory to delete, given what its id was resolved to and,
    /// where it was, how the memory was then read: nothing where the predicate
    /// does not hold of it. A memory that is missing is no error.
    pub fn delete_if<F: Fn(&Memory) -> bool>(
        resolved: Result<String, StorageError>,
        read: Result<Memory, StorageError>,
        predicate: F,
    ) -> (r: Result<Option<String>, StorageError>)
        requires
            forall|m: &Memory| predicate.requires((m,)),
        ensures
            match (resolved, read) {
                (Err(StorageError::NotFound(_)), _) => r == Ok::<Option<String>, StorageError>(None),
                (Err(e), _) => r == Err::<Option<String>, StorageError>(e),
                (Ok(_), Err(StorageError::NotFound(_))) => r == Ok::<
                    Option<String>,
                    StorageError,
                >(None),
                (Ok(_), Err(e)) => r == Err::<Option<String>, StorageError>(e),
                (Ok(id), Ok(m)) => (r == Ok::<Option<String>, StorageError>(Some(id))
                    && predicate.ensures((&m,), true)) || (r == Ok::<Option<String>, StorageError>(
                    None,
                ) && predicate.ensures((&m,), false)),
            },
    {
        let id = match resolved {
            Ok(id) => id,
            Err(StorageError::NotFound(_)) => return Ok(None),
            Err(e) => return Err(e),
        };
        match read {
            Ok(memory) => if predicate(&memory) {
                Ok(Some(id))
            } else {
                Ok(None)
            },
            Err(StorageError::NotFound(_)) => Ok(None),
            Err(e) => Err(e),
        }
    }
}

proof fn lemma_chosen_contains(
    ids: Seq<Seq<char>>,
    verdicts: Seq<bool>,
    wanted: bool,
    id: Seq<char>,
)
    requires
        ids.len() == verdicts.len(),
    ensures
        chosen(ids, verdicts, wanted).contains(id) <==> exists|i: int|
            0 <= i < ids.len() && ids[i] == id && #[trigger] verdicts[i] == wanted,
    decreases ids.len(),
{
    if ids.len() > 0 {
        let a = ids.drop_last();
        let b = verdicts.drop_last();
        lemma_chosen_contains(a, b, wanted, id);
        let before = chosen(a, b, wanted);
        let after = chosen(ids, verdicts, wanted);
        let last = ids.len() - 1;
        if after.contains(id) {
            let k = choose|k: int| 0 <= k < after.len() && after[k] == id;
            if k < before.len() {
                assert(before[k] == id);
                let i = choose|i: int|
                    0 <= i < a.len() && a[i] == id && #[trigger] b[i] == wanted;
                assert(ids[i] == id && verdicts[i] == wanted);
            } else {
                assert(ids[last] == id && verdicts[last] == wanted);
            }
        }
        if exists|i: int| 0 <= i < ids.len() && ids[i] == id && #[trigger] verdicts[i] == wanted {
            let i = choose|i: int|
                0 <= i < ids.len() && ids[i] == id && #[trigger] verdicts[i] == wanted;
            if i < last {
                assert(a[i] == id && b[i] == wanted);
                let k = choose|k: int| 0 <= k < before.len() && before[k] == id;
                assert(after[k] == id);
            } else {
                assert(after[before.len() as int] == id);
            }
        }
    }
}

/// Every id that a batch was given is deleted or skipped.
pub proof fn a_batch_answers_for_every_id(ids: Seq<Seq<char>>, verdicts: Seq<bool>, i: int)
    requires
        ids.len() == verdicts.len(),
        0 <= i < ids.len(),
    ensures
        chosen(ids, verdicts, true).len() + chosen(ids, verdicts, false).len() == ids.len(),
        chosen(ids, verdicts, verdicts[i]).contains(ids[i]),
    decreases ids.len(),
{
    lemma_chosen_contains(ids, verdicts, verdicts[i], ids[i]);
    lemma_chosen_len(ids, verdicts);
}

proof fn lemma_chosen_len(ids: Seq<Seq<char>>, verdicts: Seq<bool>)
    requires
        ids.len() == verdicts.len(),
    ensures
        chosen(ids, verdicts, true).len() + chosen(ids, verdicts, false).len() == ids.len(),
    decreases ids.len(),
{
    if ids.len() > 0 {
        lemma_chosen_len(ids.drop_last(), verdicts.drop_last());
    }
}

// ---------------------------------------------------------------------------
// Vectors of memories
// ---------------------------------------------------------------------------

/// Vectors that were computed from a memory as it was at a time.
#[derive(Debug)]
pub struct GuardedChunkWrite<T> {
    pub memory_id: String,
    /// When the memory that they were computed from had been updated.
    pub snapshot_updated_at: Timestamp,
    pub chunks: T,
    /// A digest of the text that they were computed from.
    pub digest: Option<String>,
}

/// Vectors to be stored for a memory.
#[derive(Debug)]
pub struct ChunkWrite<T> {
    pub memory_id: String,
    pub chunks: T,
    pub digest: Option<String>,
}

/// Whether a memory still is as it was when its vectors were computed.
pub open spec fn is_current(current: Seq<(String, Memory)>, id: Seq<char>, at: Timestamp) -> bool {
    was_read(current, id) && last_of(current, id).updated_at == at
}

/// The vectors without what they are guarded by.
pub open spec fn unguarded<T>(e: GuardedChunkWrite<T>) -> ChunkWrite<T> {
    ChunkWrite { memory_id: e.memory_id, chunks: e.chunks, digest: e.digest }
}

impl MemoryStore {
    /// The vectors that may be stored, in the given order: those of memories that
    /// have neither changed nor gone since the vectors were computed.
    pub fn upsert_chunks_batch<T>(
        entries: Vec<GuardedChunkWrite<T>>,
        current: &[(String, Memory)],
    ) -> (r: Vec<ChunkWrite<T>>)
        ensures
            r@ == entries@.filter(
                |e: GuardedChunkWrite<T>|
                    is_current(current@, e.memory_id@, e.snapshot_updated_at),
            ).map_values(|e: GuardedChunkWrite<T>| unguarded(e)),
    {
        let ghost all = entries@;
        let ghost keep = |e: GuardedChunkWrite<T>|
            is_current(current@, e.memory_id@, e.snapshot_updated_at);
        let ghost bare = |e: GuardedChunkWrite<T>| unguarded(e);
        let map = last_by_id(current);
        let mut rest = reversed(entries);
        let mut out: Vec<ChunkWrite<T>> = Vec::new();
        let ghost mut done: int = 0;
        proof {
            crate::seqs::lemma_filter_ends(all, keep);
            assert(out@ =~= all.take(0).filter(keep).map_values(bare));
        }
        while rest.len() > 0
            invariant
                0 <= done <= all.len(),
                rest@.len() == all.len() - done,
                forall|j: int| 0 <= j < rest@.len() ==> #[trigger] rest@[j] == all[all.len() - 1 - j],
                keep == (|e: GuardedChunkWrite<T>|
                    is_current(current@, e.memory_id@, e.snapshot_updated_at)),
                bare == (|e: GuardedChunkWrite<T>| unguarded(e)),
                forall|id: Seq<char>| #[trigger]
                    map@.contains_key(id) ==> is_last(current@, id, map@[id] as int),
                forall|id: Seq<char>| #[trigger] was_read(current@, id) ==> map@.contains_key(id),
                out@ == all.take(done).filter(keep).map_values(bare),
            decreases rest.len(),
        {
            assert(rest@[rest@.len() - 1] == all[done]);
            proof {
                crate::seqs::lemma_filter_take(all, done, keep);
            }
            match rest.pop() {
                Some(entry) => {
                    let fresh = match map.get(entry.memory_id.as_str()) {
                        Some(k) => {
                            proof {
                                lemma_last_is_unique(current@, entry.memory_id@, *k as int);
                            }
                            current[*k].1.updated_at == entry.snapshot_updated_at
                        },
                        None => false,
                    };
                    assert(fresh == keep(all[done]));
                    if fresh {
                        let ghost before = all.take(done).filter(keep);
                        out.push(
                            ChunkWrite {
                                memory_id: entry.memory_id,
                                chunks: entry.chunks,
                                digest: entry.digest,
                            },
                        );
                        assert(before.push(all[done]).map_values(bare) =~= before.map_values(
                            bare,
                        ).push(bare(all[done])));
                    }
                },
                None => {},
            }
            proof {
                done = done + 1;
            }
        }
        proof {
            crate::seqs::lemma_filter_ends(all, keep);
        }
        out
    }
}

impl MemoryStore {
    /// Whether vectors may be stored for a memory, given how it was just read:
    /// only where it still is as it was when they were computed. A memory that is
    /// gone is no error.
    pub fn upsert_chunks_if_current(
        read: Result<Memory, StorageError>,
        snapshot_updated_at: Timestamp,
    ) -> (r: Result<bool, StorageError>)
        ensures
            r == (match read {
                Ok(m) => Ok(m.updated_at == snapshot_updated_at),
                Err(StorageError::NotFound(_)) => Ok(false),
                Err(e) => Err(e),
            }),
    {
        match read {
            Ok(m) => Ok(m.updated_at == snapshot_updated_at),
            Err(StorageError::NotFound(_)) => Ok(false),
            Err(e) => Err(e),
        }
    }
}

// ---------------------------------------------------------------------------
// Index rows
// ---------------------------------------------------------------------------

/// What a write settles of a memory's row in the index.
#[derive(Debug, PartialEq, Eq)]
pub struct IndexRow {
    pub id: String,
    pub visibility: Visibility,
    /// A digest of the file's contents.
    pub digest: String,
    /// Whether vectors are stored for the memory.
    pub has_embedding: bool,
}

/// The mathematical value of an index row.
#[verifier::ext_equal]
pub struct RowView {
    pub id: Seq<char>,
    pub visibility: Visibility,
    pub digest: Seq<char>,
    pub has_embedding: bool,
}

impl View for IndexRow {
    type V = RowView;

    open spec fn view(&self) -> RowView {
        RowView {
            id: self.id@,
            visibility: self.visibility,
            digest: self.digest@,
            has_embedding: self.has_embedding,
        }
    }
}

/// The row of a memory that was just written. Whether it has vectors is carried
/// over: writing the memory does not touch them.
pub fn index_row(memory: &Memory, digest: &str, has_chunks: bool) -> (r: IndexRow)
    ensures
        r@ == (RowView {
            id: memory.id@,
            visibility: memory.visibility,
            digest: digest@,
            has_embedding: has_chunks,
        }),
{
    IndexRow {
        id: memory.id.clone(),
        visibility: memory.visibility,
        digest: digest.to_owned(),
        has_embedding: has_chunks,
    }
}

/// Whether the memory at `k` is the last one of a batch with its id.
pub open spec fn is_last_write(memories: Seq<Memory>, id: Seq<char>, k: int) -> bool {
    &&& 0 <= k < memories.len()
    &&& memories[k].id@ == id
    &&& forall|j: int| k < j < memories.len() ==> (#[trigger] memories[j]).id@ != id
}

/// Whether rows are those of memories that were just written, in their order.
/// Of an id that was written twice every row has the digest of the later file.
pub open spec fn are_rows_of(
    rows: Seq<IndexRow>,
    memories: Seq<Memory>,
    digests: Seq<String>,
    with_chunks: Seq<String>,
) -> bool {
    &&& rows.len() == memories.len()
    &&& forall|i: int|
        0 <= i < rows.len() ==> exists|k: int|
            #[trigger] is_last_write(memories, memories[i].id@, k) && (#[trigger] rows[i])@ == (
            RowView {
                id: memories[i].id@,
                visibility: memories[i].visibility,
                digest: digests[k]@,
                has_embedding: crate::text::texts(with_chunks).contains(memories[i].id@),
            })
}

/// The rows of memories that were just written, in their order. Of an id that
/// was written twice every row has the digest of the later file: the one that
/// is left.
pub fn batch_rows(memories: &[Memory], digests: &[String], with_chunks: &[String]) -> (r: Vec<
    IndexRow,
>)
    requires
        digests@.len() == memories@.len(),
    ensures
        are_rows_of(r@, memories@, digests@, with_chunks@),
{
    let mut last: StringHashMap<usize> = StringHashMap::new();
    let mut i: usize = 0;
    while i < memories.len()
        invariant
            i <= memories.len(),
            forall|id: Seq<char>| #[trigger]
                last@.contains_key(id) ==> last@[id] < i && memories@[last@[id] as int].id@ == id,
            forall|id: Seq<char>, j: int|
                #![trigger last@.contains_key(id), memories@[j]]
                last@.contains_key(id) && last@[id] < j < i ==> memories@[j].id@ != id,
            forall|j: int| 0 <= j < i ==> last@.contains_key((#[trigger] memories@[j]).id@),
        decreases memories.len() - i,
    {
        last.insert(memories[i].id.clone(), i);
        i += 1;
    }
    let mut chunk_ids = StringHashSet::new();
    collect_texts(with_chunks, &mut chunk_ids);
    let mut rows: Vec<IndexRow> = Vec::new();
    let mut k: usize = 0;
    while k < memories.len()
        invariant
            k <= memories.len(),
            digests@.len() == memories@.len(),
            rows@.len() == k,
            forall|id: Seq<char>| #[trigger]
                last@.contains_key(id) ==> is_last_write(memories@, id, last@[id] as int),
            forall|j: int|
                0 <= j < memories@.len() ==> last@.contains_key((#[trigger] memories@[j]).id@),
            forall|id: Seq<char>| #[trigger]
                chunk_ids@.contains(id) <==> crate::text::texts(with_chunks@).contains(id),
            forall|i: int|
                0 <= i < k ==> exists|m: int|
                    #[trigger] is_last_write(memories@, memories@[i].id@, m) && (
                    #[trigger] rows@[i])@ == (RowView {
                        id: memories@[i].id@,
                        visibility: memories@[i].visibility,
                        digest: digests@[m]@,
                        has_embedding: crate::text::texts(with_chunks@).contains(
                            memories@[i].id@,
                        ),
                    }),
        decreases memories.len() - k,
    {
        let has = chunk_ids.contains(memories[k].id.as_str());
        let at: usize = match last.get(memories[k].id.as_str()) {
            Some(m) => *m,
            None => k,
        };
        assert(is_last_write(memories@, memories@[k as int].id@, at as int));
        rows.push(index_row(&memories[k], digests[at].as_str(), has));
        k += 1;
    }
    rows
}

/// Adds texts to a set.
pub(crate) fn collect_texts(list: &[String], set: &mut StringHashSet)
    ensures
        forall|s: Seq<char>| #[trigger]
            final(set)@.contains(s) <==> old(set)@.contains(s) || crate::text::texts(
                list@,
            ).contains(s),
{
    let ghost all = crate::text::texts(list@);
    let ghost start = set@;
    let mut i: usize = 0;
    while i < list.len()
        invariant
            i <= list.len(),
            all == crate::text::texts(list@),
            forall|s: Seq<char>| #[trigger]
                set@.contains(s) <==> start.contains(s) || exists|j: int|
                    0 <= j < i && #[trigger] all[j] == s,
        decreases list.len() - i,
    {
        let ghost before = set@;
        set.insert(list[i].clone());
        proof {
            assert(all[i as int] == list@[i as int]@);
            assert forall|s: Seq<char>| #[trigger] set@.contains(s) <==> start.contains(s)
                || exists|j: int| 0 <= j < i + 1 && #[trigger] all[j] == s by {
                assert(before.contains(s) <==> start.contains(s) || exists|j: int|
                    0 <= j < i && #[trigger] all[j] == s);
            }
        }
        i += 1;
    }
}

} // verus!
