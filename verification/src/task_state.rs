//! Which task each session is working on.
//!
//! A session declares its task by name. Hooks run in other processes and know
//! other session ids, so a reader without an entry of its own falls back to
//! the most recently declared task that is still fresh. Ending a session drops
//! its entry and every entry that has grown stale.

use crate::error::StorageError;
use crate::path::{FilePath, PartView};
use crate::text::same_text;
use crate::time::{utc_now, Timestamp};
use vstd::prelude::*;

verus! {

broadcast use vstd::string::group_string_axioms;

/// How long a declaration counts as fresh for a reader of another session, in
/// hours.
pub const TASK_FALLBACK_MAX_AGE_HOURS: i64 = 24;

/// Entries older than this many days are dropped when a session ends.
pub const PRUNE_AFTER_DAYS: i64 = 7;

pub const FALLBACK_MAX_AGE_SECS: i64 = 3_600 * TASK_FALLBACK_MAX_AGE_HOURS;

pub const PRUNE_AFTER_SECS: i64 = 86_400 * PRUNE_AFTER_DAYS;

/// One session's declared task.
#[derive(Debug, Clone, PartialEq, Eq)]
pub struct TaskEntry {
    pub task: String,
    pub declared_at: Timestamp,
}

/// The mathematical value of an entry.
pub struct TaskView {
    pub task: Seq<char>,
    pub declared_at: Timestamp,
}

impl View for TaskEntry {
    type V = TaskView;

    open spec fn view(&self) -> TaskView {
        TaskView { task: self.task@, declared_at: self.declared_at }
    }
}

/// The declared tasks by session id; no session has two.
#[derive(Debug)]
pub struct SessionTasks {
    entries: Vec<(String, TaskEntry)>,
}

spec fn has_key(entries: Seq<(String, TaskEntry)>, key: Seq<char>) -> bool {
    exists|i: int| 0 <= i < entries.len() && (#[trigger] entries[i]).0@ == key
}

spec fn position(entries: Seq<(String, TaskEntry)>, key: Seq<char>) -> int {
    choose|i: int| 0 <= i < entries.len() && (#[trigger] entries[i]).0@ == key
}

spec fn unique_keys(entries: Seq<(String, TaskEntry)>) -> bool {
    forall|i: int, j: int|
        0 <= i < j < entries.len() ==> (#[trigger] entries[i]).0@ != (#[trigger] entries[j]).0@
}

impl View for SessionTasks {
    type V = Map<Seq<char>, TaskView>;

    closed spec fn view(&self) -> Map<Seq<char>, TaskView> {
        Map::new(
            |k: Seq<char>| has_key(self.entries@, k),
            |k: Seq<char>| self.entries@[position(self.entries@, k)].1@,
        )
    }
}

/// The path of the mapping's file below a project directory.
pub fn mapping_path(project_dir: &FilePath) -> (r: FilePath)
    ensures
        r@ == project_dir@ + seq![
            PartView::Name(".engramdb"@),
            PartView::Name("state"@),
            PartView::Name("session_tasks.json"@),
        ],
{
    let r = project_dir.join_name(".engramdb").join_name("state").join_name("session_tasks.json");
    assert(r@ =~= project_dir@ + seq![
        PartView::Name(".engramdb"@),
        PartView::Name("state"@),
        PartView::Name("session_tasks.json"@),
    ]);
    r
}

/// Whether an entry was declared after the given time.
pub open spec fn declared_after(e: TaskView, t: Timestamp) -> bool {
    t.before(e.declared_at)
}

/// Whether `task` is the most recently declared one of the entries declared
/// after `cutoff`; of several declared at the same time any.
pub open spec fn is_most_recent(
    tasks: Map<Seq<char>, TaskView>,
    cutoff: Timestamp,
    task: Seq<char>,
) -> bool {
    exists|k: Seq<char>|
        {
            &&& #[trigger] tasks.contains_key(k)
            &&& declared_after(tasks[k], cutoff)
            &&& tasks[k].task == task
            &&& forall|j: Seq<char>| #[trigger]
                tasks.contains_key(j) ==> !tasks[k].declared_at.before(tasks[j].declared_at)
        }
}

/// Whether a task, or none, is what a session is on at `now`: its own one, or
/// else the most recently declared fresh one of any session.
pub open spec fn is_task_at(
    tasks: Map<Seq<char>, TaskView>,
    session_id: Seq<char>,
    now: Timestamp,
    task: Option<Seq<char>>,
) -> bool {
    let cutoff = now.minus(FALLBACK_MAX_AGE_SECS as int);
    if session_id.len() > 0 && tasks.contains_key(session_id) {
        task == Some(tasks[session_id].task)
    } else {
        match task {
            Some(t) => is_most_recent(tasks, cutoff, t),
            None => forall|k: Seq<char>| #[trigger]
                tasks.contains_key(k) ==> !declared_after(tasks[k], cutoff),
        }
    }
}

/// The entries that stay when `session_id` ends at `now`.
pub open spec fn after_end(
    tasks: Map<Seq<char>, TaskView>,
    session_id: Seq<char>,
    now: Timestamp,
) -> Map<Seq<char>, TaskView> {
    Map::new(
        |k: Seq<char>|
            tasks.contains_key(k) && k != session_id && declared_after(
                tasks[k],
                now.minus(PRUNE_AFTER_SECS as int),
            ),
        |k: Seq<char>| tasks[k],
    )
}

/// What ending a session did to the mapping.
#[derive(Debug)]
pub struct Cleared {
    /// The task that the session had declared.
    pub task: Option<String>,
    /// Whether the mapping changed and has to be written.
    pub changed: bool,
}

impl SessionTasks {
    /// No session has two entries.
    pub closed spec fn well_formed(&self) -> bool {
        unique_keys(self.entries@)
    }

    /// No declared tasks.
    pub fn new() -> (r: SessionTasks)
        ensures
            r.well_formed(),
            r@ == Map::<Seq<char>, TaskView>::empty(),
    {
        let r = SessionTasks { entries: Vec::new() };
        assert(r@ =~= Map::empty());
        r
    }

    /// How many sessions have a declared task.
    pub fn len(&self) -> (r: usize)
        requires
            self.well_formed(),
        ensures
            self@.dom().finite(),
            r == self@.len(),
            r == self.keys().len(),
    {
        proof {
            self.lemma_len();
        }
        self.entries.len()
    }

    /// The session ids, each at its position.
    pub closed spec fn keys(&self) -> Seq<Seq<char>> {
        Seq::new(self.entries@.len(), |i: int| self.entries@[i].0@)
    }

    proof fn lemma_len(&self)
        requires
            self.well_formed(),
        ensures
            self@.dom().finite(),
            self@.len() == self.entries@.len(),
            self.keys().no_duplicates(),
            self.keys().to_set() == self@.dom(),
    {
        let keys = self.keys();
        assert(keys.no_duplicates());
        keys.unique_seq_to_set();
        assert(keys.to_set() =~= self@.dom()) by {
            assert forall|k: Seq<char>| keys.to_set().contains(k) implies self@.dom().contains(
                k,
            ) by {
                let i = choose|i: int| 0 <= i < keys.len() && keys[i] == k;
                assert(self.entries@[i].0@ == k);
            }
            assert forall|k: Seq<char>| self@.dom().contains(k) implies keys.to_set().contains(
                k,
            ) by {
                let i = position(self.entries@, k);
                assert(keys[i] == k);
            }
        }
    }

    /// The session id and the entry at a position. Each session has one
    /// position, in no particular order, so that going through the positions
    /// gives the whole mapping.
    pub fn entry(&self, i: usize) -> (r: Option<(String, TaskEntry)>)
        requires
            self.well_formed(),
        ensures
            self.keys().no_duplicates(),
            self.keys().to_set() == self@.dom(),
            r is Some <==> i < self.keys().len(),
            r matches Some((k, e)) ==> k@ == self.keys()[i as int] && self@.contains_key(k@)
                && self@[k@] == e@,
    {
        proof {
            self.lemma_len();
        }
        if i < self.entries.len() {
            let e = &self.entries[i];
            assert(has_key(self.entries@, e.0@));
            assert(position(self.entries@, e.0@) == i);
            Some((
                e.0.clone(),
                TaskEntry { task: e.1.task.clone(), declared_at: e.1.declared_at },
            ))
        } else {
            None
        }
    }

    fn find(&self, session_id: &str) -> (r: Option<usize>)
        requires
            self.well_formed(),
        ensures
            match r {
                Some(i) => i < self.entries@.len() && self.entries@[i as int].0@ == session_id@
                    && self@.contains_key(session_id@) && self@[session_id@]
                    == self.entries@[i as int].1@,
                None => !self@.contains_key(session_id@),
            },
    {
        let mut i: usize = 0;
        while i < self.entries.len()
            invariant
                i <= self.entries.len(),
                self.well_formed(),
                forall|j: int| 0 <= j < i ==> (#[trigger] self.entries@[j]).0@ != session_id@,
            decreases self.entries.len() - i,
        {
            if same_text(self.entries[i].0.as_str(), session_id) {
                assert(has_key(self.entries@, session_id@));
                assert(position(self.entries@, session_id@) == i);
                return Some(i);
            }
            i += 1;
        }
        None
    }

    /// Records an entry, in place of the one that the session may have.
    pub fn insert(&mut self, session_id: String, entry: TaskEntry)
        requires
            old(self).well_formed(),
        ensures
            final(self).well_formed(),
            final(self)@ == old(self)@.insert(session_id@, entry@),
    {
        let ghost key = session_id@;
        let ghost value = entry@;
        let ghost before = self.entries@;
        match self.find(session_id.as_str()) {
            Some(i) => {
                self.entries.set(i, (session_id, entry));
                assert(unique_keys(self.entries@));
                assert forall|k: Seq<char>| has_key(self.entries@, k) <==> has_key(before, k) by {
                    if has_key(before, k) {
                        let j = position(before, k);
                        assert(self.entries@[j].0@ == k);
                    }
                    if has_key(self.entries@, k) {
                        let j = position(self.entries@, k);
                        assert(before[j].0@ == k);
                    }
                }
                assert(before[i as int].0@ == key);
                assert forall|k: Seq<char>| #[trigger] has_key(self.entries@, k) implies self@[k]
                    == old(self)@.insert(key, value)[k] by {
                    let j = position(self.entries@, k);
                    let l = position(before, k);
                    assert(before[j].0@ == k);
                    assert(j == l);
                }
            },
            None => {
                self.entries.push((session_id, entry));
                let ghost n = before.len() as int;
                assert forall|i: int, j: int| 0 <= i < j < self.entries@.len() implies (
                #[trigger] self.entries@[i]).0@ != (#[trigger] self.entries@[j]).0@ by {
                    if j == n {
                        assert(before[i].0@ != key) by {
                            if before[i].0@ == key {
                                assert(has_key(before, key));
                            }
                        }
                    }
                }
                assert forall|k: Seq<char>|
                    has_key(self.entries@, k) <==> has_key(before, k) || k == key by {
                    if has_key(before, k) {
                        let j = position(before, k);
                        assert(self.entries@[j].0@ == k);
                    }
                    if k == key {
                        assert(self.entries@[n].0@ == k);
                    }
                    if has_key(self.entries@, k) {
                        let j = position(self.entries@, k);
                        if j < n {
                            assert(before[j].0@ == k);
                        }
                    }
                }
                assert forall|k: Seq<char>| #[trigger] has_key(self.entries@, k) implies self@[k]
                    == old(self)@.insert(key, value)[k] by {
                    let j = position(self.entries@, k);
                    if j < n {
                        let l = position(before, k);
                        assert(before[j].0@ == k);
                        assert(j == l);
                    } else {
                        assert(k == key);
                    }
                }
            },
        }
        assert(self@ =~= old(self)@.insert(key, value));
    }

    /// The task that the given session declared.
    pub fn current_task(&self, session_id: &str) -> (r: Option<String>)
        requires
            self.well_formed(),
        ensures
            crate::text::opt_text(r) == (if session_id@.len() > 0 && self@.contains_key(
                session_id@,
            ) {
                Some(self@[session_id@].task)
            } else {
                None
            }),
    {
        if session_id.is_empty() {
            return None;
        }
        match self.find(session_id) {
            Some(i) => Some(self.entries[i].1.task.clone()),
            None => None,
        }
    }

    /// The session's own task, or else, at the given time, the most recently
    /// declared fresh one of any session.
    pub fn current_task_or_recent_at(&self, session_id: &str, now: Timestamp) -> (r: Option<
        String,
    >)
        requires
            self.well_formed(),
            now.secs - FALLBACK_MAX_AGE_SECS >= i64::MIN,
        ensures
            is_task_at(self@, session_id@, now, crate::text::opt_text(r)),
    {
        if !session_id.is_empty() {
            if let Some(i) = self.find(session_id) {
                return Some(self.entries[i].1.task.clone());
            }
        }
        let cutoff = now.earlier(FALLBACK_MAX_AGE_SECS);
        let mut best: Option<usize> = None;
        let mut i: usize = 0;
        while i < self.entries.len()
            invariant
                i <= self.entries.len(),
                match best {
                    Some(b) => {
                        &&& b < i
                        &&& cutoff.before(self.entries@[b as int].1.declared_at)
                        &&& forall|j: int|
                            0 <= j < i ==> !self.entries@[b as int].1.declared_at.before(
                                (#[trigger] self.entries@[j]).1.declared_at,
                            )
                    },
                    None => forall|j: int|
                        0 <= j < i ==> !cutoff.before(
                            (#[trigger] self.entries@[j]).1.declared_at,
                        ),
                },
            decreases self.entries.len() - i,
        {
            if cutoff.is_before(&self.entries[i].1.declared_at) {
                let later = match best {
                    Some(b) => self.entries[b].1.declared_at.is_before(
                        &self.entries[i].1.declared_at,
                    ),
                    None => true,
                };
                if later {
                    best = Some(i);
                }
            }
            i += 1;
        }
        match best {
            Some(b) => {
                proof {
                    let k = self.entries@[b as int].0@;
                    assert(has_key(self.entries@, k));
                    assert(position(self.entries@, k) == b);
                    assert(self@.contains_key(k));
                    assert forall|j: Seq<char>| #[trigger]
                        self@.contains_key(j) implies !self@[k].declared_at.before(
                        self@[j].declared_at,
                    ) by {
                        assert(has_key(self.entries@, j));
                        let l = position(self.entries@, j);
                        assert(self.entries@[l].0@ == j);
                    }
                }
                Some(self.entries[b].1.task.clone())
            },
            None => {
                proof {
                    assert forall|k: Seq<char>| #[trigger]
                        self@.contains_key(k) implies !declared_after(self@[k], cutoff) by {
                        assert(has_key(self.entries@, k));
                        let l = position(self.entries@, k);
                        assert(self.entries@[l].0@ == k);
                    }
                }
                None
            },
        }
    }

    /// The session's own task, or else the most recently declared fresh one of
    /// any session. Which entries are fresh is for the clock to say.
    pub fn current_task_or_recent(&self, session_id: &str) -> (r: Option<String>)
        requires
            self.well_formed(),
        ensures
            exists|now: Timestamp| #[trigger]
                crate::time::clock_time(now) && is_task_at(
                    self@,
                    session_id@,
                    now,
                    crate::text::opt_text(r),
                ),
    {
        self.current_task_or_recent_at(session_id, utc_now())
    }

    /// Records the session's declared task, at the given time.
    pub fn set_current_task_at(&mut self, session_id: &str, task: &str, now: Timestamp) -> (r:
        Result<(), StorageError>)
        requires
            old(self).well_formed(),
        ensures
            final(self).well_formed(),
            match r {
                Ok(()) => session_id@.len() > 0 && final(self)@ == old(self)@.insert(
                    session_id@,
                    (TaskView { task: task@, declared_at: now }),
                ),
                Err(e) => session_id@.len() == 0 && final(self)@ == old(self)@ && e.refuses(
                    "cannot record a task for an empty session id"@,
                ),
            },
    {
        if session_id.is_empty() {
            return Err(
                StorageError::Validation(
                    "cannot record a task for an empty session id".to_owned(),
                ),
            );
        }
        self.insert(session_id.to_owned(), TaskEntry { task: task.to_owned(), declared_at: now });
        Ok(())
    }

    /// Records the session's declared task.
    pub fn set_current_task(&mut self, session_id: &str, task: &str) -> (r: Result<
        (),
        StorageError,
    >)
        requires
            old(self).well_formed(),
        ensures
            final(self).well_formed(),
            match r {
                Ok(()) => session_id@.len() > 0 && exists|now: Timestamp| #[trigger]
                    crate::time::clock_time(now) && final(self)@ == old(self)@.insert(
                        session_id@,
                        (TaskView { task: task@, declared_at: now }),
                    ),
                Err(e) => session_id@.len() == 0 && final(self)@ == old(self)@ && e.refuses(
                    "cannot record a task for an empty session id"@,
                ),
            },
    {
        self.set_current_task_at(session_id, task, utc_now())
    }

    /// Drops the session's entry and every stale one, at the given time.
    pub fn clear_session_task_at(&mut self, session_id: &str, now: Timestamp) -> (r: Cleared)
        requires
            old(self).well_formed(),
            now.secs - PRUNE_AFTER_SECS >= i64::MIN,
        ensures
            final(self).well_formed(),
            if session_id@.len() == 0 {
                final(self)@ == old(self)@ && r.task is None && !r.changed
            } else {
                &&& final(self)@ == after_end(old(self)@, session_id@, now)
                &&& crate::text::opt_text(r.task) == (if old(self)@.contains_key(session_id@) {
                    Some(old(self)@[session_id@].task)
                } else {
                    None
                })
                &&& r.changed <==> final(self)@ != old(self)@
            },
    {
        if session_id.is_empty() {
            return Cleared { task: None, changed: false };
        }
        let task = self.current_task(session_id);
        let cutoff = now.earlier(PRUNE_AFTER_SECS);
        let ghost before = self.entries@;
        let mut kept: Vec<(String, TaskEntry)> = Vec::new();
        let ghost mut source: Seq<int> = Seq::empty();
        let mut changed = false;
        let mut i: usize = 0;
        while i < self.entries.len()
            invariant
                i <= self.entries.len(),
                self.entries@ == before,
                unique_keys(before),
                unique_keys(kept@),
                source.len() == kept@.len(),
                forall|j: int|
                    #![trigger kept@[j]]
                    #![trigger source[j]]
                    0 <= j < kept@.len() ==> 0 <= source[j] < i && before[source[j]].0@
                        == kept@[j].0@ && before[source[j]].1@ == kept@[j].1@ && kept@[j].0@
                        != session_id@ && cutoff.before(kept@[j].1.declared_at),
                forall|l: int|
                    0 <= l < i && (#[trigger] before[l]).0@ != session_id@ && cutoff.before(
                        before[l].1.declared_at,
                    ) ==> has_key(kept@, before[l].0@),
                changed <==> exists|l: int|
                    0 <= l < i && !((#[trigger] before[l]).0@ != session_id@ && cutoff.before(
                        before[l].1.declared_at,
                    )),
            decreases self.entries.len() - i,
        {
            let e = &self.entries[i];
            let ghost old_kept = kept@;
            if !same_text(e.0.as_str(), session_id) && cutoff.is_before(&e.1.declared_at) {
                kept.push((
                    e.0.clone(),
                    TaskEntry { task: e.1.task.clone(), declared_at: e.1.declared_at },
                ));
                proof {
                    assert forall|j: int, l: int| 0 <= j < l < kept@.len() implies (
                    #[trigger] kept@[j]).0@ != (#[trigger] kept@[l]).0@ by {
                        if l == old_kept.len() {
                            assert(kept@[j] == old_kept[j]);
                        }
                    }
                    source = source.push(i as int);
                    assert forall|l: int|
                        0 <= l < i + 1 && (#[trigger] before[l]).0@ != session_id@
                            && cutoff.before(before[l].1.declared_at) implies has_key(
                        kept@,
                        before[l].0@,
                    ) by {
                        if l < i {
                            let j = position(old_kept, before[l].0@);
                            assert(kept@[j] == old_kept[j]);
                        } else {
                            assert(kept@[old_kept.len() as int].0@ == before[l].0@);
                        }
                    }
                }
            } else {
                changed = true;
                assert(!(before[i as int].0@ != session_id@ && cutoff.before(
                    before[i as int].1.declared_at,
                )));
            }
            i += 1;
        }
        self.entries = kept;
        proof {
            let goal = after_end(old(self)@, session_id@, now);
            assert forall|k: Seq<char>| self@.contains_key(k) <==> goal.contains_key(k) by {
                if self@.contains_key(k) {
                    assert(has_key(kept@, k));
                    let j = position(kept@, k);
                    assert(kept@[j].0@ == k);
                    let l = source[j];
                    assert(before[l].0@ == k);
                    assert(has_key(before, k));
                    assert(position(before, k) == l);
                }
                if goal.contains_key(k) {
                    assert(has_key(before, k));
                    let l = position(before, k);
                    assert(before[l].0@ == k);
                    assert(has_key(kept@, k));
                }
            }
            assert forall|k: Seq<char>| self@.contains_key(k) implies self@[k] == goal[k] by {
                assert(has_key(kept@, k));
                let j = position(kept@, k);
                assert(kept@[j].0@ == k);
                let l = source[j];
                assert(before[l].0@ == k);
                assert(has_key(before, k));
                assert(position(before, k) == l);
            }
            assert(self@ =~= goal);
            if changed {
                let l = choose|l: int|
                    0 <= l < before.len() && !((#[trigger] before[l]).0@ != session_id@
                        && cutoff.before(before[l].1.declared_at));
                let k = before[l].0@;
                assert(has_key(before, k));
                assert(position(before, k) == l);
                assert(old(self)@.contains_key(k));
                assert(!goal.contains_key(k));
            } else {
                assert forall|k: Seq<char>| old(self)@.contains_key(k) implies goal.contains_key(
                    k,
                ) by {
                    assert(has_key(before, k));
                    let l = position(before, k);
                    assert(before[l].0@ == k);
                }
                assert(goal =~= old(self)@);
            }
        }
        Cleared { task, changed }
    }

    /// Drops the session's entry and every stale one. Which entries are stale
    /// is for the clock to say.
    pub fn clear_session_task(&mut self, session_id: &str) -> (r: Cleared)
        requires
            old(self).well_formed(),
        ensures
            final(self).well_formed(),
            session_id@.len() == 0 ==> final(self)@ == old(self)@,
            session_id@.len() > 0 ==> exists|now: Timestamp| #[trigger]
                crate::time::clock_time(now) && final(self)@ == after_end(
                    old(self)@,
                    session_id@,
                    now,
                ),
            crate::text::opt_text(r.task) == (if session_id@.len() > 0 && old(self)@.contains_key(
                session_id@,
            ) {
                Some(old(self)@[session_id@].task)
            } else {
                None
            }),
            r.changed <==> final(self)@ != old(self)@,
    {
        self.clear_session_task_at(session_id, utc_now())
    }
}

/// A declared task is read back by its session, and no other session's task
/// changes.
pub proof fn a_declared_task_is_read_back(
    tasks: Map<Seq<char>, TaskView>,
    session_id: Seq<char>,
    entry: TaskView,
    other: Seq<char>,
)
    requires
        other != session_id,
    ensures
        tasks.insert(session_id, entry).contains_key(session_id),
        tasks.insert(session_id, entry)[session_id] == entry,
        tasks.insert(session_id, entry).contains_key(other) <==> tasks.contains_key(other),
        tasks.contains_key(other) ==> tasks.insert(session_id, entry)[other] == tasks[other],
{
}

/// Ending a session leaves every other session's task that is not stale.
pub proof fn ending_a_session_keeps_the_others(
    tasks: Map<Seq<char>, TaskView>,
    session_id: Seq<char>,
    now: Timestamp,
    other: Seq<char>,
)
    requires
        other != session_id,
        tasks.contains_key(other),
        declared_after(tasks[other], now.minus(PRUNE_AFTER_SECS as int)),
    ensures
        after_end(tasks, session_id, now).contains_key(other),
        after_end(tasks, session_id, now)[other] == tasks[other],
        !after_end(tasks, session_id, now).contains_key(session_id),
{
}

/// Ending a session twice at one time is ending it once.
pub proof fn ending_a_session_is_idempotent(
    tasks: Map<Seq<char>, TaskView>,
    session_id: Seq<char>,
    now: Timestamp,
)
    ensures
        after_end(after_end(tasks, session_id, now), session_id, now) == after_end(
            tasks,
            session_id,
            now,
        ),
{
    assert(after_end(after_end(tasks, session_id, now), session_id, now) =~= after_end(
        tasks,
        session_id,
        now,
    ));
}

} // verus!
