//! Bringing the memories of a linked worktree into its main project.
//!
//! A linked worktree shares its code with the main checkout, and is to share
//! its memories too. What was written under the worktree's own store moves to
//! the main one.

use crate::batches::{is_last, last_by_id, last_of, was_read, GuardedChunkWrite};
use crate::memory::Memory;
use crate::path::FilePath;
use crate::seqs::reversed;
use crate::text::same_text;
use vstd::prelude::*;

verus! {

broadcast use vstd::string::group_string_axioms;

/// A memory file under a worktree's own store.
#[derive(Debug)]
pub struct Stray {
    pub path: FilePath,
    pub memory: Memory,
}

/// Whether the main store has a strictly newer copy of a memory.
pub open spec fn outdated(existing: Seq<(String, Memory)>, stray: Stray) -> bool {
    was_read(existing, stray.memory.id@) && stray.memory.updated_at.before(
        last_of(existing, stray.memory.id@).updated_at,
    )
}

/// What becomes of stray files.
#[derive(Debug)]
pub struct Migration {
    /// Files that are removed: the main store has something newer.
    pub dropped: Vec<FilePath>,
    /// Files whose memories move to the main store.
    pub to_migrate: Vec<Stray>,
}

/// Sorts out stray files against the copies that the main store has. Of equally
/// old copies the stray one moves: its vectors may not have been moved yet, and
/// moving it again changes nothing else.
pub fn migrate_dir(strays: Vec<Stray>, existing: &[(String, Memory)]) -> (r: Migration)
    ensures
        r.to_migrate@ == strays@.filter(|s: Stray| !outdated(existing@, s)),
        crate::reindex::path_views(r.dropped@) == strays@.filter(
            |s: Stray| outdated(existing@, s),
        ).map_values(|s: Stray| s.path@),
{
    let ghost all = strays@;
    let ghost stays = |s: Stray| !outdated(existing@, s);
    let ghost goes = |s: Stray| outdated(existing@, s);
    let ghost place = |s: Stray| s.path@;
    let map = last_by_id(existing);
    let mut rest = reversed(strays);
    let mut dropped: Vec<FilePath> = Vec::new();
    let mut to_migrate: Vec<Stray> = Vec::new();
    let ghost mut done: int = 0;
    proof {
        crate::seqs::lemma_filter_ends(all, stays);
        crate::seqs::lemma_filter_ends(all, goes);
        assert(crate::reindex::path_views(dropped@) =~= all.take(0).filter(goes).map_values(
            place,
        ));
    }
    while rest.len() > 0
        invariant
            0 <= done <= all.len(),
            rest@.len() == all.len() - done,
            forall|j: int| 0 <= j < rest@.len() ==> #[trigger] rest@[j] == all[all.len() - 1 - j],
            stays == (|s: Stray| !outdated(existing@, s)),
            goes == (|s: Stray| outdated(existing@, s)),
            place == (|s: Stray| s.path@),
            forall|id: Seq<char>| #[trigger]
                map@.contains_key(id) ==> is_last(existing@, id, map@[id] as int),
            forall|id: Seq<char>| #[trigger] was_read(existing@, id) ==> map@.contains_key(id),
            to_migrate@ == all.take(done).filter(stays),
            crate::reindex::path_views(dropped@) == all.take(done).filter(goes).map_values(place),
        decreases rest.len(),
    {
        assert(rest@[rest@.len() - 1] == all[done]);
        proof {
            crate::seqs::lemma_filter_take(all, done, stays);
            crate::seqs::lemma_filter_take(all, done, goes);
        }
        match rest.pop() {
            Some(stray) => {
                let old = match map.get(stray.memory.id.as_str()) {
                    Some(k) => {
                        proof {
                            crate::batches::lemma_last_is_unique(
                                existing@,
                                stray.memory.id@,
                                *k as int,
                            );
                        }
                        stray.memory.updated_at.is_before(&existing[*k].1.updated_at)
                    },
                    None => false,
                };
                assert(old == outdated(existing@, stray));
                if old {
                    let ghost before = all.take(done).filter(goes);
                    let ghost listed = crate::reindex::path_views(dropped@);
                    dropped.push(stray.path);
                    proof {
                        assert(crate::reindex::path_views(dropped@) =~= listed.push(stray.path@));
                        assert(before.push(stray).map_values(place) =~= before.map_values(
                            place,
                        ).push(stray.path@));
                    }
                } else {
                    to_migrate.push(stray);
                }
            },
            None => {},
        }
        proof {
            done = done + 1;
        }
    }
    proof {
        crate::seqs::lemma_filter_ends(all, stays);
        crate::seqs::lemma_filter_ends(all, goes);
    }
    Migration { dropped, to_migrate }
}

/// Every stray file moves or is removed, and one that is removed has a strictly
/// newer copy in the main store: what is left there is never older than what
/// was found.
pub proof fn consolidation_keeps_the_newest(
    strays: Seq<Stray>,
    existing: Seq<(String, Memory)>,
    i: int,
)
    requires
        0 <= i < strays.len(),
    ensures
        strays.filter(|s: Stray| !outdated(existing, s)).contains(strays[i]) || (was_read(
            existing,
            strays[i].memory.id@,
        ) && strays[i].memory.updated_at.before(
            last_of(existing, strays[i].memory.id@).updated_at,
        )),
{
    assert(strays.contains(strays[i]));
    crate::seqs::lemma_filter_contains(strays, |s: Stray| !outdated(existing, s), strays[i]);
}

/// Whether the stray at `i` takes vectors along: some are stored for its
/// memory, and no earlier stray took them.
pub open spec fn takes_vectors<T>(
    strays: Seq<Stray>,
    chunks: Seq<(String, Vec<T>)>,
    i: int,
) -> bool {
    &&& was_read(chunks, strays[i].memory.id@)
    &&& last_of(chunks, strays[i].memory.id@)@.len() > 0
    &&& forall|j: int|
        0 <= j < i ==> (#[trigger] strays[j]).memory.id@ != strays[i].memory.id@
}

/// The places of the strays that take vectors along.
pub open spec fn places<T>(strays: Seq<Stray>, chunks: Seq<(String, Vec<T>)>, n: int) -> Seq<int>
    decreases n,
{
    if n <= 0 {
        Seq::empty()
    } else {
        let before = places(strays, chunks, n - 1);
        if takes_vectors(strays, chunks, n - 1) {
            before.push(n - 1)
        } else {
            before
        }
    }
}

/// Whether an entry moves the vectors of a stray's memory, on the condition
/// that the memory stays as it was moved.
pub open spec fn moves<T>(
    entry: GuardedChunkWrite<Vec<T>>,
    stray: Stray,
    chunks: Seq<(String, Vec<T>)>,
) -> bool {
    &&& entry.memory_id@ == stray.memory.id@
    &&& entry.snapshot_updated_at == stray.memory.updated_at
    &&& entry.chunks@ == last_of(chunks, stray.memory.id@)@
    &&& entry.digest is None
}

/// The vectors that move along with migrated memories, out of those that the
/// worktree's store has. Nothing is recorded of what they were computed from.
pub fn relocate<T>(strays: &[Stray], chunks: Vec<(String, Vec<T>)>) -> (r: Vec<
    GuardedChunkWrite<Vec<T>>,
>)
    ensures
        ({
            let at = places(strays@, chunks@, strays@.len() as int);
            &&& r@.len() == at.len()
            &&& forall|k: int|
                0 <= k < r@.len() ==> moves(#[trigger] r@[k], strays@[at[k]], chunks@)
        }),
{
    let ghost all = chunks@;
    let map = last_by_id(chunks.as_slice());
    let mut left = chunks;
    let mut out: Vec<GuardedChunkWrite<Vec<T>>> = Vec::new();
    let mut i: usize = 0;
    while i < strays.len()
        invariant
            i <= strays.len(),
            left@.len() == all.len(),
            forall|id: Seq<char>| #[trigger]
                map@.contains_key(id) ==> is_last(all, id, map@[id] as int),
            forall|id: Seq<char>| #[trigger] was_read(all, id) ==> map@.contains_key(id),
            forall|id: Seq<char>| #[trigger]
                map@.contains_key(id) ==> ({
                    let taken = exists|j: int|
                        0 <= j < i && (#[trigger] strays@[j]).memory.id@ == id;
                    left@[map@[id] as int].1@ == (if taken {
                        Seq::empty()
                    } else {
                        all[map@[id] as int].1@
                    })
                }),
            out@.len() == places(strays@, all, i as int).len(),
            forall|k: int|
                0 <= k < out@.len() ==> moves(
                    #[trigger] out@[k],
                    strays@[places(strays@, all, i as int)[k]],
                    all,
                ),
        decreases strays.len() - i,
    {
        let ghost id = strays@[i as int].memory.id@;
        let ghost before = left@;
        let mut taken: Vec<T> = Vec::new();
        let slot: Option<usize> = match map.get(strays[i].memory.id.as_str()) {
            Some(k) => Some(*k),
            None => None,
        };
        match slot {
            Some(k) => {
                proof {
                    crate::batches::lemma_last_is_unique(all, id, k as int);
                }
                let mut pair: (String, Vec<T>) = (String::new(), Vec::new());
                std::mem::swap(&mut pair, &mut left[k]);
                taken = pair.1;
            },
            None => {},
        }
        assert(takes_vectors(strays@, all, i as int) == (taken@.len() > 0));
        if taken.len() > 0 {
            out.push(
                GuardedChunkWrite {
                    memory_id: strays[i].memory.id.clone(),
                    snapshot_updated_at: strays[i].memory.updated_at,
                    chunks: taken,
                    digest: None,
                },
            );
        }
        proof {
            assert forall|x: Seq<char>| #[trigger] map@.contains_key(x) implies ({
                let taken = exists|j: int|
                    0 <= j < i + 1 && (#[trigger] strays@[j]).memory.id@ == x;
                left@[map@[x] as int].1@ == (if taken {
                    Seq::empty()
                } else {
                    all[map@[x] as int].1@
                })
            }) by {
                assert(all[map@[x] as int].0@ == x);
                if x == id {
                    assert(strays@[i as int].memory.id@ == x);
                    assert(left@[map@[x] as int].1@ =~= Seq::empty());
                } else {
                    assert(left@[map@[x] as int] == before[map@[x] as int]);
                    assert((exists|j: int|
                        0 <= j < i + 1 && (#[trigger] strays@[j]).memory.id@ == x) == (exists|
                        j: int,
                    |
                        0 <= j < i && (#[trigger] strays@[j]).memory.id@ == x));
                }
            }
        }
        i += 1;
    }
    out
}

// ---------------------------------------------------------------------------
// Decisions
// ---------------------------------------------------------------------------

/// What consolidating a worktree comes to.
#[derive(Debug, Clone, Copy, PartialEq, Eq, Structural)]
pub enum Consolidation {
    /// Nothing: the two are one project, and its store is not to be touched.
    SameProject,
    /// The worktree's memories move to the main store; then what is left of
    /// its data is reclaimed.
    Migrate,
    /// There is nothing to move, or nowhere to move it: only what is left of
    /// the worktree's data is reclaimed.
    ReclaimOnly,
}

/// What consolidating a worktree comes to, by the ids of the two projects and
/// by whether each has a store.
pub fn consolidate_worktree_into_main(
    worktree_id: &str,
    main_id: &str,
    worktree_has_store: bool,
    main_has_store: bool,
) -> (r: Consolidation)
    ensures
        r == (if worktree_id@ == main_id@ {
            Consolidation::SameProject
        } else if worktree_has_store && main_has_store {
            Consolidation::Migrate
        } else {
            Consolidation::ReclaimOnly
        }),
{
    if same_text(worktree_id, main_id) {
        Consolidation::SameProject
    } else if worktree_has_store && main_has_store {
        Consolidation::Migrate
    } else {
        Consolidation::ReclaimOnly
    }
}

/// Whether the store of a consolidated worktree may be removed: only where it
/// holds nothing that exists nowhere else, neither files that could not be read
/// nor a review record that was not taken over.
pub fn may_remove_stray_store(stranded_shared: usize, ledger_adopted: bool) -> (r: bool)
    ensures
        r == (stranded_shared == 0 && ledger_adopted),
{
    stranded_shared == 0 && ledger_adopted
}

/// Which directory owns the memories of another one, and what has to be done
/// first.
#[derive(Debug)]
pub struct Resolution {
    /// The directory whose store is used.
    pub root: FilePath,
    /// Whether that store has to be set up.
    pub set_up: bool,
    /// Whether the memories of the directory asked about have to be moved there.
    pub consolidate: bool,
    /// Whether the directory asked about has to be registered as part of it.
    pub register: bool,
}

/// Which directory owns the memories of `dir`. `main` is the main checkout
/// where `dir` is a linked worktree, with whether it has a store, and the ids
/// are those of the two projects.
pub fn resolve_project_root(
    dir: &FilePath,
    main: Option<(FilePath, bool)>,
    child_id: &str,
    parent_id: &str,
) -> (r: Resolution)
    ensures
        match main {
            None => r.root@ == dir@ && !r.set_up && !r.consolidate && !r.register,
            Some(m) => r.root@ == m.0@ && r.set_up == !m.1 && r.consolidate && r.register == (
            child_id@ != parent_id@),
        },
{
    match main {
        None => Resolution {
            root: dir.copied(),
            set_up: false,
            consolidate: false,
            register: false,
        },
        Some((root, has_store)) => Resolution {
            root,
            set_up: !has_store,
            consolidate: true,
            register: !same_text(child_id, parent_id),
        },
    }
}

} // verus!
