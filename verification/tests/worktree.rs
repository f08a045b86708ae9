use engramdb::memory::{Memory, MemoryType};
use engramdb::path::FilePath;
use engramdb::provenance::Provenance;
use engramdb::time::Timestamp;
use engramdb::worktree::{
    consolidate_worktree_into_main, may_remove_stray_store, migrate_dir, relocate,
    resolve_project_root, Consolidation, Stray,
};

fn at(secs: i64) -> Timestamp {
    Timestamp { secs, nanos: 0 }
}

fn memory(id: &str, updated: i64) -> Memory {
    let mut m = Memory::new_at(
        id.to_string(),
        MemoryType::Decision,
        "s",
        "c",
        Provenance::human(),
        at(1),
    );
    m.updated_at = at(updated);
    m
}

fn stray(id: &str, updated: i64) -> Stray {
    Stray {
        path: FilePath::parse(&format!("/wt/{id}.md")),
        memory: memory(id, updated),
    }
}

fn main_copy(id: &str, updated: i64) -> (String, Memory) {
    (id.to_string(), memory(id, updated))
}

#[test]
fn the_newest_copy_wins() {
    let m = migrate_dir(
        vec![stray("new", 5), stray("older", 5), stray("same", 5), stray("newer", 5)],
        &[main_copy("older", 6), main_copy("same", 5), main_copy("newer", 4)],
    );
    let moved: Vec<&str> = m.to_migrate.iter().map(|s| s.memory.id.as_str()).collect();
    assert_eq!(moved, vec!["new", "same", "newer"]);
    assert_eq!(m.dropped.len(), 1);
    assert!(m.dropped[0].same(&FilePath::parse("/wt/older.md")));
}

#[test]
fn vectors_move_along_once() {
    let strays = vec![stray("a", 5), stray("b", 6), stray("a", 7), stray("c", 8)];
    let moved = relocate(
        &strays,
        vec![
            ("a".to_string(), vec![vec![1.5f32]]),
            ("c".to_string(), vec![]),
            ("other".to_string(), vec![vec![2.5f32]]),
        ],
    );
    assert_eq!(moved.len(), 1);
    assert_eq!(moved[0].memory_id, "a");
    assert_eq!(moved[0].snapshot_updated_at, at(5));
    assert_eq!(moved[0].chunks, vec![vec![1.5f32]]);
    assert_eq!(moved[0].digest, None);
}

#[test]
fn one_project_is_never_consolidated_into_itself() {
    assert_eq!(
        consolidate_worktree_into_main("x", "x", true, true),
        Consolidation::SameProject
    );
    assert_eq!(
        consolidate_worktree_into_main("x", "y", true, true),
        Consolidation::Migrate
    );
    assert_eq!(
        consolidate_worktree_into_main("x", "y", true, false),
        Consolidation::ReclaimOnly
    );
    assert_eq!(
        consolidate_worktree_into_main("x", "y", false, true),
        Consolidation::ReclaimOnly
    );
}

#[test]
fn consolidate_mixed_batch_drops_only_the_stale_entries() {
    let stale = ["stale-0", "stale-1"];
    let fresh = ["fresh-0", "fresh-1", "fresh-2"];
    let strays = stale.iter().chain(&fresh).map(|id| stray(id, 5)).collect();
    let existing: Vec<(String, Memory)> = stale.iter().map(|id| main_copy(id, 9)).collect();
    let m = migrate_dir(strays, &existing);
    let moved: Vec<&str> = m.to_migrate.iter().map(|s| s.memory.id.as_str()).collect();
    assert_eq!(moved, fresh);
    assert_eq!(m.dropped.len(), 2);
    let chunks = fresh
        .iter()
        .map(|id| (id.to_string(), vec![vec![0.25f32; 384]]))
        .collect();
    let relocated = relocate(&m.to_migrate, chunks);
    assert_eq!(relocated.len(), 3);
    for (w, id) in relocated.iter().zip(fresh) {
        assert_eq!(w.memory_id, id);
        assert_eq!(w.chunks, vec![vec![0.25f32; 384]]);
    }
}

#[test]
fn consolidate_is_noop_without_stray_store() {
    assert_eq!(
        consolidate_worktree_into_main("wt", "main", false, true),
        Consolidation::ReclaimOnly
    );
    let m = migrate_dir(vec![], &[main_copy("a", 1)]);
    assert!(m.to_migrate.is_empty() && m.dropped.is_empty());
}

#[test]
fn a_corrupt_stray_file_is_not_deleted_with_the_store() {
    assert!(may_remove_stray_store(0, true));
    assert!(!may_remove_stray_store(1, true));
}

#[test]
fn a_ledger_that_cannot_be_folded_keeps_the_worktree_store() {
    assert!(!may_remove_stray_store(0, false));
}

#[test]
fn resolve_project_root_returns_dir_for_non_worktree() {
    let dir = FilePath::parse("/plain");
    let r = resolve_project_root(&dir, None, "c", "c");
    assert!(r.root.same(&dir));
    assert!(!r.set_up && !r.consolidate && !r.register);
}

#[test]
fn a_worktree_resolves_to_its_main_checkout() {
    let dir = FilePath::parse("/wt");
    let r = resolve_project_root(&dir, None, "c", "c");
    assert!(r.root.same(&dir));
    assert!(!r.set_up && !r.consolidate && !r.register);

    let main = || FilePath::parse("/main");
    let r = resolve_project_root(&dir, Some((main(), false)), "c", "p");
    assert!(r.root.same(&main()));
    assert!(r.set_up && r.consolidate && r.register);

    let r = resolve_project_root(&dir, Some((main(), true)), "p", "p");
    assert!(!r.set_up && r.consolidate && !r.register);
}
