use engramdb::batches::{
    batch_rows, index_row, unresolved, GuardedChunkWrite, IndexRow, Planned, UpdateReport,
};
use engramdb::error::StorageError;
use engramdb::memory::{Memory, MemoryType, Visibility};
use engramdb::provenance::Provenance;
use engramdb::store::MemoryStore;
use engramdb::time::Timestamp;

fn at(secs: i64) -> Timestamp {
    Timestamp { secs, nanos: 0 }
}

fn memory(id: &str, updated: i64) -> Memory {
    let mut m = Memory::new_at(
        id.to_string(),
        MemoryType::Decision,
        "summary",
        "content",
        Provenance::human(),
        at(1),
    );
    m.updated_at = at(updated);
    m
}

fn read(id: &str, updated: i64) -> (String, Memory) {
    (id.to_string(), memory(id, updated))
}

fn texts(list: &[&str]) -> Vec<String> {
    list.iter().map(|s| s.to_string()).collect()
}

fn told(plan: &[Planned]) -> Vec<String> {
    plan.iter()
        .map(|p| match p {
            Planned::Apply { given, memory } => format!("{given} -> {}", memory.id),
            Planned::Missing { given } => format!("{given} missing"),
        })
        .collect()
}

#[test]
fn update_batch_with_resolves_a_prefix_id() {
    let ids = texts(&["abcdef"]);
    assert_eq!(unresolved(&ids, &[]), vec!["abcdef"]);
    let plan = MemoryStore::update_batch_with(
        &ids,
        vec![],
        vec![("abcdef".to_string(), memory("abcdef012345", 1))],
    );
    assert_eq!(told(&plan), vec!["abcdef -> abcdef012345"]);
}

#[test]
fn update_batch_with_applies_a_duplicated_id_once() {
    let ids = texts(&["dupdupdup1234", "dupdup"]);
    let batch = vec![read("dupdupdup1234", 1)];
    assert_eq!(unresolved(&ids, &batch), vec!["dupdup"]);
    let plan = MemoryStore::update_batch_with(
        &ids,
        batch,
        vec![("dupdup".to_string(), memory("dupdupdup1234", 1))],
    );
    assert_eq!(
        told(&plan),
        vec!["dupdupdup1234 -> dupdupdup1234", "dupdup missing"]
    );
}

#[test]
fn update_batch_with_reports_an_unresolvable_id_by_the_caller_s_spelling() {
    let plan = MemoryStore::update_batch_with(
        &texts(&["realme", "no-such-memory"]),
        vec![],
        vec![("realme".to_string(), memory("realmemory0001", 1))],
    );
    assert_eq!(
        told(&plan),
        vec!["realme -> realmemory0001", "no-such-memory missing"]
    );
}

#[test]
fn a_full_id_given_twice_is_changed_once() {
    let plan = MemoryStore::update_batch_with(
        &texts(&["a", "b", "a"]),
        vec![read("a", 1), read("b", 1), read("a", 1)],
        vec![],
    );
    assert_eq!(told(&plan), vec!["a -> a", "b -> b", "a missing"]);
}

#[test]
fn test_update_with_returns_persisted_memory() {
    let mut edited = memory("a", 1);
    edited.summary = "changed".to_string();
    let written = MemoryStore::update_with(Ok(edited), at(9)).unwrap();
    assert_eq!(written.summary, "changed");
    assert_eq!(written.updated_at, at(9));
}

#[test]
fn test_update_with_closure_error_writes_nothing() {
    assert!(matches!(
        MemoryStore::update_with(Err("no".to_string()), at(9)),
        Err(StorageError::Validation(text)) if text == "no"
    ));
}

#[test]
fn invalidate_with_closes_and_reopens_window() {
    let mut m = memory("a", 1);
    MemoryStore::invalidate_with(&mut m, Some("winner".to_string()), at(50), at(51));
    assert!(m.is_invalidated_at(at(50)));
    assert!(!m.is_active_at(at(50)));
    assert_eq!(m.superseded_by.as_deref(), Some("winner"));
    assert_eq!(m.updated_at, at(51));
    m.invalidated_at = None;
    m.superseded_by = None;
    assert!(m.is_active_at(at(60)));
}

#[test]
fn test_delete_if_predicate_true_deletes() {
    let r = MemoryStore::delete_if(
        Ok("full".to_string()),
        Ok(memory("full", 3)),
        |m: &Memory| m.updated_at == at(3),
    );
    assert!(matches!(r, Ok(Some(id)) if id == "full"));
}

#[test]
fn test_delete_if_predicate_false_keeps_memory() {
    let r = MemoryStore::delete_if(
        Ok("full".to_string()),
        Ok(memory("full", 3)),
        |_: &Memory| false,
    );
    assert!(matches!(r, Ok(None)));
}

#[test]
fn test_delete_if_missing_id_is_skip_not_error() {
    let missing = || StorageError::NotFound("x".to_string());
    let r = MemoryStore::delete_if(Err(missing()), Err(missing()), |_: &Memory| true);
    assert!(matches!(r, Ok(None)));
    let r = MemoryStore::delete_if(
        Err(StorageError::Io("disk".to_string())),
        Err(missing()),
        |_: &Memory| true,
    );
    assert!(matches!(r, Err(StorageError::Io(_))));
}

#[test]
fn test_delete_if_stale_index_entry_is_skip() {
    let r = MemoryStore::delete_if(
        Ok("full".to_string()),
        Err(StorageError::NotFound("full".to_string())),
        |_: &Memory| true,
    );
    assert!(matches!(r, Ok(None)));
}

#[test]
fn a_batch_is_divided_in_the_given_order() {
    let current = vec![read("a", 1), read("b", 9), read("c", 1)];
    let (gone, kept) = MemoryStore::delete_batch_if(
        &texts(&["c", "gone", "b", "a"]),
        &current,
        |m: &Memory| m.updated_at == at(1),
    );
    assert_eq!(gone, vec!["c", "a"]);
    assert_eq!(kept, vec!["gone", "b"]);
}

fn chunks(id: &str, snapshot: i64) -> GuardedChunkWrite<Vec<Vec<f32>>> {
    GuardedChunkWrite {
        memory_id: id.to_string(),
        snapshot_updated_at: at(snapshot),
        chunks: vec![vec![0.5, 0.25]],
        digest: Some(format!("sha-{id}")),
    }
}

#[test]
fn upsert_chunks_batch_skips_only_the_stale_entry() {
    let current = vec![read("a", 1), read("b", 2)];
    let fresh = MemoryStore::upsert_chunks_batch(
        vec![chunks("a", 1), chunks("b", 1), chunks("gone", 1)],
        &current,
    );
    assert_eq!(fresh.len(), 1);
    assert_eq!(fresh[0].memory_id, "a");
    assert_eq!(fresh[0].chunks, vec![vec![0.5f32, 0.25]]);
    assert_eq!(fresh[0].digest.as_deref(), Some("sha-a"));
}

#[test]
fn test_upsert_chunks_if_current_guards_stale_and_deleted() {
    assert!(matches!(
        MemoryStore::upsert_chunks_if_current(Ok(memory("a", 5)), at(5)),
        Ok(true)
    ));
    assert!(matches!(
        MemoryStore::upsert_chunks_if_current(Ok(memory("a", 6)), at(5)),
        Ok(false)
    ));
    assert!(matches!(
        MemoryStore::upsert_chunks_if_current(
            Err(StorageError::NotFound("a".to_string())),
            at(5)
        ),
        Ok(false)
    ));
    assert!(matches!(
        MemoryStore::upsert_chunks_if_current(Err(StorageError::Io("x".to_string())), at(5)),
        Err(StorageError::Io(_))
    ));
}

#[test]
fn create_batch_preserves_has_embedding_for_recreated_memories() {
    let mut personal = memory("b", 1);
    personal.visibility = Visibility::Personal;
    let rows = batch_rows(
        &[memory("a", 1), personal],
        &texts(&["d1", "d2"]),
        &texts(&["b", "z"]),
    );
    assert_eq!(
        rows,
        vec![
            IndexRow {
                id: "a".to_string(),
                visibility: Visibility::Shared,
                digest: "d1".to_string(),
                has_embedding: false,
            },
            IndexRow {
                id: "b".to_string(),
                visibility: Visibility::Personal,
                digest: "d2".to_string(),
                has_embedding: true,
            },
        ]
    );
}

#[test]
fn rows_of_one_id_have_the_digest_of_the_file_that_is_left() {
    let rows = batch_rows(
        &[memory("a", 1), memory("a", 2)],
        &texts(&["first", "second"]),
        &[],
    );
    assert_eq!(rows[0].digest, "second");
    assert_eq!(rows[1].digest, "second");
}

#[test]
fn recreate_preserves_has_embedding() {
    assert!(index_row(&memory("a", 1), "d", true).has_embedding);
    assert!(!index_row(&memory("a", 1), "d", false).has_embedding);
}

#[test]
fn a_report_answers_for_every_id() {
    let ids = texts(&["abc", "gone", "bad", "stuck"]);
    let plan = MemoryStore::update_batch_with(
        &ids,
        vec![read("bad", 1), read("stuck", 1)],
        vec![("abc".to_string(), memory("abcdef", 1))],
    );
    let mut report = UpdateReport::new();
    for planned in plan {
        let Some((given, memory)) = report.take(planned) else {
            continue;
        };
        let id = memory.id.clone();
        let edited = if id == "bad" { Err("no such title".to_string()) } else { Ok(memory) };
        let Some(memory) = report.edited(&given, edited, at(9)) else {
            continue;
        };
        assert_eq!(memory.updated_at, at(9));
        let outcome = if id == "stuck" { Err("disk full".to_string()) } else { Ok(()) };
        report.written(given, id, outcome);
    }
    assert_eq!(report.updated, vec!["abcdef"]);
    let errors: Vec<(&str, &str)> = report
        .errors
        .iter()
        .map(|(id, why)| (id.as_str(), why.as_str()))
        .collect();
    assert_eq!(
        errors,
        vec![("gone", "memory not found"), ("bad", "no such title"), ("stuck", "disk full")]
    );
}
