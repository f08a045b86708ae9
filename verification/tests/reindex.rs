use engramdb::memory::{Memory, MemoryType, Visibility};
use engramdb::path::FilePath;
use engramdb::provenance::Provenance;
use engramdb::reindex::{settle_duplicates, ParsedFile};
use engramdb::store::MemoryStore;
use engramdb::time::Timestamp;

fn at(secs: i64) -> Timestamp {
    Timestamp { secs, nanos: 0 }
}

fn parsed(path: &str, id: &str, secs: i64) -> ParsedFile {
    ParsedFile {
        path: FilePath::parse(path),
        modified: at(secs),
        memory: Memory::new_at(
            id.to_string(),
            MemoryType::Decision,
            path,
            "content",
            Provenance::human(),
            at(1),
        ),
        digest: format!("sha of {path}"),
    }
}

fn texts(list: &[&str]) -> Vec<String> {
    list.iter().map(|s| s.to_string()).collect()
}

#[test]
fn test_reindex_dedupes_and_removes_stale_duplicate() {
    let id = "eeee1111-2222-3333-4444-555566667777";
    let r = MemoryStore::reindex(
        vec![parsed("/new.md", id, 3700), parsed("/old.md", id, 100)],
        vec![],
        &[],
        false,
    );
    assert_eq!(r.rows.len(), 1, "duplicate files for one id must index once");
    assert_eq!(r.rows[0].id, id);
    assert_eq!(r.rows[0].digest, "sha of /new.md");
    assert_eq!(r.stale.len(), 1);
    assert!(r.stale[0].same(&FilePath::parse("/old.md")));
}

#[test]
fn content_digest_follows_winner_of_duplicate_id_resolution() {
    for flip in [false, true] {
        let mut files = vec![parsed("/a.md", "x", 5), parsed("/b.md", "x", 5)];
        if flip {
            files.reverse();
        }
        let settled = settle_duplicates(files);
        assert_eq!(settled.kept.len(), 1);
        assert_eq!(settled.kept[0].digest, "sha of /b.md");
        assert!(settled.stale[0].same(&FilePath::parse("/a.md")));
    }
}

#[test]
fn three_files_of_one_memory_leave_one() {
    let settled = settle_duplicates(vec![
        parsed("/1.md", "x", 3),
        parsed("/y.md", "y", 1),
        parsed("/2.md", "x", 9),
        parsed("/3.md", "x", 5),
    ]);
    let kept: Vec<&str> = settled
        .kept
        .iter()
        .map(|f| f.memory.summary.as_str())
        .collect();
    assert_eq!(kept, vec!["/y.md", "/2.md"]);
    assert_eq!(settled.stale.len(), 2);
    let again = settle_duplicates(settled.kept);
    assert_eq!(again.kept.len(), 2);
    assert!(again.stale.is_empty());
}

#[test]
fn test_reindex_rebuilds_from_files() {
    let r = MemoryStore::reindex(
        vec![parsed("/a.md", "a", 1)],
        vec![parsed("/b.md", "b", 1), parsed("/c.md", "a", 1)],
        &texts(&["b"]),
        false,
    );
    assert!(r.clear);
    let rows: Vec<(&str, Visibility, bool)> = r
        .rows
        .iter()
        .map(|x| (x.id.as_str(), x.visibility, x.has_embedding))
        .collect();
    assert_eq!(
        rows,
        vec![
            ("a", Visibility::Shared, false),
            ("b", Visibility::Personal, true),
            ("a", Visibility::Personal, false),
        ]
    );
    assert!(r.orphans.is_empty());
}

#[test]
fn test_reindex_preserves_chunks_and_prunes_orphans() {
    let r = MemoryStore::reindex(
        vec![parsed("/a.md", "a", 1)],
        vec![],
        &texts(&["gone", "a"]),
        false,
    );
    assert_eq!(r.orphans, vec!["gone"]);
    assert!(r.rows[0].has_embedding);
}

#[test]
fn test_reindex_from_second_clone_preserves_other_checkouts_data() {
    let r = MemoryStore::reindex(
        vec![parsed("/a.md", "a", 1)],
        vec![],
        &texts(&["theirs"]),
        true,
    );
    assert!(!r.clear);
    assert!(r.orphans.is_empty());
    assert_eq!(r.rows.len(), 1);
}

#[test]
fn a_schema_reset_clears_the_table_but_no_vectors_of_another_checkout() {
    let r = MemoryStore::reindex_with(vec![], vec![], &texts(&["theirs"]), true, true);
    assert!(r.clear);
    assert!(r.orphans.is_empty());
    let r = MemoryStore::reindex_with(vec![], vec![], &texts(&["ours"]), false, true);
    assert!(r.clear);
    assert_eq!(r.orphans, vec!["ours"]);
}
