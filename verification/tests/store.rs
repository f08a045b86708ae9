use engramdb::error::StorageError;
use engramdb::memory::Visibility;
use engramdb::path::FilePath;
use engramdb::store::{
    count_md_files, current_file, falls_through, find_memory_files, newest_by_mtime,
    prefers_newer, resolve_full_id, staleness_message, MemoryFile, MemoryStore,
};
use engramdb::time::Timestamp;

fn at(secs: i64) -> Timestamp {
    Timestamp { secs, nanos: 0 }
}

fn file(path: &str, id: &str, secs: i64) -> MemoryFile {
    MemoryFile {
        path: FilePath::parse(path),
        id: id.to_string(),
        modified: at(secs),
    }
}

fn store(shared: Vec<MemoryFile>, personal: Vec<MemoryFile>) -> MemoryStore {
    MemoryStore {
        project_dir: FilePath::parse("/p"),
        project_id: "0123456789abcdef".to_string(),
        shared,
        personal,
    }
}

fn is(path: &FilePath, text: &str) -> bool {
    path.same(&FilePath::parse(text))
}

fn texts(list: &[&str]) -> Vec<String> {
    list.iter().map(|s| s.to_string()).collect()
}

#[test]
fn prefers_newer_breaks_mtime_ties_deterministically() {
    let t = at(1000);
    let a = FilePath::parse("aaa_id.md");
    let b = FilePath::parse("bbb_id.md");

    let newer = at(1001);
    assert!(prefers_newer((newer, &a), (t, &b)));
    assert!(!prefers_newer((t, &b), (newer, &a)));

    assert!(prefers_newer((t, &b), (t, &a)), "bbb should win the tie");
    assert!(
        !prefers_newer((t, &a), (t, &b)),
        "aaa must lose the tie regardless of argument order"
    );
}

#[test]
fn staleness_message_reports_real_drift_without_conflict() {
    assert!(staleness_message(3, 5, false).is_some());
    assert!(staleness_message(5, 5, false).is_none());
}

#[test]
fn staleness_message_suppressed_under_checkout_conflict() {
    assert!(
        staleness_message(3, 5, true).is_none(),
        "must not warn about staleness during a checkout conflict"
    );
}

#[test]
fn staleness_message_names_both_counts() {
    assert_eq!(
        staleness_message(3, 15, false).unwrap(),
        "Index may be stale (3 memories on disk, 15 indexed). Run 'engramdb reindex' to rebuild."
    );
}

#[test]
fn the_newest_file_is_found_in_any_order() {
    let files = vec![
        file("/d/a.md", "x", 5),
        file("/d/c.md", "x", 9),
        file("/d/b.md", "x", 9),
    ];
    assert_eq!(newest_by_mtime(&files), 1);
    let files = vec![
        file("/d/c.md", "x", 9),
        file("/d/b.md", "x", 9),
        file("/d/a.md", "x", 5),
    ];
    assert_eq!(newest_by_mtime(&files), 0);
}

#[test]
fn test_get_prefix_matching() {
    let s = store(
        vec![file(
            "/d/abcd1234-5678-90ab-cdef-1234567890ab.md",
            "abcd1234-5678-90ab-cdef-1234567890ab",
            1,
        )],
        vec![],
    );
    for id in ["abcd1234", "abcd", "abcd1234-5678-90ab-cdef-1234567890ab"] {
        let path = s.get(id).unwrap();
        assert!(is(&path, "/d/abcd1234-5678-90ab-cdef-1234567890ab.md"));
    }
}

#[test]
fn test_get_ambiguous_prefix() {
    let first = "aaaa1111-0000-0000-0000-000000000001";
    let second = "aaaa2222-0000-0000-0000-000000000002";
    let s = store(
        vec![file("/d/1.md", first, 1), file("/d/2.md", second, 1)],
        vec![],
    );
    assert!(s.get(first).is_ok());
    assert!(s.get(second).is_ok());
    assert!(s.get("aaaa1111").is_ok());
    assert!(s.get("aaaa2222").is_ok());
    match s.get("aaaa") {
        Err(StorageError::Validation(msg)) => {
            assert!(msg.contains("Ambiguous"));
            assert!(msg.contains("2 memories"));
            assert_eq!(msg, "Ambiguous ID prefix 'aaaa': matches 2 memories");
        }
        other => panic!(
            "Expected Validation error for ambiguous prefix, got: {:?}",
            other
        ),
    }
}

#[test]
fn test_get_not_found() {
    match store(vec![], vec![]).get("nonexistent-id") {
        Err(StorageError::NotFound(id)) => {
            assert_eq!(id, "nonexistent-id");
        }
        _ => panic!("Expected NotFound error"),
    }
}

#[test]
fn an_exact_id_beats_longer_ones() {
    let files = vec![
        file("/d/1.md", "abc", 1),
        file("/d/2.md", "abcd", 2),
        file("/d/3.md", "abc", 3),
    ];
    let found = find_memory_files(&files, "abc").unwrap();
    assert_eq!(found.len(), 2);
    assert!(found.iter().all(|f| f.id == "abc"));
    assert!(is(&current_file(&files, "abc").unwrap(), "/d/3.md"));
    assert!(find_memory_files(&files, "ab").is_err());
}

#[test]
fn the_personal_directory_answers_only_for_what_the_shared_one_misses() {
    let s = store(
        vec![file("/s/x.md", "xx", 1)],
        vec![file("/p/x.md", "xx", 9), file("/p/y.md", "yy", 1)],
    );
    assert!(is(&s.get("xx").unwrap(), "/s/x.md"));
    assert!(is(&s.get("yy").unwrap(), "/p/y.md"));
    assert!(falls_through::<u8>(&Err(StorageError::NotFound("i".to_string()))));
    assert!(!falls_through::<u8>(&Err(StorageError::Io("e".to_string()))));
    assert!(!falls_through(&Ok(1u8)));
}

#[test]
fn test_stale_duplicate_resolves_to_newest_and_delete_sweeps_both() {
    let id = "cccc1111-2222-3333-4444-555566667777";
    let s = store(
        vec![
            file("/d/old-title_c.md", id, 100),
            file("/d/new-title_c.md", id, 3700),
        ],
        vec![],
    );
    assert!(is(&s.get(id).unwrap(), "/d/new-title_c.md"));

    let batch = s.get_batch(&texts(&[id]));
    assert_eq!(batch.len(), 1);
    assert!(is(&batch[0].1, "/d/new-title_c.md"));

    assert_eq!(s.delete(id).unwrap().len(), 2);
}

#[test]
fn test_get_batch_returns_all() {
    let s = store(
        vec![file("/s/1.md", "one", 1), file("/s/2.md", "two", 1)],
        vec![file("/p/3.md", "three", 1)],
    );
    let found = s.get_batch(&texts(&["three", "one", "two"]));
    let ids: Vec<&str> = found.iter().map(|(id, _)| id.as_str()).collect();
    assert_eq!(ids, vec!["three", "one", "two"]);
}

#[test]
fn test_get_batch_skips_missing() {
    let s = store(vec![file("/s/1.md", "one", 1)], vec![]);
    let found = s.get_batch(&texts(&["none", "one", "on"]));
    assert_eq!(found.len(), 1);
    assert_eq!(found[0].0, "one");
}

#[test]
fn a_batch_reads_shared_files_first_and_markdown_only() {
    let s = store(
        vec![file("/s/x.md", "xx", 1), file("/s/y.txt", "yy", 5)],
        vec![file("/p/x.md", "xx", 9), file("/p/y.md", "yy", 1)],
    );
    let found = s.get_batch(&texts(&["xx", "yy"]));
    assert!(is(&found[0].1, "/s/x.md"));
    assert!(is(&found[1].1, "/p/y.md"));
}

#[test]
fn of_files_modified_at_once_every_read_takes_the_greater_path() {
    let z = || file("/s/z.md", "xx", 5);
    let a = || file("/s/a.md", "xx", 5);
    for shared in [vec![z(), a()], vec![a(), z()]] {
        let s = store(shared, vec![]);
        assert!(is(&s.get_batch(&texts(&["xx"]))[0].1, "/s/z.md"));
        assert!(is(&s.get("xx").unwrap(), "/s/z.md"));
    }
}

#[test]
fn test_batch_exists_all_present() {
    let s = store(
        vec![file("/s/1.md", "one", 1)],
        vec![file("/p/2.md", "two", 1)],
    );
    let mut found = s.batch_exists(&texts(&["two", "one", "two"]));
    found.sort();
    assert_eq!(found, vec!["one", "two"]);
}

#[test]
fn test_batch_exists_some_missing() {
    let s = store(
        vec![file("/s/1.md", "one", 1), file("/s/x.tmp", "tmp", 1)],
        vec![],
    );
    assert_eq!(s.batch_exists(&texts(&["one", "on", "tmp"])), vec!["one"]);
    assert!(s.batch_exists(&[]).is_empty());
}

#[test]
fn test_check_staleness_in_sync() {
    let s = store(
        vec![file("/s/1.md", "one", 1), file("/s/x.txt", "x", 1)],
        vec![file("/p/2.md", "two", 1)],
    );
    assert_eq!(count_md_files(&s.shared), 1);
    assert_eq!(s.check_staleness(2, false), None);
}

#[test]
fn test_check_staleness_detects_mismatch() {
    let s = store(vec![file("/s/1.md", "one", 1)], vec![]);
    assert!(s.check_staleness(0, false).unwrap().contains("1 memories on disk, 0 indexed"));
    assert_eq!(s.check_staleness(0, true), None);
}

#[test]
fn markdown_files_are_told_by_their_extension() {
    for (name, md) in [
        ("a.md", true),
        ("a.b.md", true),
        (".md", false),
        ("md", false),
        ("a.MD", false),
        ("..md", true),
        ("a.md.tmp", false),
    ] {
        assert_eq!(FilePath::parse(name).is_markdown(), md, "{name}");
    }
    assert!(!FilePath::parse("/").is_markdown());
}

#[test]
fn index_ids_resolve_like_file_ids() {
    assert_eq!(
        resolve_full_id(&[], "a"),
        Err(StorageError::NotFound("a".to_string()))
    );
    assert_eq!(resolve_full_id(&texts(&["abc"]), "a"), Ok("abc".to_string()));
    assert_eq!(
        resolve_full_id(&texts(&["abc", "abcd"]), "abc"),
        Ok("abc".to_string())
    );
    assert_eq!(
        resolve_full_id(&texts(&["abc", "abd", "abe"]), "ab"),
        Err(StorageError::Validation(
            "Ambiguous ID prefix 'ab': matches 3 memories".to_string()
        ))
    );
}

#[test]
fn shared_memories_lie_in_the_project() {
    let s = store(vec![], vec![]);
    let home = FilePath::parse("/home/u/data/personal");
    assert!(is(
        &s.get_memories_dir(Visibility::Shared, &home),
        "/p/.engramdb/memories"
    ));
    assert!(is(
        &s.get_memories_dir(Visibility::Personal, &home),
        "/home/u/data/personal"
    ));
}

#[test]
fn the_store_of_all_projects_has_no_other_checkout() {
    let mut s = store(vec![], vec![]);
    let other = || Some(FilePath::parse("/other/clone"));
    assert!(s.checkout_conflict("__global__", other()).is_some());
    assert!(s.checkout_conflict("__global__", None).is_none());
    s.project_id = "__global__".to_string();
    assert!(s.is_global("__global__"));
    assert!(s.checkout_conflict("__global__", other()).is_none());
    assert!(s.is_group(|id: &String| id.starts_with("__")));
}
