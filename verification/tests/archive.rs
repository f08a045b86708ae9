use engramdb::error::StorageError;
use engramdb::time::Timestamp;
use engramdb::transcript_archive::{
    archive_path, archive_session_id, archive_transcript, cutoff_before, export_archive,
    export_archive_bounded, hex_digest, list_archives, prune_archives, total_bytes, ArchiveFile,
    StoredArchive, ZSTD_LEVEL,
};

const DAY: i64 = 86_400;
const NOW: i64 = 1_800_000_000;

fn at(secs: i64) -> Timestamp {
    Timestamp { secs, nanos: 0 }
}

fn transcript(lines: usize) -> Vec<u8> {
    let body: String = (0..lines)
        .map(|i| {
            format!(
                "{{\"type\":\"user\",\"n\":{i},\"pad\":\"{}\"}}\n",
                "x".repeat(200)
            )
        })
        .collect();
    body.into_bytes()
}

fn stored(id: &str, bytes: u64, modified: i64) -> StoredArchive {
    StoredArchive {
        session_id: id.to_string(),
        path: format!("/d/{id}.jsonl.zst"),
        bytes,
        modified: at(modified),
    }
}

fn file(name: &str, bytes: u64, modified: i64) -> ArchiveFile {
    ArchiveFile {
        name: name.to_string(),
        path: format!("/d/{name}"),
        bytes,
        modified: at(modified),
    }
}

#[test]
fn archive_path_rejects_a_traversing_project_id() {
    for hostile in ["../../../../tmp/pwn", "/etc", "a/b", "..", "", "x\u{0}y"] {
        assert!(
            archive_path(hostile, "s1").is_err(),
            "project id {hostile:?} was accepted"
        );
    }
    assert!(archive_path("0123456789abcdef", "s1").is_ok());
    assert!(archive_path("__global__store", "s1").is_ok());
}

#[test]
fn archive_path_rejects_a_traversing_session_id() {
    let e = archive_path("p", "../x").unwrap_err();
    assert_eq!(
        e.message(),
        "invalid session id \"../x\": expected a plain identifier (letters, digits, '-', '_', '.') that is not a path"
    );
    let e = archive_path("a/b", "../x").unwrap_err();
    assert!(e.message().starts_with("invalid project id \"a/b\": "));
}

#[test]
fn archive_roundtrips_and_preserves_bytes() {
    let original = transcript(500);
    let archived = archive_transcript("proj", "s1", &original, at(NOW)).unwrap();
    assert_eq!(archived.reference.original_bytes, original.len() as u64);
    assert!(archived.reference.bytes > 0);
    assert!(
        archived.reference.bytes < archived.reference.original_bytes,
        "archive should be smaller than the source"
    );
    assert_eq!(archived.reference.file_name, "s1.jsonl.zst");
    assert_eq!(archived.reference.archived_at, at(NOW));

    let restored = export_archive("s1", &archived.archive).unwrap();
    assert_eq!(
        restored.sha256, archived.reference.sha256,
        "export must round-trip byte-for-byte"
    );
    assert_eq!(restored.data, original);
}

#[test]
fn the_digest_is_sha256_in_hex() {
    assert_eq!(
        hex_digest(b"abc"),
        "ba7816bf8f01cfea414140de5dae2223b00361a396177a9cb410ff61f20015ad"
    );
}

#[test]
fn re_archiving_overwrites_rather_than_duplicating() {
    let a = archive_transcript("proj", "s1", &transcript(10), at(NOW)).unwrap();
    let b = archive_transcript("proj", "s1", &transcript(10), at(NOW + 1)).unwrap();
    assert!(a.path.same(&b.path));
    assert_eq!(a.archive, b.archive);
}

#[test]
fn only_finished_archives_are_listed_the_oldest_first() {
    let found = list_archives(vec![
        file("b.jsonl.zst", 2, NOW - 10),
        file("s1.tmp123", 9, NOW - 50),
        file("a.jsonl.zst", 1, NOW - 20),
        file("notes.txt", 7, NOW),
    ]);
    let ids: Vec<&str> = found.iter().map(|a| a.session_id.as_str()).collect();
    assert_eq!(ids, vec!["a", "b"]);
    assert_eq!(found[0].path, "/d/a.jsonl.zst");
    assert_eq!(total_bytes(&found), 3);
}

#[test]
fn prune_by_size_evicts_oldest_first() {
    let archives = vec![
        stored("a", 100, NOW - 300),
        stored("b", 100, NOW - 240),
        stored("c", 100, NOW - 180),
    ];
    let total = total_bytes(&archives);
    let outcome = prune_archives(&archives, at(NOW), None, total / 3);
    assert!(!outcome.removed.is_empty());
    assert_eq!(outcome.removed[0], "a", "oldest must be evicted first");
    assert!(outcome.bytes_remaining <= total / 3);
    assert_eq!(outcome.removed, vec!["a", "b"]);
    assert_eq!(outcome.bytes_freed, 200);
    assert_eq!(outcome.bytes_remaining, 100);
}

#[test]
fn prune_by_age_drops_stale_archives() {
    let archives = vec![
        stored("old", 10, NOW - 40 * DAY),
        stored("new", 10, NOW),
    ];
    let outcome = prune_archives(&archives, at(NOW), Some(30), 0);
    assert_eq!(outcome.removed, vec!["old"]);
    assert_eq!(outcome.bytes_remaining, 10);
}

#[test]
fn an_archive_at_the_age_limit_stays() {
    let archives = vec![stored("edge", 10, NOW - 30 * DAY)];
    assert!(prune_archives(&archives, at(NOW), Some(30), 0)
        .removed
        .is_empty());
    let archives = vec![stored("edge", 10, NOW - 30 * DAY - 1)];
    assert_eq!(
        prune_archives(&archives, at(NOW), Some(30), 0).removed,
        vec!["edge"]
    );
}

#[test]
fn dry_run_reports_without_deleting() {
    let archives = vec![stored("s", 50, NOW)];
    let outcome = prune_archives(&archives, at(NOW), None, 1);
    assert_eq!(outcome.removed, vec!["s"]);
    assert!(outcome.bytes_freed > 0);
    assert_eq!(archives.len(), 1, "dry run deleted");
}

#[test]
fn missing_archive_dir_lists_empty() {
    assert!(list_archives(Vec::new()).is_empty());
    assert_eq!(total_bytes(&[]), 0);
}

#[test]
fn export_refuses_a_compression_bomb() {
    let zeros = vec![0u8; 64 * 1024 * 1024];
    let archive = zstd::stream::encode_all(&zeros[..], ZSTD_LEVEL).unwrap();
    assert!(archive.len() < 1024 * 1024, "fixture should be small");

    let err = export_archive_bounded("bomb", &archive, Some(1024)).unwrap_err();
    assert!(err.message().contains("expands past"), "{err:?}");
    assert_eq!(
        err,
        StorageError::Validation(
            "archive for session bomb expands past 66560 bytes; refusing to continue (the stored archive may be corrupt or crafted)"
                .to_string()
        )
    );
}

#[test]
fn an_archive_a_little_over_its_recorded_size_is_restored() {
    let data = vec![7u8; 1024 + 65_536];
    let archive = zstd::stream::encode_all(&data[..], ZSTD_LEVEL).unwrap();
    assert_eq!(
        export_archive_bounded("s", &archive, Some(1024)).unwrap().data,
        data
    );
    assert!(export_archive_bounded("s", &archive, Some(1023)).is_err());
}

#[test]
fn bytes_that_are_no_archive_are_an_outside_failure() {
    assert!(matches!(
        export_archive("s", b"not zstd at all"),
        Err(StorageError::Io(_))
    ));
}

#[test]
fn an_archive_name_gives_back_its_session() {
    assert_eq!(archive_session_id("s1.jsonl.zst").as_deref(), Some("s1"));
    assert_eq!(archive_session_id("s1.jsonl"), None);
    assert_eq!(archive_session_id(".jsonl.zst").as_deref(), Some(""));
}

#[test]
fn a_cutoff_is_a_whole_number_of_days_back() {
    let now = Timestamp { secs: 1_700_000_000, nanos: 5 };
    let cutoff = cutoff_before(now, 30).unwrap();
    assert_eq!(cutoff, Timestamp { secs: 1_700_000_000 - 30 * 86_400, nanos: 5 });
    assert_eq!(cutoff_before(now, 0), Some(now));
}

#[test]
fn a_cutoff_before_the_first_date_is_none() {
    let first = -8_334_601_228_800;
    let day_two = Timestamp { secs: first + 86_400, nanos: 0 };
    assert_eq!(cutoff_before(day_two, 1), Some(Timestamp { secs: first, nanos: 0 }));
    assert_eq!(cutoff_before(day_two, 2), None);
    assert_eq!(cutoff_before(Timestamp { secs: first - 1, nanos: 0 }, 0), None);
    let last = Timestamp { secs: 8_210_266_876_799, nanos: 999_999_999 };
    assert_eq!(cutoff_before(last, 0), Some(last));
    assert_eq!(cutoff_before(Timestamp { secs: last.secs + 1, nanos: 0 }, 0), None);
    for days in [110_000_000_000, i64::MAX as u64, i64::MAX as u64 + 1, u64::MAX] {
        assert_eq!(cutoff_before(day_two, days), None);
    }
}
