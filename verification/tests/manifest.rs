use engramdb::error::StorageError;
use engramdb::manifest::{
    project_name, sort_texts, ManifestStats, Missing, Opening, Present, Stamps,
};
use engramdb::normalize::NORMALIZER_STAMP;
use engramdb::path::FilePath;
use engramdb::store::MemoryStore;

const NOTHING: Present = Present {
    manifest: false,
    gitignore: false,
    config: false,
};

fn texts(list: &[&str]) -> Vec<String> {
    list.iter().map(|s| s.to_string()).collect()
}

fn after(m: &Missing, before: Present) -> Present {
    Present {
        manifest: before.manifest || m.manifest.is_some(),
        gitignore: before.gitignore || m.gitignore.is_some(),
        config: before.config || m.config.is_some(),
    }
}

#[test]
fn test_init_creates_structure() {
    let dir = FilePath::parse("/work/my-project");
    let m = MemoryStore::init(&dir, NOTHING);
    assert_eq!(m.manifest.as_deref(), Some("my-project"));
    assert_eq!(
        m.gitignore.as_deref(),
        Some("# Per-machine session bookkeeping — not shared state.\n# `memories/` is deliberately NOT ignored: it is meant to be committed.\nstate/\n")
    );
    assert_eq!(
        m.config.as_deref(),
        Some("# EngramDB configuration\n# See documentation for available settings\n")
    );
}

#[test]
fn test_reinit_preserves_config_and_embedding_fingerprint() {
    let dir = FilePath::parse("/work/my-project");
    let first = MemoryStore::init(&dir, NOTHING);
    let second = MemoryStore::init(&dir, after(&first, NOTHING));
    assert!(second.manifest.is_none());
    assert!(second.gitignore.is_none());
    assert!(second.config.is_none());
    let only_config = Present {
        config: true,
        ..NOTHING
    };
    let m = MemoryStore::init(&dir, only_config);
    assert!(m.config.is_none());
    assert!(m.manifest.is_some());
}

#[test]
fn test_global_init_creates_structure() {
    let m = MemoryStore::init_global(NOTHING);
    assert_eq!(m.manifest.as_deref(), Some("global"));
    assert_eq!(m.gitignore, None);
    assert!(m.config.unwrap().starts_with("# EngramDB global configuration\n"));
}

#[test]
fn a_group_store_describes_itself() {
    let m = MemoryStore::init_group("team", NOTHING);
    assert_eq!(m.manifest.as_deref(), Some("group:team"));
    assert_eq!(m.gitignore, None);
    assert!(m.config.unwrap().starts_with("# EngramDB group configuration\n"));
}

#[test]
fn test_open_uninitialized() {
    assert_eq!(MemoryStore::open(false, false), Err(StorageError::NotInitialized));
    assert_eq!(MemoryStore::open(false, true), Err(StorageError::NotInitialized));
    assert_eq!(MemoryStore::open(true, true), Ok(None));
    let backfilled = MemoryStore::open(true, false).unwrap().unwrap();
    assert!(backfilled.ends_with("\nstate/\n"));
}

#[test]
fn test_global_open_auto_inits() {
    assert_eq!(MemoryStore::open_global(false), Opening::SetUpFirst);
    assert_eq!(MemoryStore::open_global(true), Opening::AsItIs);
    assert_eq!(MemoryStore::open_group(false), Opening::SetUpFirst);
    assert_eq!(MemoryStore::open_group(true), Opening::AsItIs);
}

#[test]
fn a_directory_without_a_name_is_an_unnamed_project() {
    assert_eq!(project_name(&FilePath::parse("/")), "unnamed-project");
    assert_eq!(project_name(&FilePath::parse("..")), "unnamed-project");
    assert_eq!(project_name(&FilePath::parse("/a/b/")), "b");
}

fn stamps(normalizer: Option<&str>) -> Option<Stamps> {
    Some(Stamps {
        schema_version: "1".to_string(),
        normalizer: normalizer.map(str::to_string),
    })
}

#[test]
fn stale_normalizer_stamp_triggers_reindex() {
    assert!(MemoryStore::migrate_schema_if_needed(&stamps(Some("porter-v0")), true));
    assert!(MemoryStore::migrate_schema_if_needed(&stamps(None), true));
    assert!(MemoryStore::migrate_schema_if_needed(&None, true));
    assert!(MemoryStore::migrate_schema_if_needed(
        &stamps(Some(NORMALIZER_STAMP)),
        false
    ));
}

#[test]
fn current_store_does_not_remigrate() {
    assert!(!MemoryStore::migrate_schema_if_needed(
        &stamps(Some(NORMALIZER_STAMP)),
        true
    ));
    let stamped = MemoryStore::stamp("9.9.9");
    assert_eq!(stamped.schema_version, "9.9.9");
    assert!(!MemoryStore::migrate_schema_if_needed(&Some(stamped), true));
}

#[test]
fn create_batch_refreshes_manifest_stats() {
    let old = ManifestStats {
        memory_count: 0,
        logical_scopes: vec![],
    };
    let new =
        MemoryStore::update_manifest_stats(&old, 2, texts(&["b.core", "a.core"])).unwrap();
    assert_eq!(new.memory_count, 2);
    assert_eq!(new.logical_scopes, vec!["a.core", "b.core"]);
    assert_eq!(
        MemoryStore::update_manifest_stats(&new, 2, texts(&["b.core", "a.core"])),
        None
    );
    assert!(MemoryStore::update_manifest_stats(&new, 3, texts(&["b.core", "a.core"])).is_some());
    assert!(MemoryStore::update_manifest_stats(&new, 2, texts(&["a.core"])).is_some());
}

#[test]
fn an_unsorted_record_of_the_same_scopes_still_holds() {
    let old = ManifestStats {
        memory_count: 2,
        logical_scopes: texts(&["b", "a"]),
    };
    assert_eq!(
        MemoryStore::update_manifest_stats(&old, 2, texts(&["a", "b"])),
        None
    );
}

#[test]
fn texts_are_sorted_by_code_point() {
    assert_eq!(
        sort_texts(texts(&["b", "B", "ä", "a", "ab", ""])),
        texts(&["", "B", "a", "ab", "b", "ä"])
    );
}

#[test]
fn a_failure_says_what_failed() {
    assert_eq!(
        StorageError::failure("LanceDB upsert", "disk full"),
        StorageError::Validation("LanceDB upsert failed: disk full".to_string())
    );
}
