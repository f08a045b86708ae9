use engramdb::error::StorageError;
use engramdb::memory::Visibility;
use engramdb::path::FilePath;
use engramdb::store::{MemoryFile, MemoryStore};
use engramdb::time::Timestamp;
use engramdb::writes::{Placed, Step};

fn file(path: &str, id: &str) -> MemoryFile {
    MemoryFile {
        path: FilePath::parse(path),
        id: id.to_string(),
        modified: Timestamp { secs: 1, nanos: 0 },
    }
}

fn store(shared: Vec<MemoryFile>, personal: Vec<MemoryFile>) -> MemoryStore {
    MemoryStore {
        project_dir: FilePath::parse("/p"),
        project_id: "0123456789abcdef".to_string(),
        shared,
        personal,
    }
}

fn placed(path: &str, id: &str) -> Placed {
    Placed {
        path: FilePath::parse(path),
        id: id.to_string(),
    }
}

fn shown(path: &FilePath) -> String {
    format!("/{}", path.file_name().unwrap())
}

fn told(steps: &[Step]) -> Vec<String> {
    steps
        .iter()
        .map(|s| match s {
            Step::Write(p) => format!("write {}", shown(p)),
            Step::Remove(p) => format!("remove {}", shown(p)),
        })
        .collect()
}

#[test]
fn a_fresh_memory_is_only_written() {
    let s = store(vec![file("/other.md", "other")], vec![]);
    let steps = s.create("new", &FilePath::parse("/new.md"), false);
    assert_eq!(told(&steps), vec!["write /new.md"]);
}

#[test]
fn re_creating_sweeps_both_directories() {
    let s = store(
        vec![file("/old.md", "x"), file("/new.md", "x"), file("/xy.md", "xy")],
        vec![file("/mine.md", "x")],
    );
    let steps = s.create("x", &FilePath::parse("/new.md"), true);
    assert_eq!(
        told(&steps),
        vec!["write /new.md", "remove /old.md", "remove /mine.md"]
    );
}

#[test]
fn test_update_same_filename_replaces_in_place() {
    let s = store(vec![file("/a.md", "x")], vec![]);
    let steps = s
        .update("x", Visibility::Shared, &FilePath::parse("/a.md"))
        .unwrap();
    assert_eq!(told(&steps), vec!["write /a.md"]);
}

#[test]
fn test_update_title_change_leaves_single_file() {
    let s = store(vec![file("/old-title.md", "x")], vec![]);
    let steps = s
        .update("x", Visibility::Shared, &FilePath::parse("/new-title.md"))
        .unwrap();
    assert_eq!(
        told(&steps),
        vec!["write /new-title.md", "remove /old-title.md"]
    );
}

#[test]
fn test_update_cleans_up_stale_duplicate() {
    let s = store(vec![file("/stale.md", "x"), file("/now.md", "x")], vec![]);
    let steps = s
        .update("x", Visibility::Shared, &FilePath::parse("/now.md"))
        .unwrap();
    assert_eq!(told(&steps), vec!["write /now.md", "remove /stale.md"]);
}

#[test]
fn an_update_looks_where_the_memory_was() {
    let s = store(vec![file("/a.md", "x")], vec![file("/b.md", "x")]);
    let steps = s
        .update("x", Visibility::Personal, &FilePath::parse("/c.md"))
        .unwrap();
    assert_eq!(told(&steps), vec!["write /c.md", "remove /b.md"]);
    let s = store(vec![file("/a.md", "xa"), file("/b.md", "xb")], vec![]);
    assert!(matches!(
        s.update("x", Visibility::Shared, &FilePath::parse("/c.md")),
        Err(StorageError::Validation(_))
    ));
}

#[test]
fn test_delete_removes_memory() {
    let s = store(vec![file("/a.md", "x")], vec![file("/b.md", "x")]);
    let gone = s.delete("x").unwrap();
    assert_eq!(gone.len(), 1);
    assert_eq!(shown(&gone[0].path), "/a.md");
}

#[test]
fn deleting_falls_through_to_the_personal_directory() {
    let s = store(vec![file("/a.md", "y")], vec![file("/b.md", "x")]);
    let gone = s.delete("x").unwrap();
    assert_eq!(shown(&gone[0].path), "/b.md");
    assert!(matches!(
        s.delete("z"),
        Err(StorageError::NotFound(id)) if id == "z"
    ));
    let s = store(vec![file("/a.md", "xa"), file("/c.md", "xb")], vec![file("/b.md", "x")]);
    assert!(matches!(s.delete("x"), Err(StorageError::Validation(_))));
}

#[test]
fn create_batch_empty_is_a_noop() {
    assert!(store(vec![], vec![]).create_batch(&[]).steps.is_empty());
}

#[test]
fn create_batch_sweeps_old_visibility_file() {
    let s = store(vec![file("/shared.md", "x")], vec![file("/other.md", "o")]);
    let steps = s.create_batch(&[placed("/personal.md", "x"), placed("/fresh.md", "f")]).steps;
    assert_eq!(
        told(&steps),
        vec!["write /personal.md", "remove /shared.md", "write /fresh.md"]
    );
}

#[test]
fn in_a_batch_the_later_write_of_an_id_wins() {
    let s = store(vec![file("/old.md", "x")], vec![]);
    let steps = s.create_batch(&[placed("/one.md", "x"), placed("/two.md", "x")]).steps;
    assert_eq!(
        told(&steps),
        vec![
            "write /one.md",
            "remove /old.md",
            "write /two.md",
            "remove /one.md"
        ]
    );
}

#[test]
fn of_a_fresh_id_given_twice_the_later_write_wins() {
    let s = store(vec![], vec![]);
    let steps = s.create_batch(&[placed("/one.md", "x"), placed("/two.md", "x")]).steps;
    assert_eq!(
        told(&steps),
        vec!["write /one.md", "write /two.md", "remove /one.md"]
    );
}

#[test]
fn a_batch_of_one_is_a_creation() {
    for known in [false, true] {
        let shared = if known { vec![file("/old.md", "x"), file("/a.md", "xy")] } else { vec![] };
        let s = store(shared, vec![]);
        let batch = s.create_batch(&[placed("/new.md", "x")]).steps;
        assert_eq!(told(&batch), told(&s.create("x", &FilePath::parse("/new.md"), known)));
    }
}

#[test]
fn a_batch_answers_with_the_ids_given() {
    let s = store(vec![file("/old.md", "b")], vec![]);
    let new = [placed("/1.md", "c"), placed("/2.md", "b"), placed("/3.md", "c")];
    assert_eq!(s.create_batch(&new).ids, vec!["c", "b", "c"]);
    assert!(s.create_batch(&[]).ids.is_empty());
}
