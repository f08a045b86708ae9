use engramdb::error::StorageError;
use engramdb::memory::Visibility;
use engramdb::path::FilePath;
use engramdb::store::{MemoryFile, MemoryStore};
use engramdb::time::Timestamp;
use engramdb::writes::{Placed, Step};

fn file(path: &str, id: &str, secs: i64) -> MemoryFile {
    MemoryFile {
        path: FilePath::parse(path),
        id: id.to_string(),
        modified: Timestamp { secs, nanos: 0 },
    }
}

fn store(shared: Vec<MemoryFile>, personal: Vec<MemoryFile>) -> MemoryStore {
    MemoryStore {
        project_dir: FilePath::parse("/p"),
        project_id: "0123456789abcdef".to_string(),
        shared,
        personal,
    }
}

fn performed(s: &mut MemoryStore, steps: Vec<Step>, id: &str, visibility: Visibility) {
    for step in steps {
        match step {
            Step::Write(path) => {
                s.shared.retain(|f| !f.path.same(&path));
                s.personal.retain(|f| !f.path.same(&path));
                let new = MemoryFile {
                    path,
                    id: id.to_string(),
                    modified: Timestamp { secs: 100, nanos: 0 },
                };
                match visibility {
                    Visibility::Shared => s.shared.push(new),
                    Visibility::Personal => s.personal.push(new),
                }
            }
            Step::Remove(path) => {
                s.shared.retain(|f| !f.path.same(&path));
                s.personal.retain(|f| !f.path.same(&path));
            }
        }
    }
}

fn found_at(s: &MemoryStore, id: &str, path: &str) -> bool {
    s.get(id).unwrap().same(&FilePath::parse(path))
}

#[test]
fn a_created_memory_is_found() {
    let mut s = store(vec![file("/s/a.md", "abc", 1)], vec![file("/p/b.md", "abc", 200)]);
    let path = FilePath::parse("/s/new.md");
    let steps = s.create("abc", &path, true);
    performed(&mut s, steps, "abc", Visibility::Shared);
    assert!(found_at(&s, "abc", "/s/new.md"));
    assert_eq!(s.shared.len(), 1);
    assert_eq!(s.personal.len(), 0);
}

#[test]
fn a_created_memory_is_found_beside_an_older_leftover() {
    let mut s = store(vec![file("/s/a.md", "abc", 1)], vec![]);
    let path = FilePath::parse("/s/new.md");
    let steps = s.create("abc", &path, false);
    performed(&mut s, steps, "abc", Visibility::Shared);
    assert_eq!(s.shared.len(), 2);
    assert!(found_at(&s, "abc", "/s/new.md"));
}

#[test]
fn an_updated_memory_is_found_where_it_moved() {
    let mut s = store(
        vec![file("/s/a.md", "abc", 1), file("/s/other.md", "xyz", 1)],
        vec![],
    );
    let path = FilePath::parse("/p/a.md");
    let steps = s.update("ab", Visibility::Shared, &path).unwrap();
    performed(&mut s, steps, "abc", Visibility::Personal);
    assert!(found_at(&s, "abc", "/p/a.md"));
    assert!(found_at(&s, "xyz", "/s/other.md"));
}

#[test]
fn a_deleted_memory_is_not_found() {
    let mut s = store(
        vec![file("/s/a.md", "abc", 1), file("/s/b.md", "abc", 2), file("/s/c.md", "xyz", 1)],
        vec![],
    );
    for gone in s.delete("abc").unwrap() {
        s.shared.retain(|f| !f.path.same(&gone.path));
    }
    assert_eq!(s.get("abc").unwrap_err(), StorageError::NotFound("abc".to_string()));
    assert!(found_at(&s, "xyz", "/s/c.md"));
}

#[test]
fn a_longer_shared_id_hides_a_personal_one() {
    let s = store(vec![file("/s/a.md", "abcd", 1)], vec![file("/p/a.md", "abc", 1)]);
    assert!(found_at(&s, "abc", "/s/a.md"));
}

fn batch_performed(s: &mut MemoryStore, new: &[(&str, &str)]) {
    let placed: Vec<Placed> = new
        .iter()
        .map(|(path, id)| Placed { path: FilePath::parse(path), id: id.to_string() })
        .collect();
    let mut writes = new.iter();
    for step in s.create_batch(&placed).steps {
        let (mut id, mut visibility) = ("", Visibility::Shared);
        if let Step::Write(_) = &step {
            let (path, written) = writes.next().unwrap();
            id = written;
            if path.starts_with("/p/") {
                visibility = Visibility::Personal;
            }
        }
        performed(s, vec![step], id, visibility);
    }
}

#[test]
fn of_an_id_given_twice_the_later_write_is_read_back() {
    let mut s = store(vec![], vec![]);
    batch_performed(&mut s, &[("/s/a.md", "x"), ("/p/a.md", "x")]);
    assert!(found_at(&s, "x", "/p/a.md"));
    assert_eq!((s.shared.len(), s.personal.len()), (0, 1));
}

#[test]
fn a_created_batch_is_read_back() {
    let mut s = store(
        vec![file("/s/old.md", "abc", 1), file("/s/other.md", "xyz", 1)],
        vec![],
    );
    batch_performed(&mut s, &[("/p/new.md", "abc"), ("/s/fresh.md", "def")]);
    assert!(found_at(&s, "abc", "/p/new.md"));
    assert!(found_at(&s, "def", "/s/fresh.md"));
    assert!(found_at(&s, "xyz", "/s/other.md"));
    assert_eq!((s.shared.len(), s.personal.len()), (2, 1));
}

#[test]
fn a_batch_touches_no_other_memory() {
    let mut s = store(
        vec![file("/s/a.md", "abc", 5), file("/s/b.md", "abc", 7), file("/s/c.md", "xyz", 1)],
        vec![file("/p/a.md", "abc", 9), file("/p/d.md", "mno", 2)],
    );
    batch_performed(&mut s, &[("/p/new.md", "xyz"), ("/s/fresh.md", "def")]);
    assert!(found_at(&s, "abc", "/s/b.md"));
    assert!(found_at(&s, "ab", "/s/b.md"));
    assert!(found_at(&s, "mno", "/p/d.md"));
    assert!(s.get("q").is_err());
    assert_eq!((s.shared.len(), s.personal.len()), (3, 3));
}
