use engramdb::path::FilePath;
use engramdb::task_state::{
    mapping_path, SessionTasks, TaskEntry, PRUNE_AFTER_DAYS, TASK_FALLBACK_MAX_AGE_HOURS,
};
use engramdb::time::Timestamp;

const NOW: i64 = 1_800_000_000;

fn at(secs: i64) -> Timestamp {
    Timestamp { secs, nanos: 0 }
}

#[test]
fn mapping_roundtrip_and_clear() {
    let mut tasks = SessionTasks::new();
    assert_eq!(tasks.current_task("s1"), None);

    tasks.set_current_task("s1", "epistemic-memory").unwrap();
    tasks.set_current_task("s2", "other-task").unwrap();
    assert_eq!(tasks.current_task("s1").as_deref(), Some("epistemic-memory"));
    assert_eq!(tasks.current_task("s2").as_deref(), Some("other-task"));

    tasks.set_current_task("s1", "new-task").unwrap();
    assert_eq!(tasks.current_task("s1").as_deref(), Some("new-task"));
    assert_eq!(tasks.len(), 2);

    assert_eq!(
        tasks.clear_session_task("s1").task.as_deref(),
        Some("new-task")
    );
    assert_eq!(tasks.current_task("s1"), None);
    assert_eq!(tasks.current_task("s2").as_deref(), Some("other-task"));
    let again = tasks.clear_session_task("s1");
    assert_eq!(again.task, None);
    assert!(!again.changed);
}

#[test]
fn empty_session_id_rejected_or_none() {
    let mut tasks = SessionTasks::new();
    assert!(tasks.set_current_task("", "task").is_err());
    assert_eq!(tasks.current_task(""), None);
    assert_eq!(tasks.clear_session_task("").task, None);
}

#[test]
fn recent_fallback_bridges_foreign_session_ids() {
    let mut tasks = SessionTasks::new();
    assert_eq!(tasks.current_task_or_recent("hook-session"), None);

    tasks
        .set_current_task("mcp-synthetic-id", "epistemic-e2e")
        .unwrap();
    assert_eq!(
        tasks.current_task_or_recent("hook-session").as_deref(),
        Some("epistemic-e2e")
    );

    tasks.set_current_task("hook-session", "own-task").unwrap();
    assert_eq!(
        tasks.current_task_or_recent("hook-session").as_deref(),
        Some("own-task")
    );

    let mut tasks = SessionTasks::new();
    tasks.insert(
        "mcp-synthetic-id".to_string(),
        TaskEntry {
            task: "epistemic-e2e".to_string(),
            declared_at: at(NOW - 3_600 * (TASK_FALLBACK_MAX_AGE_HOURS + 1)),
        },
    );
    assert_eq!(
        tasks.current_task_or_recent_at("hook-session", at(NOW)),
        None
    );
}

#[test]
fn the_freshest_foreign_task_is_taken() {
    let mut tasks = SessionTasks::new();
    for (id, task, secs) in [("a", "older", NOW - 50), ("b", "fresh", NOW - 10), ("c", "old", NOW - 90)] {
        tasks.insert(
            id.to_string(),
            TaskEntry {
                task: task.to_string(),
                declared_at: at(secs),
            },
        );
    }
    assert_eq!(
        tasks.current_task_or_recent_at("x", at(NOW)).as_deref(),
        Some("fresh")
    );
}

#[test]
fn clear_prunes_stale_entries() {
    let mut tasks = SessionTasks::new();
    tasks.insert(
        "old".to_string(),
        TaskEntry {
            task: "ancient-task".to_string(),
            declared_at: at(NOW - 86_400 * (PRUNE_AFTER_DAYS + 1)),
        },
    );
    let cleared = tasks.clear_session_task_at("unrelated", at(NOW));
    assert_eq!(cleared.task, None);
    assert!(cleared.changed);
    assert_eq!(tasks.len(), 0);
    assert!(tasks.entry(0).is_none());
}

#[test]
fn the_mapping_lies_in_the_state_directory() {
    let path = mapping_path(&FilePath::parse("/p"));
    assert!(path.same(&FilePath::parse("/p/.engramdb/state/session_tasks.json")));
}

#[test]
fn going_through_the_positions_gives_every_session_once() {
    let mut tasks = SessionTasks::new();
    for id in ["c", "a", "b", "a"] {
        tasks.insert(
            id.to_string(),
            TaskEntry {
                task: format!("task-{id}"),
                declared_at: at(NOW),
            },
        );
    }
    let mut found: Vec<(String, String)> = (0..tasks.len())
        .map(|i| tasks.entry(i).unwrap())
        .map(|(id, e)| (id, e.task))
        .collect();
    found.sort();
    let expected: Vec<(String, String)> = ["a", "b", "c"]
        .iter()
        .map(|id| (id.to_string(), format!("task-{id}")))
        .collect();
    assert_eq!(found, expected);
    assert!(tasks.entry(3).is_none());
}
