use engramdb::error::StorageError;
use engramdb::path::FilePath;
use engramdb::sessions::{
    claude_home, cwd_matches, encode_project_dir, is_valid_session_id, judge_directory,
    list_sessions, projects_root, Candidate,
};
use engramdb::transcripts::summarize_session;

fn candidate(id: &str, record: &str, exact_dir: bool) -> Candidate {
    let summary = summarize_session(
        id.to_string(),
        format!("/t/{id}.jsonl"),
        record.len() as u64,
        record.as_bytes(),
    );
    let cwd = summary.cwd.as_ref().map(|c| FilePath::parse(c));
    Candidate {
        summary,
        cwd,
        exact_dir,
    }
}

fn ids(found: Vec<engramdb::transcripts::SessionSummary>) -> Vec<String> {
    found.into_iter().map(|s| s.session_id).collect()
}

#[test]
fn encode_project_dir_matches_claude_code_layout() {
    assert_eq!(
        encode_project_dir("/home/user/engramdb"),
        "-home-user-engramdb"
    );
    assert_eq!(encode_project_dir("/a/b.c"), encode_project_dir("/a/b-c"));
}

#[test]
fn list_sessions_attributes_by_recorded_cwd() {
    let mine = r#"{"type":"user","cwd":"/work/repo","timestamp":"2026-07-31T10:00:00Z","message":{"role":"user","content":"mine"}}"#;
    let theirs = r#"{"type":"user","cwd":"/somewhere/else","timestamp":"2026-07-31T11:00:00Z","message":{"role":"user","content":"theirs"}}"#;
    let repo = [FilePath::parse("/work/repo")];
    let found = ids(list_sessions(
        vec![
            candidate("mine", mine, true),
            candidate("theirs", theirs, true),
        ],
        &repo,
    ));
    assert_eq!(found.len(), 1, "collided transcript must be rejected");
    assert_eq!(found[0], "mine");
}

#[test]
fn list_sessions_matches_subdirectory_cwd() {
    let sub = r#"{"type":"user","cwd":"/work/repo/crates","message":{"role":"user","content":"hi"}}"#;
    let repo = [FilePath::parse("/work/repo")];
    assert_eq!(
        list_sessions(vec![candidate("sub", sub, true)], &repo).len(),
        1
    );
}

#[test]
fn sessions_sharing_an_end_time_come_back_in_a_stable_order() {
    let record = r#"{"type":"user","cwd":"/repo","timestamp":"2026-07-31T10:00:00Z","message":{"role":"user","content":"same instant"}}"#;
    let names: Vec<String> = (0..20).map(|i| format!("s{i:02}")).collect();
    for turn in 0..5 {
        let mut found = Vec::new();
        for i in 0..20 {
            found.push(candidate(&names[(i * 7 + turn) % 20], record, true));
        }
        let listed = ids(list_sessions(found, &[]));
        assert_eq!(
            listed.len(),
            20,
            "every transcript must be parsed exactly once"
        );
        assert_eq!(
            listed, names,
            "sessions on one timestamp must fall back to the session id, not to read_dir order"
        );
    }
}

#[test]
fn sessions_are_still_ordered_newest_first() {
    let mut found = Vec::new();
    for (session, ts) in [
        ("oldest", "2026-07-01T10:00:00Z"),
        ("middle", "2026-07-15T10:00:00Z"),
        ("newest", "2026-07-31T10:00:00Z"),
    ] {
        let record = format!(
            r#"{{"type":"user","cwd":"/repo","timestamp":"{ts}","message":{{"role":"user","content":"hi"}}}}"#
        );
        found.push(candidate(session, &record, true));
    }
    assert_eq!(
        ids(list_sessions(found, &[])),
        vec!["newest", "middle", "oldest"]
    );
}

#[test]
fn a_prefix_named_sibling_directory_still_does_not_donate_undated_sessions() {
    let record = r#"{"type":"user","timestamp":"2026-07-31T10:00:00Z","message":{"role":"user","content":"hi"}}"#;
    let repo = "/work/repo".to_string();
    let encoded = encode_project_dir(&repo);
    let wanted = [repo.clone()];
    let ours = judge_directory(&encoded, &wanted);
    let theirs = judge_directory(&format!("{encoded}-other"), &wanted);
    assert_eq!(ours, Some(true));
    assert_eq!(theirs, Some(false));
    assert_eq!(judge_directory("-elsewhere", &wanted), None);
    let found = ids(list_sessions(
        vec![
            candidate("ours", record, ours.unwrap()),
            candidate("theirs", record, theirs.unwrap()),
        ],
        &[FilePath::parse(&repo)],
    ));
    assert_eq!(found, vec!["ours"]);
}

#[test]
fn missing_projects_root_is_empty_not_error() {
    assert!(list_sessions(Vec::new(), &[]).is_empty());
}

#[test]
fn without_a_project_every_directory_counts() {
    assert_eq!(judge_directory("anything", &[]), Some(true));
    assert_eq!(
        judge_directory("-elsewhere", &["/früh".to_string()]),
        Some(false)
    );
}

#[test]
fn a_directory_that_shares_a_prefix_of_the_name_is_not_below() {
    let wanted = [FilePath::parse("/work/repo")];
    let below = Some(FilePath::parse("/work/repo/src"));
    let sibling = Some(FilePath::parse("/work/repository"));
    assert!(cwd_matches(&below, &wanted, false));
    assert!(!cwd_matches(&sibling, &wanted, true));
    assert!(cwd_matches(&None, &wanted, true));
    assert!(!cwd_matches(&None, &wanted, false));
}

#[test]
fn session_ids_are_plain_names() {
    for good in ["s1", "0197-abc_d.e", "A"] {
        assert!(is_valid_session_id(good), "{good}");
    }
    for bad in ["", ".", "..", "a/b", "a b", "a\u{0}"] {
        assert!(!is_valid_session_id(bad), "{bad:?}");
    }
    assert!(is_valid_session_id(&"x".repeat(128)));
    assert!(!is_valid_session_id(&"x".repeat(129)));
}

#[test]
fn a_configured_state_directory_wins() {
    let home = FilePath::parse("/home/u");
    let root = claude_home(Some("/custom/agent"), Some(home), "state").unwrap();
    assert!(root.same(&FilePath::parse("/custom/agent")));
    assert!(projects_root(&root).same(&FilePath::parse("/custom/agent/projects")));
}

#[test]
fn the_state_directory_falls_back_to_the_home_directory() {
    for configured in [None, Some(""), Some("  \n")] {
        let root = claude_home(configured, Some(FilePath::parse("/home/u")), "state").unwrap();
        assert!(root.same(&FilePath::parse("/home/u/state")));
    }
    let root = claude_home(Some("  /x "), None, "state").unwrap();
    assert!(root.same(&FilePath::parse("/x")));
    assert_eq!(
        claude_home(Some(" "), None, "state").unwrap_err(),
        StorageError::Validation("Could not determine home directory".to_string())
    );
}
