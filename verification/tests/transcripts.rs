use engramdb::transcripts::{
    parse_session, summarize_session, Event, ParseOptions, ParsedSession, SessionParser,
    ToolDetail, MAX_RECORD_BYTES,
};

fn quoted(s: &str) -> String {
    serde_json::Value::String(s.to_string()).to_string()
}

fn prompt(text: &str) -> String {
    format!(
        r#"{{"type":"user","cwd":"/repo","message":{{"role":"user","content":{}}}}}"#,
        quoted(text)
    )
}

/// A prompt whose record is at least so long.
fn padded_prompt(marker: &str, target_bytes: usize) -> String {
    let pad = target_bytes.saturating_sub(prompt(marker).len());
    prompt(&format!("{marker}{}", "x".repeat(pad)))
}

fn lines(records: &[&str]) -> Vec<u8> {
    let mut out = Vec::new();
    for r in records {
        out.extend_from_slice(r.as_bytes());
        out.push(b'\n');
    }
    out
}

fn parse_with(data: &[u8], opts: ParseOptions) -> ParsedSession {
    parse_session(
        "s".to_string(),
        "/t/s.jsonl".to_string(),
        data.len() as u64,
        data,
        opts,
    )
}

fn parse(data: &[u8]) -> ParsedSession {
    parse_with(data, ParseOptions::default())
}

fn tools_only(tools: ToolDetail) -> ParseOptions {
    ParseOptions {
        tools,
        ..Default::default()
    }
}

#[test]
fn oversized_record_is_skipped_without_losing_the_rest() {
    let huge = padded_prompt("HUGE", MAX_RECORD_BYTES + 4096);
    let data = lines(&[
        &padded_prompt("FIRST", 0),
        &huge,
        &padded_prompt("THIRD", 0),
    ]);

    let parsed = parse(&data);
    assert_eq!(parsed.summary.user_turns, 2, "oversized record must be cut");
    assert_eq!(
        parsed.summary.skipped_records, 1,
        "a dropped record must be counted, or `user_turns` is a silent lower bound"
    );
    let texts: Vec<&str> = parsed
        .events
        .iter()
        .filter_map(|e| match e {
            Event::UserPrompt { text, .. } => Some(text.as_str()),
            _ => None,
        })
        .collect();
    assert!(texts[0].starts_with("FIRST"));
    assert!(
        texts[1].starts_with("THIRD"),
        "the record after an oversized one was lost: {texts:?}"
    );
}

#[test]
fn oversized_final_record_terminates_the_scan() {
    let mut data = lines(&[&padded_prompt("FIRST", 0)]);
    data.extend_from_slice(padded_prompt("HUGE", MAX_RECORD_BYTES + 4096).as_bytes());

    let parsed = parse(&data);
    assert_eq!(parsed.summary.user_turns, 1);
    assert_eq!(
        parsed.summary.skipped_records, 1,
        "a record that ran to EOF over the cap is still a dropped record"
    );
}

#[test]
fn record_at_exactly_the_cap_is_kept() {
    let exact = padded_prompt("EXACT", MAX_RECORD_BYTES);
    assert_eq!(exact.len(), MAX_RECORD_BYTES, "fixture must sit on the cap");
    assert_eq!(parse(&lines(&[&exact])).summary.user_turns, 1);

    assert_eq!(
        parse(exact.as_bytes()).summary.user_turns,
        1,
        "an unterminated record of exactly the cap must still parse"
    );

    assert_eq!(
        parse(padded_prompt("OVER", MAX_RECORD_BYTES + 1).as_bytes())
            .summary
            .user_turns,
        0,
        "cap+1 must be over the limit"
    );
}

#[test]
fn crlf_and_invalid_utf8_lines_behave_as_before() {
    let mut data = Vec::new();
    data.extend_from_slice(padded_prompt("CRLF", 0).as_bytes());
    data.extend_from_slice(b"\r\n");
    data.extend_from_slice(&[0xff, 0xfe, b'\n']);
    data.extend_from_slice(padded_prompt("AFTER", 0).as_bytes());
    data.push(b'\n');

    let parsed = parse(&data);
    assert_eq!(
        parsed.summary.user_turns, 2,
        "CRLF record and the one after invalid UTF-8 must both parse"
    );
    match &parsed.events[0] {
        Event::UserPrompt { text, .. } => assert!(
            !text.contains('\r') && text.starts_with("CRLF"),
            "trailing CR leaked into the parsed text: {text:?}"
        ),
        other => panic!("expected a user prompt, got {other:?}"),
    }
}

#[test]
fn failures_only_keeps_failed_calls_and_drops_successful_ones() {
    let assistant = r#"{"type":"assistant","message":{"role":"assistant","content":[{"type":"text","text":"trying"},{"type":"tool_use","id":"t1","name":"Bash","input":{"command":"cargo build"}},{"type":"tool_use","id":"t2","name":"Read","input":{"file_path":"/a.rs"}}]}}"#;
    let results = r#"{"type":"user","message":{"role":"user","content":[{"type":"tool_result","tool_use_id":"t1","is_error":true,"content":"error: could not find protoc"},{"type":"tool_result","tool_use_id":"t2","is_error":false,"content":"ok"}]}}"#;
    let data = lines(&[assistant, results]);

    let all = parse(&data);
    assert_eq!(
        all.events
            .iter()
            .filter(|e| matches!(e, Event::ToolCall { .. }))
            .count(),
        2,
        "the default profile keeps the whole trace"
    );

    let failures = parse_with(&data, tools_only(ToolDetail::FailuresOnly));
    let tools: Vec<&Event> = failures
        .events
        .iter()
        .filter(|e| matches!(e, Event::ToolCall { .. }))
        .collect();
    assert_eq!(tools.len(), 1, "{tools:?}");
    match tools[0] {
        Event::ToolCall {
            name,
            ok,
            result_preview,
            ..
        } => {
            assert_eq!(name, "Bash");
            assert_eq!(*ok, Some(false));
            assert!(
                result_preview
                    .as_deref()
                    .is_some_and(|p| p.contains("could not find protoc")),
                "the error text must survive: {result_preview:?}"
            );
        }
        other => panic!("expected a tool call, got {other:?}"),
    }
    assert!(failures
        .events
        .iter()
        .any(|e| matches!(e, Event::AssistantText { .. })));

    let none = parse_with(&data, tools_only(ToolDetail::Off));
    assert!(none
        .events
        .iter()
        .all(|e| !matches!(e, Event::ToolCall { .. })));
    assert_eq!(none.summary.assistant_turns, all.summary.assistant_turns);
}

#[test]
fn failures_only_drops_a_call_with_no_result() {
    let assistant = r#"{"type":"assistant","message":{"role":"assistant","content":[{"type":"tool_use","id":"t1","name":"Bash","input":{"command":"sleep 1"}}]}}"#;
    let parsed = parse_with(&lines(&[assistant]), tools_only(ToolDetail::FailuresOnly));
    assert!(parsed
        .events
        .iter()
        .all(|e| !matches!(e, Event::ToolCall { .. })));
}

#[test]
fn parses_prompts_prose_and_tool_calls() {
    let data = lines(&[
        r#"{"type":"user","cwd":"/repo","gitBranch":"main","timestamp":"2026-07-31T10:00:00Z","message":{"role":"user","content":"why does the build fail"}}"#,
        r#"{"type":"assistant","timestamp":"2026-07-31T10:00:05Z","message":{"role":"assistant","content":[{"type":"thinking","thinking":"hmm"},{"type":"text","text":"Checking the build."},{"type":"tool_use","id":"t1","name":"Bash","input":{"command":"cargo build"}}]}}"#,
        r#"{"type":"user","timestamp":"2026-07-31T10:00:09Z","message":{"role":"user","content":[{"type":"tool_result","tool_use_id":"t1","is_error":true,"content":"error: linker not found\nmore detail"}]}}"#,
    ]);

    let parsed = parse(&data);
    assert_eq!(parsed.summary.cwd.as_deref(), Some("/repo"));
    assert_eq!(parsed.summary.git_branch.as_deref(), Some("main"));
    assert_eq!(parsed.summary.user_turns, 1);
    assert_eq!(parsed.summary.assistant_turns, 1);
    assert!(parsed.summary.first_prompt.unwrap().starts_with("why does"));

    assert_eq!(parsed.events.len(), 3);
    assert!(matches!(parsed.events[0], Event::UserPrompt { .. }));
    assert!(matches!(parsed.events[1], Event::AssistantText { .. }));
    match &parsed.events[2] {
        Event::ToolCall {
            name,
            target,
            ok,
            result_preview,
            ..
        } => {
            assert_eq!(name, "Bash");
            assert_eq!(target.as_deref(), Some("cargo build"));
            assert_eq!(*ok, Some(false));
            assert_eq!(result_preview.as_deref(), Some("error: linker not found"));
        }
        other => panic!("expected tool call, got {other:?}"),
    }
    let started = parsed.summary.started_at.unwrap();
    let ended = parsed.summary.ended_at.unwrap();
    assert_eq!(started.secs, 1_785_492_000);
    assert_eq!(ended.secs - started.secs, 9);
    assert_eq!(parsed.events[1].at().unwrap().secs - started.secs, 5);
}

#[test]
fn include_thinking_opt_in() {
    let data = lines(&[
        r#"{"type":"assistant","message":{"role":"assistant","content":[{"type":"thinking","thinking":"reasoning here"}]}}"#,
    ]);
    assert!(parse(&data).events.is_empty());

    let opts = ParseOptions {
        include_thinking: true,
        ..Default::default()
    };
    let parsed = parse_with(&data, opts);
    assert!(matches!(parsed.events[0], Event::Thinking { .. }));
}

#[test]
fn skips_sidechains_and_synthetic_prompts_and_bad_lines() {
    let data = lines(&[
        "not json at all",
        r#"{"type":"user","isSidechain":true,"message":{"role":"user","content":"subagent prompt"}}"#,
        r#"{"type":"user","message":{"role":"user","content":"<command-name>/reflect</command-name>"}}"#,
        r#"{"type":"user","message":{"role":"user","content":"<system-reminder>be nice</system-reminder>"}}"#,
        r#"{"type":"user","message":{"role":"user","content":"a real question"}}"#,
    ]);
    let parsed = parse(&data);
    assert_eq!(parsed.summary.user_turns, 1);
    assert_eq!(parsed.events.len(), 1);
    match &parsed.events[0] {
        Event::UserPrompt { text, .. } => assert_eq!(text, "a real question"),
        other => panic!("expected prompt, got {other:?}"),
    }
}

#[test]
fn unterminated_tool_call_reports_unknown_outcome() {
    let data = lines(&[
        r#"{"type":"assistant","message":{"role":"assistant","content":[{"type":"tool_use","id":"t1","name":"Read","input":{"file_path":"/repo/src/lib.rs"}}]}}"#,
    ]);
    match &parse(&data).events[0] {
        Event::ToolCall { ok, target, .. } => {
            assert_eq!(*ok, None);
            assert_eq!(target.as_deref(), Some("/repo/src/lib.rs"));
        }
        other => panic!("expected tool call, got {other:?}"),
    }
}

#[test]
fn a_transcript_can_be_fed_in_pieces() {
    let data = lines(&[&prompt("one"), &prompt("two"), &prompt("three")]);
    let mut parser = SessionParser::new(ParseOptions::default());
    for piece in data.chunks(7) {
        parser.feed(piece);
    }
    assert_eq!(parser.consumed(), data.len());
    let parsed = parser.finish("s".to_string(), "p".to_string(), data.len() as u64);
    assert_eq!(parsed.summary.user_turns, 3);
    assert_eq!(parsed.events.len(), parse(&data).events.len());
    assert_eq!(parsed.summary.transcript_path, "p");
}

#[test]
fn a_summary_counts_as_the_whole_does() {
    let data = lines(&[&prompt("one"), &prompt("two")]);
    let summary = summarize_session("s".to_string(), "p".to_string(), 12, &data);
    assert_eq!(summary.user_turns, 2);
    assert_eq!(summary.bytes, 12);
    assert_eq!(summary.session_id, "s");
    assert_eq!(summary.first_prompt.as_deref(), Some("one"));
    assert_eq!(summary.skipped_records, 0);
}

#[test]
fn turns_are_the_prompts_and_the_replies() {
    let long = "y".repeat(500);
    let data = lines(&[
        r#"{"type":"assistant","message":{"role":"assistant","content":[{"type":"text","text":"Hello."},{"type":"tool_use","id":"t1","name":"Bash","input":{"command":"ls"}}]}}"#,
        r#"{"type":"user","message":{"role":"user","content":[{"type":"tool_result","tool_use_id":"t1","content":"ok"}]}}"#,
        &prompt(&long),
        r#"{"type":"assistant","message":{"role":"assistant","content":[{"type":"text","text":"One."},{"type":"text","text":"Two."}]}}"#,
        &prompt("second"),
    ]);
    for tools in [ToolDetail::All, ToolDetail::FailuresOnly, ToolDetail::Off] {
        let parsed = parse_with(&data, tools_only(tools));
        let prompts: Vec<&str> = parsed
            .events
            .iter()
            .filter_map(|e| match e {
                Event::UserPrompt { text, .. } => Some(text.as_str()),
                _ => None,
            })
            .collect();
        let replies = parsed
            .events
            .iter()
            .filter(|e| matches!(e, Event::AssistantText { .. }))
            .count();
        assert_eq!(prompts, vec![long.as_str(), "second"]);
        assert_eq!(parsed.summary.user_turns as usize, prompts.len());
        assert_eq!(parsed.summary.assistant_turns as usize, replies);
        assert_eq!(replies, 3);
        assert_eq!(
            parsed.summary.first_prompt,
            Some(format!("{}…", "y".repeat(160)))
        );
    }
    assert_eq!(parse(b"{}\n").summary.first_prompt, None);
}

#[test]
fn long_records_might_as_well_be_absent() {
    let huge = padded_prompt("HUGE", MAX_RECORD_BYTES + 1);
    let with = lines(&[&huge, &prompt("one"), "", &huge, &prompt("two")]);
    let without = lines(&[&prompt("one"), "", &prompt("two")]);
    let a = parse(&with);
    let b = parse(&without);
    assert_eq!(a.summary.skipped_records, 2);
    assert_eq!(b.summary.skipped_records, 0);
    assert_eq!(format!("{:?}", a.events), format!("{:?}", b.events));
    assert_eq!(a.summary.user_turns, b.summary.user_turns);
    assert_eq!(a.summary.first_prompt, b.summary.first_prompt);
}

#[test]
fn a_reading_that_breaks_off_loses_only_the_open_record() {
    let mut data = lines(&[&prompt("one"), &prompt("two")]);
    data.extend_from_slice(prompt("three").as_bytes());
    let broken_off = |data: &[u8]| {
        let mut parser = SessionParser::new(ParseOptions::default());
        parser.feed(data);
        parser.finish_broken_off("s".to_string(), "p".to_string(), 1).summary
    };
    assert_eq!(parse(&data).summary.user_turns, 3);
    assert_eq!(broken_off(&data).user_turns, 2);
    assert_eq!(broken_off(&data).skipped_records, 0);
    data.extend_from_slice(&vec![b'x'; MAX_RECORD_BYTES]);
    assert_eq!(broken_off(&data).user_turns, 2);
    assert_eq!(broken_off(&data).skipped_records, 1);
}
