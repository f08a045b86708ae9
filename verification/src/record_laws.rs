//! What the records of a transcript say, one by one.

use crate::json::JsonView;
use crate::preview::{line_preview, result_text, shortened, synthetic, target_among, target_keys};
use crate::text::trim;
use crate::time::Timestamp;
use crate::transcript_laws::{file_of, is_one_line, lemma_line_after, lemma_lines_of_file};
use crate::transcripts::{
    all_lines, broken_off_session, ended_lines, stays, transcript_session,
    with_block, with_blocks, with_line, with_lines, with_message, with_record, EventView,
    ParseOptions, Session, ToolDetail,
};
use vstd::prelude::*;

verus! {

// ---------------------------------------------------------------------------
// Members
// ---------------------------------------------------------------------------

/// The member of an object under a key is that of its first entry with the key;
/// an object without such an entry, and anything else, has none.
pub proof fn a_member_is_the_first_entry_with_its_key(
    entries: Seq<(Seq<char>, JsonView)>,
    key: Seq<char>,
    i: int,
    other: JsonView,
)
    ensures
        0 <= i < entries.len() && entries[i].0 == key && (forall|j: int|
            0 <= j < i ==> (#[trigger] entries[j]).0 != key) ==> JsonView::Object(entries).member(
            key,
        ) == Some(entries[i].1),
        (forall|j: int| 0 <= j < entries.len() ==> (#[trigger] entries[j]).0 != key)
            ==> JsonView::Object(entries).member(key) is None,
        !(other is Object) ==> other.member(key) is None,
    decreases entries.len(),
{
    if entries.len() > 0 {
        let rest = entries.drop_first();
        a_member_is_the_first_entry_with_its_key(rest, key, i - 1, other);
        if 0 <= i < entries.len() && entries[i].0 == key && (forall|j: int|
            0 <= j < i ==> (#[trigger] entries[j]).0 != key) && i > 0 {
            assert(entries[0].0 != key);
            assert(rest[i - 1] == entries[i]);
            assert forall|j: int| 0 <= j < i - 1 implies (#[trigger] rest[j]).0 != key by {
                assert(rest[j] == entries[j + 1]);
            }
        }
        if forall|j: int| 0 <= j < entries.len() ==> (#[trigger] entries[j]).0 != key {
            assert(entries[0].0 != key);
            assert forall|j: int| 0 <= j < rest.len() implies (#[trigger] rest[j]).0 != key by {
                assert(rest[j] == entries[j + 1]);
            }
        }
    }
}

/// A text, or a truth, is read of a member exactly where the member is one.
pub proof fn members_are_read_as_what_they_are(v: JsonView, key: Seq<char>, text: Seq<char>)
    ensures
        v.member_text(key) == Some(text) <==> v.member(key) == Some(JsonView::Text(text)),
        v.member_text(key) is None <==> !(v.member(key) matches Some(JsonView::Text(_))),
        v.member_is_true(key) <==> v.member(key) == Some(JsonView::Bool(true)),
{
}

// ---------------------------------------------------------------------------
// Messages
// ---------------------------------------------------------------------------

/// Whether a message has the role and the content.
pub open spec fn says(message: JsonView, role: Seq<char>, content: JsonView) -> bool {
    &&& message.member("role"@) == Some(JsonView::Text(role))
    &&& message.member("content"@) == Some(content)
}

/// Whether a block is of the kind.
pub open spec fn is_block(block: JsonView, kind: Seq<char>) -> bool {
    block.member("type"@) == Some(JsonView::Text(kind))
}

/// Whether a block is of the kind and has the text as its member of that name.
pub open spec fn holds_text(block: JsonView, kind: Seq<char>, text: Seq<char>) -> bool {
    is_block(block, kind) && block.member(kind) == Some(JsonView::Text(text))
}

proof fn lemma_one_block(
    s: Session,
    at: Option<Timestamp>,
    role: Seq<char>,
    block: JsonView,
    o: ParseOptions,
)
    ensures
        with_blocks(s, at, role, seq![block], o) == with_block(s, at, role, block, o),
{
    let blocks = seq![block];
    assert(blocks.drop_last() =~= Seq::empty());
    assert(blocks.last() == block);
    assert(with_blocks(s, at, role, blocks.drop_last(), o) == s);
}

proof fn lemma_kinds_differ()
    ensures
        "user"@ != "assistant"@,
        "text"@ != "tool_result"@,
        "text"@ != "thinking"@,
        "text"@ != "tool_use"@,
        "thinking"@ != "tool_use"@,
{
    reveal_strlit("user");
    reveal_strlit("assistant");
    reveal_strlit("text");
    reveal_strlit("tool_result");
    reveal_strlit("thinking");
    reveal_strlit("tool_use");
    assert("user"@.len() != "assistant"@.len());
    assert("text"@.len() != "tool_result"@.len());
    assert("text"@.len() != "thinking"@.len());
    assert("text"@.len() != "tool_use"@.len());
    assert("thinking"@[1] != "tool_use"@[1]);
}

/// A text from the user is a prompt, whether it comes as a bare string or as a
/// block: without the white space around it, it counts as a turn, becomes an
/// event and, where it is the first, the preview; unless it is blank or was made
/// by the harness, for then it says nothing.
pub proof fn a_text_from_the_user_is_a_prompt(
    s: Session,
    at: Option<Timestamp>,
    message: JsonView,
    text: Seq<char>,
    block: JsonView,
    o: ParseOptions,
)
    requires
        says(message, "user"@, JsonView::Text(text)) || (says(
            message,
            "user"@,
            JsonView::Array(seq![block]),
        ) && holds_text(block, "text"@, text)),
    ensures
        trim(text).len() == 0 || synthetic(trim(text)) ==> with_message(s, at, message, o) == s,
        trim(text).len() > 0 && !synthetic(trim(text)) ==> {
            let t = with_message(s, at, message, o);
            &&& t.user_turns == s.user_turns + 1
            &&& t.events == s.events.push(EventView::UserPrompt { at, text: trim(text) })
            &&& s.first_prompt is None ==> t.first_prompt == Some(shortened(trim(text), 160))
            &&& s.first_prompt is Some ==> t.first_prompt == s.first_prompt
            &&& t == (Session {
                user_turns: t.user_turns,
                events: t.events,
                first_prompt: t.first_prompt,
                ..s
            })
        },
{
    lemma_one_block(s, at, "user"@, block, o);
}

/// A bare string from the user says what a list of one text block with it says.
pub proof fn a_bare_string_is_a_text_block(
    s: Session,
    at: Option<Timestamp>,
    bare: JsonView,
    listed: JsonView,
    text: Seq<char>,
    block: JsonView,
    o: ParseOptions,
)
    requires
        says(bare, "user"@, JsonView::Text(text)),
        says(listed, "user"@, JsonView::Array(seq![block])),
        holds_text(block, "text"@, text),
    ensures
        with_message(s, at, bare, o) == with_message(s, at, listed, o),
{
    lemma_one_block(s, at, "user"@, block, o);
}

/// A text from the assistant is a reply: without the white space around it, it
/// counts as a turn and becomes an event, unless it is blank.
pub proof fn a_text_from_the_assistant_is_a_reply(
    s: Session,
    at: Option<Timestamp>,
    message: JsonView,
    text: Seq<char>,
    block: JsonView,
    o: ParseOptions,
)
    requires
        says(message, "assistant"@, JsonView::Array(seq![block])),
        holds_text(block, "text"@, text),
    ensures
        trim(text).len() == 0 ==> with_message(s, at, message, o) == s,
        trim(text).len() > 0 ==> with_message(s, at, message, o) == (Session {
            assistant_turns: s.assistant_turns + 1,
            events: s.events.push(EventView::AssistantText { at, text: trim(text) }),
            ..s
        }),
{
    lemma_kinds_differ();
    lemma_one_block(s, at, "assistant"@, block, o);
    crate::text::lemma_trimmed(text);
}

/// Reasoning of the assistant becomes an event where it is asked for, and counts
/// as no turn.
pub proof fn reasoning_is_kept_where_it_is_asked_for(
    s: Session,
    at: Option<Timestamp>,
    message: JsonView,
    text: Seq<char>,
    block: JsonView,
    o: ParseOptions,
)
    requires
        says(message, "assistant"@, JsonView::Array(seq![block])),
        holds_text(block, "thinking"@, text),
    ensures
        !o.include_thinking || trim(text).len() == 0 ==> with_message(s, at, message, o) == s,
        o.include_thinking && trim(text).len() > 0 ==> with_message(s, at, message, o) == (
        Session {
            events: s.events.push(EventView::Thinking { at, text: trim(text) }),
            ..s
        }),
{
    lemma_kinds_differ();
    lemma_one_block(s, at, "assistant"@, block, o);
    crate::text::lemma_trimmed(text);
}

/// A tool call of the assistant becomes an event with its name, or `unknown`, and
/// its target, and waits for its result; it says nothing where tool calls are off.
pub proof fn a_tool_call_waits_for_its_result(
    s: Session,
    at: Option<Timestamp>,
    message: JsonView,
    block: JsonView,
    o: ParseOptions,
)
    requires
        says(message, "assistant"@, JsonView::Array(seq![block])),
        is_block(block, "tool_use"@),
    ensures
        o.tools == ToolDetail::Off ==> with_message(s, at, message, o) == s,
        o.tools != ToolDetail::Off ==> {
            let t = with_message(s, at, message, o);
            &&& t.events.len() == s.events.len() + 1
            &&& t.events.drop_last() == s.events
            &&& t.events.last() matches EventView::ToolCall {
                at: when,
                name,
                target,
                ok,
                result_preview,
            } && when == at && ok is None && result_preview is None && (block.member(
                "name"@,
            ) matches Some(JsonView::Text(n)) ==> name == n) && (!(block.member(
                "name"@,
            ) matches Some(JsonView::Text(_))) ==> name == "unknown"@) && (block.member(
                "input"@,
            ) matches Some(input) ==> target == target_among(input, target_keys())) && (
            block.member("input"@) is None ==> target is None)
            &&& block.member("id"@) matches Some(JsonView::Text(id)) ==> t.pending
                == s.pending.insert(id, s.events.len())
            &&& !(block.member("id"@) matches Some(JsonView::Text(_))) ==> t.pending == s.pending
            &&& t == (Session { events: t.events, pending: t.pending, ..s })
        },
{
    lemma_kinds_differ();
    lemma_one_block(s, at, "assistant"@, block, o);
    let t = with_message(s, at, message, o);
    if o.tools != ToolDetail::Off {
        assert(t.events.drop_last() =~= s.events);
    }
}

/// The result of a tool call gives the call that waits for it its outcome: failed
/// where it is flagged as an error, else done; with the first line of its text.
/// The call then waits no more. A result that no call waits for says nothing.
pub proof fn a_tool_result_settles_its_call(
    s: Session,
    at: Option<Timestamp>,
    message: JsonView,
    block: JsonView,
    o: ParseOptions,
    id: Seq<char>,
)
    requires
        says(message, "user"@, JsonView::Array(seq![block])),
        is_block(block, "tool_result"@),
    ensures
        !(block.member("tool_use_id"@) matches Some(JsonView::Text(_))) ==> with_message(
            s,
            at,
            message,
            o,
        ) == s,
        block.member("tool_use_id"@) == Some(JsonView::Text(id)) && !s.pending.contains_key(id)
            ==> with_message(s, at, message, o) == s,
        block.member("tool_use_id"@) == Some(JsonView::Text(id)) && s.pending.contains_key(id)
            && s.pending[id] < s.events.len() ==> {
            let t = with_message(s, at, message, o);
            let k = s.pending[id] as int;
            &&& t == (Session { events: t.events, pending: s.pending.remove(id), ..s })
            &&& t.events.len() == s.events.len()
            &&& forall|j: int| 0 <= j < s.events.len() && j != k ==> #[trigger] t.events[j]
                == s.events[j]
            &&& s.events[k] matches EventView::ToolCall { at: when, name, target, .. }
                ==> t.events[k] == (EventView::ToolCall {
                at: when,
                name,
                target,
                ok: Some(block.member("is_error"@) != Some(JsonView::Bool(true))),
                result_preview: match result_text(block) {
                    Some(text) => line_preview(text, 200),
                    None => None,
                },
            })
            &&& !(s.events[k] is ToolCall) ==> t.events[k] == s.events[k]
        },
{
    lemma_kinds_differ();
    lemma_one_block(s, at, "user"@, block, o);
}

/// Whatever is neither a text or a tool result from the user, nor a text, reasoning
/// or a tool call from the assistant, says nothing.
pub proof fn anything_else_says_nothing(
    s: Session,
    at: Option<Timestamp>,
    message: JsonView,
    role: Seq<char>,
    content: JsonView,
    block: JsonView,
    o: ParseOptions,
)
    ensures
        message.member("content"@) is None ==> with_message(s, at, message, o) == s,
        says(message, role, content) && !(content is Text) && !(content is Array) ==> with_message(
            s,
            at,
            message,
            o,
        ) == s,
        says(message, role, content) && content is Text && role != "user"@ ==> with_message(
            s,
            at,
            message,
            o,
        ) == s,
        says(message, role, JsonView::Array(Seq::empty())) ==> with_message(s, at, message, o) == s,
        says(message, role, JsonView::Array(seq![block])) && !(role == "user"@ && (is_block(
            block,
            "text"@,
        ) || is_block(block, "tool_result"@))) && !(role == "assistant"@ && (is_block(
            block,
            "text"@,
        ) || is_block(block, "thinking"@) || is_block(block, "tool_use"@))) ==> with_message(
            s,
            at,
            message,
            o,
        ) == s,
{
    lemma_one_block(s, at, role, block, o);
}

proof fn lemma_strangers_say_nothing(
    s: Session,
    at: Option<Timestamp>,
    role: Seq<char>,
    blocks: Seq<JsonView>,
    o: ParseOptions,
)
    requires
        role != "user"@,
        role != "assistant"@,
    ensures
        with_blocks(s, at, role, blocks, o) == s,
    decreases blocks.len(),
{
    if blocks.len() > 0 {
        lemma_strangers_say_nothing(s, at, role, blocks.drop_last(), o);
    }
}

/// A message of neither the user nor the assistant, or of nobody, says nothing.
pub proof fn a_message_of_anyone_else_says_nothing(
    s: Session,
    at: Option<Timestamp>,
    message: JsonView,
    o: ParseOptions,
)
    requires
        message.member("role"@) != Some(JsonView::Text("user"@)),
        message.member("role"@) != Some(JsonView::Text("assistant"@)),
    ensures
        with_message(s, at, message, o) == s,
{
    let role = match message.member_text("role"@) {
        Some(role) => role,
        None => ""@,
    };
    assert(role != "user"@ && role != "assistant"@) by {
        reveal_strlit("");
        reveal_strlit("user");
        reveal_strlit("assistant");
        assert(""@.len() != "user"@.len() && ""@.len() != "assistant"@.len());
    }
    match message.member("content"@) {
        Some(JsonView::Array(blocks)) => lemma_strangers_say_nothing(s, at, role, blocks, o),
        _ => {},
    }
}

proof fn lemma_blocks_add(
    s: Session,
    at: Option<Timestamp>,
    role: Seq<char>,
    a: Seq<JsonView>,
    b: Seq<JsonView>,
    o: ParseOptions,
)
    ensures
        with_blocks(s, at, role, a + b, o) == with_blocks(
            with_blocks(s, at, role, a, o),
            at,
            role,
            b,
            o,
        ),
    decreases b.len(),
{
    if b.len() == 0 {
        assert(a + b =~= a);
    } else {
        assert((a + b).drop_last() =~= a + b.drop_last());
        assert((a + b).last() == b.last());
        lemma_blocks_add(s, at, role, a, b.drop_last(), o);
    }
}

/// The blocks of a message say one after another what they say: a message with two
/// lists of blocks says what one with the first and then one with the second say.
pub proof fn the_blocks_of_a_message_speak_in_turn(
    s: Session,
    at: Option<Timestamp>,
    role: Seq<char>,
    a: Seq<JsonView>,
    b: Seq<JsonView>,
    first: JsonView,
    second: JsonView,
    both: JsonView,
    o: ParseOptions,
)
    requires
        says(first, role, JsonView::Array(a)),
        says(second, role, JsonView::Array(b)),
        says(both, role, JsonView::Array(a + b)),
    ensures
        with_message(s, at, both, o) == with_message(with_message(s, at, first, o), at, second, o),
{
    lemma_blocks_add(s, at, role, a, b, o);
}

// ---------------------------------------------------------------------------
// Records
// ---------------------------------------------------------------------------

/// A record dates the session: its first time is the start, its last one the end.
/// The first working directory and the first branch with a name are those of the
/// session. None of that depends on the options, nor on whose record it is.
pub proof fn a_record_dates_and_places_the_session(
    s: Session,
    record: JsonView,
    at: Option<Timestamp>,
    o: ParseOptions,
)
    ensures
        ({
            let t = with_record(s, record, at, o);
            &&& t.started_at == (if s.started_at is Some {
                s.started_at
            } else {
                at
            })
            &&& t.ended_at == (if at is Some {
                at
            } else {
                s.ended_at
            })
            &&& s.cwd is Some ==> t.cwd == s.cwd
            &&& s.cwd is None ==> (record.member("cwd"@) matches Some(JsonView::Text(c)) ==> t.cwd
                == Some(c))
            &&& s.cwd is None && !(record.member("cwd"@) matches Some(JsonView::Text(_)))
                ==> t.cwd is None
            &&& s.git_branch is Some ==> t.git_branch == s.git_branch
            &&& s.git_branch is None ==> (record.member(
                "gitBranch"@,
            ) matches Some(JsonView::Text(b)) ==> t.git_branch == (if b.len() > 0 {
                Some(b)
            } else {
                None
            }))
            &&& s.git_branch is None && !(record.member(
                "gitBranch"@,
            ) matches Some(JsonView::Text(_))) ==> t.git_branch is None
            &&& t.skipped_records == s.skipped_records
        }),
{
    let noted = crate::transcripts::with_header(s, at, record);
    match record.member("message"@) {
        Some(message) => {
            lemma_message_keeps_header(noted, at, message, o);
        },
        None => {},
    }
}

proof fn lemma_message_keeps_header(
    s: Session,
    at: Option<Timestamp>,
    message: JsonView,
    o: ParseOptions,
)
    ensures
        ({
            let t = with_message(s, at, message, o);
            &&& t.started_at == s.started_at
            &&& t.ended_at == s.ended_at
            &&& t.cwd == s.cwd
            &&& t.git_branch == s.git_branch
            &&& t.skipped_records == s.skipped_records
        }),
{
    let role = match message.member_text("role"@) {
        Some(role) => role,
        None => ""@,
    };
    match message.member("content"@) {
        Some(JsonView::Array(blocks)) => lemma_blocks_keep_header(s, at, role, blocks, o),
        _ => {},
    }
}

proof fn lemma_blocks_keep_header(
    s: Session,
    at: Option<Timestamp>,
    role: Seq<char>,
    blocks: Seq<JsonView>,
    o: ParseOptions,
)
    ensures
        ({
            let t = with_blocks(s, at, role, blocks, o);
            &&& t.started_at == s.started_at
            &&& t.ended_at == s.ended_at
            &&& t.cwd == s.cwd
            &&& t.git_branch == s.git_branch
            &&& t.skipped_records == s.skipped_records
        }),
    decreases blocks.len(),
{
    if blocks.len() > 0 {
        lemma_blocks_keep_header(s, at, role, blocks.drop_last(), o);
    }
}

/// A record says what its message says. The record of a subagent says only its
/// date and place, unless subagents are asked for, and then what any record says;
/// so does one without a message.
pub proof fn a_record_says_what_its_message_says(
    s: Session,
    record: JsonView,
    at: Option<Timestamp>,
    o: ParseOptions,
    message: JsonView,
)
    ensures
        ({
            let t = with_record(s, record, at, o);
            let silent = record.member("message"@) is None || (record.member("isSidechain"@)
                == Some(JsonView::Bool(true)) && !o.include_sidechains);
            &&& silent ==> t.events == s.events && t.user_turns == s.user_turns
                && t.assistant_turns == s.assistant_turns && t.first_prompt == s.first_prompt
                && t.pending == s.pending
            &&& !silent && record.member("message"@) == Some(message) ==> {
                let noted = Session {
                    started_at: t.started_at,
                    ended_at: t.ended_at,
                    cwd: t.cwd,
                    git_branch: t.git_branch,
                    ..s
                };
                t == with_message(noted, at, message, o)
            }
        }),
{
    a_record_dates_and_places_the_session(s, record, at, o);
    let t = with_record(s, record, at, o);
    let h = crate::transcripts::with_header(s, at, record);
    match record.member("message"@) {
        Some(m) => {
            lemma_message_keeps_header(h, at, m, o);
            let noted = Session {
                started_at: t.started_at,
                ended_at: t.ended_at,
                cwd: t.cwd,
                git_branch: t.git_branch,
                ..s
            };
            assert(noted == h);
        },
        None => {},
    }
}

// ---------------------------------------------------------------------------
// Lines
// ---------------------------------------------------------------------------

/// A line is read as a record where it is within the limit, UTF-8 and, without the
/// carriage returns at its end, a JSON document. A line over the limit is counted
/// as skipped. Any other line says nothing.
pub proof fn a_line_is_read_as_a_record(s: Session, line: Seq<u8>, o: ParseOptions)
    ensures
        line.len() > 4_194_304 ==> with_line(s, line, o) == (Session {
            skipped_records: s.skipped_records + 1,
            ..s
        }),
        line.len() <= 4_194_304 && !vstd::utf8::valid_utf8(line) ==> with_line(s, line, o) == s,
        line.len() <= 4_194_304 && vstd::utf8::valid_utf8(line) ==> {
            let text = crate::text::trim_end_char(vstd::utf8::decode_utf8(line), '\r');
            if crate::text::is_blank(text) || crate::json::json_document(text) is None {
                with_line(s, line, o) == s
            } else {
                let record = crate::json::json_document(text)->0;
                let at = match record.member("timestamp"@) {
                    Some(JsonView::Text(t)) => crate::time::rfc3339_instant(t),
                    _ => None,
                };
                with_line(s, line, o) == with_record(s, record, at, o)
            }
        },
{
}

/// The lines of a transcript are what stands between its newlines: any lines
/// without a newline in them, each ended by one, are read back as they are, and so
/// is a last one that no newline ends.
pub proof fn a_transcript_is_read_line_by_line(lines: Seq<Seq<u8>>, last: Seq<u8>)
    requires
        forall|i: int| 0 <= i < lines.len() ==> is_one_line(#[trigger] lines[i]),
        is_one_line(last),
        last.len() > 0,
    ensures
        all_lines(file_of(lines)) == lines,
        all_lines(file_of(lines) + last) == lines.push(last),
        ended_lines(file_of(lines) + last) == lines,
{
    lemma_lines_of_file(lines);
    lemma_line_after(file_of(lines), last);
}

/// A transcript with one more record says what it said before and then what the
/// record says, with whichever tool calls are wanted. One without records says
/// nothing.
pub proof fn a_transcript_grows_record_by_record(
    lines: Seq<Seq<u8>>,
    line: Seq<u8>,
    o: ParseOptions,
)
    requires
        forall|i: int| 0 <= i < lines.len() ==> is_one_line(#[trigger] lines[i]),
        is_one_line(line),
    ensures
        with_lines(lines.push(line), o) == with_line(with_lines(lines, o), line, o),
        ({
            let s = with_lines(Seq::empty(), o);
            &&& s.events.len() == 0 && s.user_turns == 0 && s.assistant_turns == 0
            &&& s.skipped_records == 0 && s.first_prompt is None && s.cwd is None
            &&& s.git_branch is None && s.started_at is None && s.ended_at is None
        }),
        ({
            let all = with_lines(lines.push(line), o);
            let t = transcript_session(file_of(lines.push(line)), o);
            &&& t == (Session { events: t.events, ..all })
            &&& t.events == all.events.filter(
                |e: EventView|
                    o.tools != ToolDetail::FailuresOnly || !(e is ToolCall) || e->ok == Some(
                        false,
                    ),
            )
        }),
{
    let more = lines.push(line);
    assert(more.drop_last() =~= lines);
    assert forall|i: int| 0 <= i < more.len() implies is_one_line(#[trigger] more[i]) by {
        if i < lines.len() {
            assert(more[i] == lines[i]);
        }
    }
    lemma_lines_of_file(more);
    let all = with_lines(more, o);
    let wanted = |e: EventView|
        o.tools != ToolDetail::FailuresOnly || !(e is ToolCall) || e->ok == Some(false);
    let kept = |e: EventView| stays(e, o.tools);
    assert forall|e: EventView| #[trigger] wanted(e) == kept(e) by {}
    lemma_same_filter(all.events, wanted, kept);
}

proof fn lemma_same_filter(
    s: Seq<EventView>,
    p: spec_fn(EventView) -> bool,
    q: spec_fn(EventView) -> bool,
)
    requires
        forall|e: EventView| #[trigger] p(e) == q(e),
    ensures
        s.filter(p) == s.filter(q),
    decreases s.len(),
{
    reveal(Seq::filter);
    if s.len() > 0 {
        lemma_same_filter(s.drop_last(), p, q);
        assert(p(s.last()) == q(s.last()));
    }
}

/// A transcript whose reading broke off says what its ended records say; a record
/// that was being read says nothing, unless it was over the limit already: then it
/// is counted.
pub proof fn a_broken_off_transcript_loses_the_open_record(
    lines: Seq<Seq<u8>>,
    last: Seq<u8>,
    o: ParseOptions,
)
    requires
        forall|i: int| 0 <= i < lines.len() ==> is_one_line(#[trigger] lines[i]),
        is_one_line(last),
        last.len() > 0,
    ensures
        last.len() <= 4_194_304 ==> broken_off_session(file_of(lines) + last, o)
            == transcript_session(file_of(lines), o),
        last.len() > 4_194_304 ==> broken_off_session(file_of(lines) + last, o)
            == transcript_session(file_of(lines) + last, o),
{
    a_transcript_is_read_line_by_line(lines, last);
    lemma_lines_of_file(lines);
    lemma_line_after(file_of(lines), last);
}

} // verus!
