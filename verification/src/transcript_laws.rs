//! What holds of a parsed transcript as a whole, and under different options.

use crate::json::JsonView;
use crate::time::Timestamp;
use crate::transcripts::{
    all_lines, ended_lines, open_line, record_time, stays, transcript_session, with_block,
    with_blocks, with_header, with_line, with_lines, with_prompt, with_record, EventView,
    ParseOptions, Session, ToolDetail, MAX_RECORD_BYTES, PROMPT_PREVIEW_CHARS,
};
use vstd::prelude::*;

verus! {

/// Whether two sessions have the same metadata and counts.
pub open spec fn same_summary(a: Session, b: Session) -> bool {
    &&& a.cwd == b.cwd
    &&& a.git_branch == b.git_branch
    &&& a.started_at == b.started_at
    &&& a.ended_at == b.ended_at
    &&& a.user_turns == b.user_turns
    &&& a.assistant_turns == b.assistant_turns
    &&& a.first_prompt == b.first_prompt
    &&& a.skipped_records == b.skipped_records
}

/// An event that is no tool call.
pub open spec fn is_prose(e: EventView) -> bool {
    !(e is ToolCall)
}

/// Whether `a` has of `b` everything but the tool calls.
spec fn without_tools(a: Session, b: Session) -> bool {
    &&& same_summary(a, b)
    &&& a.events == b.events.filter(|e: EventView| is_prose(e))
}

proof fn lemma_filter_push<A>(s: Seq<A>, x: A, keep: spec_fn(A) -> bool)
    ensures
        s.push(x).filter(keep) == (if keep(x) {
            s.filter(keep).push(x)
        } else {
            s.filter(keep)
        }),
{
    reveal(Seq::filter);
    assert(s.push(x).drop_last() =~= s);
}

/// An update that changes only elements that are filtered out does not show.
proof fn lemma_filter_update<A>(s: Seq<A>, i: int, x: A, keep: spec_fn(A) -> bool)
    requires
        0 <= i < s.len(),
        x == s[i] || (!keep(x) && !keep(s[i])),
    ensures
        s.update(i, x).filter(keep) == s.filter(keep),
    decreases s.len(),
{
    reveal(Seq::filter);
    let t = s.update(i, x);
    if i == s.len() - 1 {
        assert(t.drop_last() =~= s.drop_last());
    } else {
        lemma_filter_update(s.drop_last(), i, x, keep);
        assert(t.drop_last() =~= s.drop_last().update(i, x));
    }
}

proof fn lemma_filter_all<A>(s: Seq<A>, keep: spec_fn(A) -> bool)
    requires
        forall|i: int| 0 <= i < s.len() ==> keep(#[trigger] s[i]),
    ensures
        s.filter(keep) == s,
    decreases s.len(),
{
    reveal(Seq::filter);
    if s.len() > 0 {
        lemma_filter_all(s.drop_last(), keep);
        assert(s.drop_last().push(s.last()) =~= s);
    } else {
        assert(s.filter(keep) =~= s);
    }
}

// ---------------------------------------------------------------------------
// Metadata
// ---------------------------------------------------------------------------

proof fn lemma_blocks_same_summary(
    a: Session,
    b: Session,
    at: Option<Timestamp>,
    role: Seq<char>,
    blocks: Seq<JsonView>,
    o: ParseOptions,
    p: ParseOptions,
)
    requires
        same_summary(a, b),
    ensures
        same_summary(with_blocks(a, at, role, blocks, o), with_blocks(b, at, role, blocks, p)),
    decreases blocks.len(),
{
    if blocks.len() > 0 {
        lemma_blocks_same_summary(a, b, at, role, blocks.drop_last(), o, p);
    }
}

proof fn lemma_record_same_summary(
    a: Session,
    b: Session,
    record: JsonView,
    at: Option<Timestamp>,
    o: ParseOptions,
    p: ParseOptions,
)
    requires
        same_summary(a, b),
        o.include_sidechains == p.include_sidechains,
    ensures
        same_summary(with_record(a, record, at, o), with_record(b, record, at, p)),
{
    let c = with_header(a, at, record);
    let d = with_header(b, at, record);
    match record.member("message"@) {
        Some(message) => match message.member("content"@) {
            Some(JsonView::Array(blocks)) => {
                let role = match message.member_text("role"@) {
                    Some(role) => role,
                    None => ""@,
                };
                lemma_blocks_same_summary(c, d, at, role, blocks, o, p);
            },
            _ => {},
        },
        None => {},
    }
}

proof fn lemma_lines_same_summary(lines: Seq<Seq<u8>>, o: ParseOptions, p: ParseOptions)
    requires
        o.include_sidechains == p.include_sidechains,
    ensures
        same_summary(with_lines(lines, o), with_lines(lines, p)),
    decreases lines.len(),
{
    if lines.len() > 0 {
        lemma_lines_same_summary(lines.drop_last(), o, p);
        let a = with_lines(lines.drop_last(), o);
        let b = with_lines(lines.drop_last(), p);
        let line = lines.last();
        if line.len() <= MAX_RECORD_BYTES && vstd::utf8::valid_utf8(line) {
            let text = crate::text::trim_end_char(vstd::utf8::decode_utf8(line), '\r');
            match crate::json::json_document(text) {
                Some(record) => lemma_record_same_summary(
                    a,
                    b,
                    record,
                    record_time(record),
                    o,
                    p,
                ),
                None => {},
            }
        }
    }
}

/// The metadata and the counts of a session do not depend on which tool calls
/// are kept, nor on whether reasoning is.
pub proof fn summary_does_not_depend_on_detail(bytes: Seq<u8>, o: ParseOptions, p: ParseOptions)
    requires
        o.include_sidechains == p.include_sidechains,
    ensures
        same_summary(transcript_session(bytes, o), transcript_session(bytes, p)),
{
    lemma_lines_same_summary(all_lines(bytes), o, p);
}

// ---------------------------------------------------------------------------
// Tool calls
// ---------------------------------------------------------------------------

proof fn lemma_block_without_tools(
    a: Session,
    b: Session,
    at: Option<Timestamp>,
    role: Seq<char>,
    block: JsonView,
    o: ParseOptions,
    p: ParseOptions,
)
    requires
        without_tools(a, b),
        a.pending == Map::<Seq<char>, nat>::empty(),
        o.tools == ToolDetail::Off,
        o.include_thinking == p.include_thinking,
    ensures
        without_tools(with_block(a, at, role, block, o), with_block(b, at, role, block, p)),
        with_block(a, at, role, block, o).pending == Map::<Seq<char>, nat>::empty(),
{
    let keep = |e: EventView| is_prose(e);
    let c = with_block(a, at, role, block, o);
    let d = with_block(b, at, role, block, p);
    reveal_strlit("user");
    reveal_strlit("assistant");
    reveal_strlit("text");
    reveal_strlit("tool_result");
    reveal_strlit("thinking");
    reveal_strlit("tool_use");
    assert("user"@.len() != "assistant"@.len());
    assert("text"@.len() != "tool_result"@.len());
    assert("text"@.len() != "thinking"@.len());
    assert("text"@.len() != "tool_use"@.len());
    assert("thinking"@[1] != "tool_use"@[1]);
    if d.events.len() == b.events.len() + 1 {
        lemma_filter_push(b.events, d.events.last(), keep);
        assert(d.events =~= b.events.push(d.events.last()));
    } else if d.events != b.events {
        let id = block.member_text("tool_use_id"@)->0;
        let i = b.pending[id] as int;
        lemma_filter_update(b.events, i, d.events[i], keep);
    }
}

proof fn lemma_blocks_without_tools(
    a: Session,
    b: Session,
    at: Option<Timestamp>,
    role: Seq<char>,
    blocks: Seq<JsonView>,
    o: ParseOptions,
    p: ParseOptions,
)
    requires
        without_tools(a, b),
        a.pending == Map::<Seq<char>, nat>::empty(),
        o.tools == ToolDetail::Off,
        o.include_thinking == p.include_thinking,
    ensures
        without_tools(with_blocks(a, at, role, blocks, o), with_blocks(b, at, role, blocks, p)),
        with_blocks(a, at, role, blocks, o).pending == Map::<Seq<char>, nat>::empty(),
    decreases blocks.len(),
{
    if blocks.len() > 0 {
        lemma_blocks_without_tools(a, b, at, role, blocks.drop_last(), o, p);
        lemma_block_without_tools(
            with_blocks(a, at, role, blocks.drop_last(), o),
            with_blocks(b, at, role, blocks.drop_last(), p),
            at,
            role,
            blocks.last(),
            o,
            p,
        );
    }
}

proof fn lemma_record_without_tools(
    a: Session,
    b: Session,
    record: JsonView,
    at: Option<Timestamp>,
    o: ParseOptions,
    p: ParseOptions,
)
    requires
        without_tools(a, b),
        a.pending == Map::<Seq<char>, nat>::empty(),
        o.tools == ToolDetail::Off,
        o.include_thinking == p.include_thinking,
        o.include_sidechains == p.include_sidechains,
    ensures
        without_tools(with_record(a, record, at, o), with_record(b, record, at, p)),
        with_record(a, record, at, o).pending == Map::<Seq<char>, nat>::empty(),
{
    let keep = |e: EventView| is_prose(e);
    let c = with_header(a, at, record);
    let d = with_header(b, at, record);
    match record.member("message"@) {
        Some(message) => {
            let role = match message.member_text("role"@) {
                Some(role) => role,
                None => ""@,
            };
            match message.member("content"@) {
                Some(JsonView::Array(blocks)) => {
                    lemma_blocks_without_tools(c, d, at, role, blocks, o, p);
                },
                Some(JsonView::Text(text)) => {
                    lemma_filter_push(
                        d.events,
                        EventView::UserPrompt { at, text: crate::text::trim(text) },
                        keep,
                    );
                },
                _ => {},
            }
        },
        None => {},
    }
}

proof fn lemma_lines_without_tools(lines: Seq<Seq<u8>>, o: ParseOptions, p: ParseOptions)
    requires
        o.tools == ToolDetail::Off,
        o.include_thinking == p.include_thinking,
        o.include_sidechains == p.include_sidechains,
    ensures
        without_tools(with_lines(lines, o), with_lines(lines, p)),
        with_lines(lines, o).pending == Map::<Seq<char>, nat>::empty(),
    decreases lines.len(),
{
    if lines.len() > 0 {
        lemma_lines_without_tools(lines.drop_last(), o, p);
        let a = with_lines(lines.drop_last(), o);
        let b = with_lines(lines.drop_last(), p);
        let line = lines.last();
        if line.len() <= MAX_RECORD_BYTES && vstd::utf8::valid_utf8(line) {
            let text = crate::text::trim_end_char(vstd::utf8::decode_utf8(line), '\r');
            match crate::json::json_document(text) {
                Some(record) => lemma_record_without_tools(
                    a,
                    b,
                    record,
                    record_time(record),
                    o,
                    p,
                ),
                None => {},
            }
        }
    } else {
        reveal(Seq::filter);
        assert(Seq::<EventView>::empty().filter(|e: EventView| is_prose(e)) =~= Seq::empty());
    }
}

/// Leaving the tool calls out drops them and nothing else: the prompts, the
/// prose and the reasoning are those of the full trace, in the same order.
pub proof fn tools_off_drops_exactly_the_tool_calls(bytes: Seq<u8>, o: ParseOptions)
    requires
        o.tools == ToolDetail::Off,
    ensures
        transcript_session(bytes, o).events == transcript_session(
            bytes,
            (ParseOptions { tools: ToolDetail::All, ..o }),
        ).events.filter(|e: EventView| is_prose(e)),
{
    let p = ParseOptions { tools: ToolDetail::All, ..o };
    let lines = all_lines(bytes);
    lemma_lines_without_tools(lines, o, p);
    lemma_filter_all(with_lines(lines, o).events, |e: EventView| stays(e, o.tools));
    lemma_filter_all(with_lines(lines, p).events, |e: EventView| stays(e, p.tools));
}

proof fn lemma_blocks_depend_on_off_only(
    s: Session,
    at: Option<Timestamp>,
    role: Seq<char>,
    blocks: Seq<JsonView>,
    o: ParseOptions,
    p: ParseOptions,
)
    requires
        o.include_thinking == p.include_thinking,
        o.tools != ToolDetail::Off,
        p.tools != ToolDetail::Off,
    ensures
        with_blocks(s, at, role, blocks, o) == with_blocks(s, at, role, blocks, p),
    decreases blocks.len(),
{
    if blocks.len() > 0 {
        lemma_blocks_depend_on_off_only(s, at, role, blocks.drop_last(), o, p);
    }
}

proof fn lemma_lines_depend_on_off_only(lines: Seq<Seq<u8>>, o: ParseOptions, p: ParseOptions)
    requires
        o.include_thinking == p.include_thinking,
        o.include_sidechains == p.include_sidechains,
        o.tools != ToolDetail::Off,
        p.tools != ToolDetail::Off,
    ensures
        with_lines(lines, o) == with_lines(lines, p),
    decreases lines.len(),
{
    if lines.len() > 0 {
        lemma_lines_depend_on_off_only(lines.drop_last(), o, p);
        let s = with_lines(lines.drop_last(), o);
        let line = lines.last();
        let text = crate::text::trim_end_char(vstd::utf8::decode_utf8(line), '\r');
        match crate::json::json_document(text) {
            Some(record) => {
                let at = record_time(record);
                let noted = with_header(s, at, record);
                match record.member("message"@) {
                    Some(message) => {
                        let role = match message.member_text("role"@) {
                            Some(role) => role,
                            None => ""@,
                        };
                        match message.member("content"@) {
                            Some(JsonView::Array(blocks)) => {
                                lemma_blocks_depend_on_off_only(noted, at, role, blocks, o, p);
                            },
                            _ => {},
                        }
                    },
                    None => {},
                }
            },
            None => {},
        }
    }
}

/// Keeping the failures only takes the full trace and drops every tool call
/// that is not known to have failed: prose is untouched, and every failure
/// stays with its outcome and its preview.
pub proof fn failures_only_is_the_full_trace_filtered(bytes: Seq<u8>, o: ParseOptions)
    requires
        o.tools == ToolDetail::FailuresOnly,
    ensures
        transcript_session(bytes, o).events == transcript_session(
            bytes,
            (ParseOptions { tools: ToolDetail::All, ..o }),
        ).events.filter(|e: EventView| stays(e, ToolDetail::FailuresOnly)),
{
    let p = ParseOptions { tools: ToolDetail::All, ..o };
    let lines = all_lines(bytes);
    lemma_lines_depend_on_off_only(lines, o, p);
    lemma_filter_all(with_lines(lines, p).events, |e: EventView| stays(e, p.tools));
}

// ---------------------------------------------------------------------------
// Turns
// ---------------------------------------------------------------------------

/// The human prompts among events.
pub open spec fn prompts(events: Seq<EventView>) -> Seq<EventView> {
    events.filter(|e: EventView| e is UserPrompt)
}

/// The assistant's prose among events.
pub open spec fn replies(events: Seq<EventView>) -> Seq<EventView> {
    events.filter(|e: EventView| e is AssistantText)
}

/// Whether the counts of turns are the numbers of prompts and of replies, and
/// the first prompt is that of the first one, shortened.
pub open spec fn is_tallied(s: Session) -> bool {
    &&& s.user_turns == prompts(s.events).len()
    &&& s.assistant_turns == replies(s.events).len()
    &&& s.first_prompt == (if prompts(s.events).len() == 0 {
        None
    } else {
        Some(
            crate::preview::shortened(
                prompts(s.events)[0]->UserPrompt_text,
                PROMPT_PREVIEW_CHARS as int,
            ),
        )
    })
}

proof fn lemma_tally_push(events: Seq<EventView>, e: EventView)
    ensures
        prompts(events.push(e)) == (if e is UserPrompt {
            prompts(events).push(e)
        } else {
            prompts(events)
        }),
        replies(events.push(e)) == (if e is AssistantText {
            replies(events).push(e)
        } else {
            replies(events)
        }),
{
    lemma_filter_push(events, e, |e: EventView| e is UserPrompt);
    lemma_filter_push(events, e, |e: EventView| e is AssistantText);
}

proof fn lemma_prompt_tallied(s: Session, at: Option<Timestamp>, raw: Seq<char>)
    requires
        is_tallied(s),
    ensures
        is_tallied(with_prompt(s, at, raw)),
{
    lemma_tally_push(
        s.events,
        EventView::UserPrompt { at, text: crate::text::trim(raw) },
    );
}

proof fn lemma_block_tallied(
    s: Session,
    at: Option<Timestamp>,
    role: Seq<char>,
    block: JsonView,
    o: ParseOptions,
)
    requires
        is_tallied(s),
    ensures
        is_tallied(with_block(s, at, role, block, o)),
{
    let d = with_block(s, at, role, block, o);
    if role == "user"@ && block.member_text("type"@) == Some("text"@) {
        match block.member_text("text"@) {
            Some(text) => lemma_prompt_tallied(s, at, text),
            None => {},
        }
    } else if d.events.len() == s.events.len() + 1 {
        lemma_tally_push(s.events, d.events.last());
        assert(d.events =~= s.events.push(d.events.last()));
    } else if d.events != s.events {
        let id = block.member_text("tool_use_id"@)->0;
        let i = s.pending[id] as int;
        lemma_filter_update(s.events, i, d.events[i], |e: EventView| e is UserPrompt);
        lemma_filter_update(s.events, i, d.events[i], |e: EventView| e is AssistantText);
    }
}

proof fn lemma_blocks_tallied(
    s: Session,
    at: Option<Timestamp>,
    role: Seq<char>,
    blocks: Seq<JsonView>,
    o: ParseOptions,
)
    requires
        is_tallied(s),
    ensures
        is_tallied(with_blocks(s, at, role, blocks, o)),
    decreases blocks.len(),
{
    if blocks.len() > 0 {
        let before = with_blocks(s, at, role, blocks.drop_last(), o);
        lemma_blocks_tallied(s, at, role, blocks.drop_last(), o);
        lemma_block_tallied(before, at, role, blocks.last(), o);
    }
}

proof fn lemma_lines_tallied(lines: Seq<Seq<u8>>, o: ParseOptions)
    ensures
        is_tallied(with_lines(lines, o)),
    decreases lines.len(),
{
    if lines.len() == 0 {
        reveal(Seq::filter);
    } else {
        lemma_lines_tallied(lines.drop_last(), o);
        let s = with_lines(lines.drop_last(), o);
        let line = lines.last();
        let text = crate::text::trim_end_char(vstd::utf8::decode_utf8(line), '\r');
        match crate::json::json_document(text) {
            Some(record) => {
                let at = record_time(record);
                let noted = with_header(s, at, record);
                assert(is_tallied(noted));
                match record.member("message"@) {
                    Some(message) => {
                        let role = match message.member_text("role"@) {
                            Some(role) => role,
                            None => ""@,
                        };
                        match message.member("content"@) {
                            Some(JsonView::Array(blocks)) => {
                                lemma_blocks_tallied(noted, at, role, blocks, o);
                            },
                            Some(JsonView::Text(text)) => {
                                lemma_prompt_tallied(noted, at, text);
                            },
                            _ => {},
                        }
                    },
                    None => {},
                }
            },
            None => {},
        }
    }
}

/// The counts of turns are the numbers of prompts and of replies among the
/// events, and the first prompt is the first of these prompts, shortened; none
/// where there is no prompt. This holds whatever detail is kept.
pub proof fn turns_are_the_prompts_and_the_replies(bytes: Seq<u8>, o: ParseOptions)
    ensures
        is_tallied(transcript_session(bytes, o)),
{
    let s = with_lines(all_lines(bytes), o);
    let kept = |e: EventView| stays(e, o.tools);
    lemma_lines_tallied(all_lines(bytes), o);
    crate::seqs::lemma_filter_twice(s.events, kept, |e: EventView| e is UserPrompt);
    crate::seqs::lemma_filter_twice(s.events, kept, |e: EventView| e is AssistantText);
}

// ---------------------------------------------------------------------------
// Records over the limit
// ---------------------------------------------------------------------------

/// Whether a record is within the limit.
pub open spec fn fits(line: Seq<u8>) -> bool {
    line.len() <= MAX_RECORD_BYTES
}

/// The bytes of a transcript with the given records, each ended by a newline.
pub open spec fn file_of(lines: Seq<Seq<u8>>) -> Seq<u8>
    decreases lines.len(),
{
    if lines.len() == 0 {
        Seq::empty()
    } else {
        file_of(lines.drop_last()) + lines.last().push(10u8)
    }
}

/// A record holds no newline.
pub open spec fn is_one_line(line: Seq<u8>) -> bool {
    forall|i: int| 0 <= i < line.len() ==> #[trigger] line[i] != 10u8
}

proof fn lemma_lines_are_single(bytes: Seq<u8>)
    ensures
        is_one_line(open_line(bytes)),
        forall|i: int|
            0 <= i < ended_lines(bytes).len() ==> is_one_line(#[trigger] ended_lines(bytes)[i]),
    decreases bytes.len(),
{
    if bytes.len() > 0 {
        let before = bytes.drop_last();
        lemma_lines_are_single(before);
        assert forall|i: int| 0 <= i < ended_lines(bytes).len() implies is_one_line(
            #[trigger] ended_lines(bytes)[i],
        ) by {
            if i < ended_lines(before).len() {
                assert(ended_lines(bytes)[i] == ended_lines(before)[i]);
            } else {
                assert(ended_lines(bytes)[i] == open_line(before));
            }
        }
    }
}

pub(crate) proof fn lemma_line_after(head: Seq<u8>, line: Seq<u8>)
    requires
        head.len() == 0 || head.last() == 10u8,
        is_one_line(line),
    ensures
        open_line(head + line) == line,
        ended_lines(head + line) == ended_lines(head),
    decreases line.len(),
{
    let all = head + line;
    if line.len() == 0 {
        assert(all =~= head);
        assert(open_line(all) =~= line);
    } else {
        let before = line.drop_last();
        assert forall|i: int| 0 <= i < before.len() implies #[trigger] before[i] != 10u8 by {
            assert(before[i] == line[i]);
        }
        lemma_line_after(head, before);
        assert(all.drop_last() =~= head + before);
        assert(all.last() == line[line.len() - 1]);
        assert(before.push(line.last()) =~= line);
    }
}

pub(crate) proof fn lemma_lines_of_file(lines: Seq<Seq<u8>>)
    requires
        forall|i: int| 0 <= i < lines.len() ==> is_one_line(#[trigger] lines[i]),
    ensures
        ended_lines(file_of(lines)) == lines,
        open_line(file_of(lines)).len() == 0,
        file_of(lines).len() == 0 || file_of(lines).last() == 10u8,
    decreases lines.len(),
{
    if lines.len() == 0 {
        assert(ended_lines(file_of(lines)) =~= lines);
    } else {
        let before = lines.drop_last();
        let line = lines.last();
        assert forall|i: int| 0 <= i < before.len() implies is_one_line(#[trigger] before[i]) by {
            assert(before[i] == lines[i]);
        }
        lemma_lines_of_file(before);
        assert(is_one_line(lines[lines.len() - 1]));
        lemma_line_after(file_of(before), line);
        let all = file_of(lines);
        assert(all.drop_last() =~= file_of(before) + line);
        assert(all.last() == 10u8);
        assert(before.push(line) =~= lines);
    }
}

proof fn lemma_skipped(lines: Seq<Seq<u8>>, o: ParseOptions)
    ensures
        with_lines(lines, o).skipped_records == lines.filter(|l: Seq<u8>| !fits(l)).len(),
        with_lines(lines, o) == (Session {
            skipped_records: with_lines(lines, o).skipped_records,
            ..with_lines(lines.filter(|l: Seq<u8>| fits(l)), o)
        }),
        with_lines(lines.filter(|l: Seq<u8>| fits(l)), o).skipped_records == 0,
    decreases lines.len(),
{
    let short = |l: Seq<u8>| fits(l);
    reveal(Seq::filter);
    if lines.len() > 0 {
        let before = lines.drop_last();
        let line = lines.last();
        let a = with_lines(before, o);
        let b = with_lines(before.filter(short), o);
        lemma_skipped(before, o);
        if fits(line) {
            let kept = before.filter(short).push(line);
            assert(kept.drop_last() =~= before.filter(short));
            lemma_line_keeps_skipped(a, b, line, o);
        }
    }
}

/// What a record within the limit says does not depend on how many were skipped.
proof fn lemma_line_keeps_skipped(a: Session, b: Session, line: Seq<u8>, o: ParseOptions)
    requires
        fits(line),
        a == (Session { skipped_records: a.skipped_records, ..b }),
    ensures
        with_line(a, line, o).skipped_records == a.skipped_records,
        with_line(b, line, o).skipped_records == b.skipped_records,
        with_line(a, line, o) == (Session {
            skipped_records: a.skipped_records,
            ..with_line(b, line, o)
        }),
{
    let text = crate::text::trim_end_char(vstd::utf8::decode_utf8(line), '\r');
    match crate::json::json_document(text) {
        Some(record) => {
            let at = record_time(record);
            let c = with_header(a, at, record);
            let d = with_header(b, at, record);
            match record.member("message"@) {
                Some(message) => {
                    let role = match message.member_text("role"@) {
                        Some(role) => role,
                        None => ""@,
                    };
                    match message.member("content"@) {
                        Some(JsonView::Array(blocks)) => {
                            lemma_blocks_keep_skipped(c, d, at, role, blocks, o);
                        },
                        _ => {},
                    }
                },
                None => {},
            }
        },
        None => {},
    }
}

proof fn lemma_blocks_keep_skipped(
    a: Session,
    b: Session,
    at: Option<Timestamp>,
    role: Seq<char>,
    blocks: Seq<JsonView>,
    o: ParseOptions,
)
    requires
        a == (Session { skipped_records: a.skipped_records, ..b }),
    ensures
        with_blocks(a, at, role, blocks, o).skipped_records == a.skipped_records,
        with_blocks(b, at, role, blocks, o).skipped_records == b.skipped_records,
        with_blocks(a, at, role, blocks, o) == (Session {
            skipped_records: a.skipped_records,
            ..with_blocks(b, at, role, blocks, o)
        }),
    decreases blocks.len(),
{
    if blocks.len() > 0 {
        lemma_blocks_keep_skipped(a, b, at, role, blocks.drop_last(), o);
    }
}

/// The number of skipped records is that of the records over the limit, and
/// everything else that a transcript says is what the file says without just
/// these records.
pub proof fn skipping_is_removing_the_long_records(bytes: Seq<u8>, o: ParseOptions)
    ensures
        transcript_session(bytes, o).skipped_records == all_lines(bytes).filter(
            |l: Seq<u8>| !fits(l),
        ).len(),
        transcript_session(bytes, o) == (Session {
            skipped_records: transcript_session(bytes, o).skipped_records,
            ..transcript_session(file_of(all_lines(bytes).filter(|l: Seq<u8>| fits(l))), o)
        }),
        all_lines(file_of(all_lines(bytes).filter(|l: Seq<u8>| fits(l)))) == all_lines(
            bytes,
        ).filter(|l: Seq<u8>| fits(l)),
{
    let lines = all_lines(bytes);
    let short = |l: Seq<u8>| fits(l);
    let kept = lines.filter(short);
    lemma_lines_are_single(bytes);
    assert forall|i: int| 0 <= i < lines.len() implies is_one_line(#[trigger] lines[i]) by {
        if i < ended_lines(bytes).len() {
            assert(lines[i] == ended_lines(bytes)[i]);
        }
    }
    assert forall|i: int| 0 <= i < kept.len() implies is_one_line(#[trigger] kept[i]) by {
        assert(kept.contains(kept[i]));
        crate::seqs::lemma_filter_contains(lines, short, kept[i]);
        let j = choose|j: int| 0 <= j < lines.len() && lines[j] == kept[i];
        assert(is_one_line(lines[j]));
    }
    lemma_lines_of_file(kept);
    lemma_skipped(lines, o);
}

} // verus!
