//! Reading session transcripts.
//!
//! A transcript is an append-only file of JSON records, one on a line. Most of
//! its bytes are tool traffic; what is worth keeping are the prompts and
//! replies. [`SessionParser`] turns the bytes into a normalized stream of
//! [`Event`]s: prompts and prose as they stand, each tool call reduced to a
//! name and a short target, each result to its first line, with the failure
//! flag kept.
//!
//! Reading is lenient. A line that is not UTF-8, not JSON, or of an unexpected
//! shape is passed over: one bad line must not cost the whole session.

use crate::json::{parse_json, Json};
use crate::preview::{
    first_line_preview, is_synthetic_prompt, tool_result_text, tool_target, truncate_chars,
};
use crate::seqs::reversed;
use crate::text::{blank, decode_text, same_text, to_chars, trimmed, trimmed_end_char};
use crate::time::{parse_rfc3339, Timestamp};
use vstd::hash_map::StringHashMap;
use vstd::prelude::*;

verus! {

broadcast use vstd::string::group_string_axioms;

/// Preview length for the first user prompt of a session.
pub const PROMPT_PREVIEW_CHARS: usize = 160;

/// Preview length kept from a tool result.
pub const RESULT_PREVIEW_CHARS: usize = 200;

/// Largest single record that is held in memory: 4 MiB.
///
/// A pasted screenshot is the one ordinary record that runs to megabytes; this
/// clears a realistic one and still bounds what one hostile line can cost.
pub const MAX_RECORD_BYTES: usize = 4_194_304;

// ---------------------------------------------------------------------------
// Types
// ---------------------------------------------------------------------------

/// Metadata of one session transcript.
#[derive(Debug, Clone)]
pub struct SessionSummary {
    /// Session id: the transcript's file stem.
    pub session_id: String,
    /// Path of the transcript.
    pub transcript_path: String,
    /// Working directory recorded inside the transcript, which decides to
    /// which project it belongs; `None` when no record carried one.
    pub cwd: Option<String>,
    /// Git branch recorded in the transcript.
    pub git_branch: Option<String>,
    /// Time of the first timestamped record.
    pub started_at: Option<Timestamp>,
    /// Time of the last timestamped record.
    pub ended_at: Option<Timestamp>,
    /// Human turns: user messages that are real prompts.
    pub user_turns: usize,
    /// Assistant messages carrying prose.
    pub assistant_turns: usize,
    /// Transcript size on disk, in bytes.
    pub bytes: u64,
    /// Shortened text of the first human prompt.
    pub first_prompt: Option<String>,
    /// Records dropped whole for exceeding [`MAX_RECORD_BYTES`]. Every other
    /// count is then a lower bound.
    pub skipped_records: usize,
}

/// One event of a transcript.
#[derive(Debug, Clone)]
pub enum Event {
    /// A human prompt.
    UserPrompt { at: Option<Timestamp>, text: String },
    /// Assistant prose.
    AssistantText { at: Option<Timestamp>, text: String },
    /// Assistant reasoning.
    Thinking { at: Option<Timestamp>, text: String },
    /// A tool invocation reduced to name and target, with the outcome of its
    /// result if one was found.
    ToolCall {
        at: Option<Timestamp>,
        name: String,
        /// File path, command, pattern or the like.
        target: Option<String>,
        /// `Some(false)` when the result was flagged as an error, `Some(true)`
        /// on success, `None` when no result was found.
        ok: Option<bool>,
        /// Start of the result's first line.
        result_preview: Option<String>,
    },
}

/// How much of the tool trace to keep.
#[derive(Debug, Clone, Copy, PartialEq, Eq, Structural)]
pub enum ToolDetail {
    /// Every tool call.
    All,
    /// Only calls whose result came back an error. A call whose result never
    /// arrived is not a known failure and is dropped with the rest.
    FailuresOnly,
    /// No tool calls.
    Off,
}

/// What to keep when parsing a transcript.
#[derive(Debug, Clone, Copy)]
pub struct ParseOptions {
    /// Keep assistant reasoning.
    pub include_thinking: bool,
    /// Keep the turns of subagents.
    pub include_sidechains: bool,
    /// Which tool calls survive.
    pub tools: ToolDetail,
}

impl Default for ParseOptions {
    fn default() -> (r: Self)
        ensures
            r == (ParseOptions {
                include_thinking: false,
                include_sidechains: false,
                tools: ToolDetail::All,
            }),
    {
        ParseOptions { include_thinking: false, include_sidechains: false, tools: ToolDetail::All }
    }
}

/// A parsed transcript: metadata and events.
#[derive(Debug, Clone)]
pub struct ParsedSession {
    pub summary: SessionSummary,
    pub events: Vec<Event>,
}

/// The mathematical value of an event.
pub enum EventView {
    UserPrompt { at: Option<Timestamp>, text: Seq<char> },
    AssistantText { at: Option<Timestamp>, text: Seq<char> },
    Thinking { at: Option<Timestamp>, text: Seq<char> },
    ToolCall {
        at: Option<Timestamp>,
        name: Seq<char>,
        target: Option<Seq<char>>,
        ok: Option<bool>,
        result_preview: Option<Seq<char>>,
    },
}

impl View for Event {
    type V = EventView;

    open spec fn view(&self) -> EventView {
        match *self {
            Event::UserPrompt { at, text } => EventView::UserPrompt { at, text: text@ },
            Event::AssistantText { at, text } => EventView::AssistantText { at, text: text@ },
            Event::Thinking { at, text } => EventView::Thinking { at, text: text@ },
            Event::ToolCall { at, name, target, ok, result_preview } => EventView::ToolCall {
                at,
                name: name@,
                target: crate::text::opt_text(target),
                ok,
                result_preview: crate::text::opt_text(result_preview),
            },
        }
    }
}

/// The mathematical values of a sequence of events.
pub open spec fn event_views(events: Seq<Event>) -> Seq<EventView> {
    Seq::new(events.len(), |i: int| events[i]@)
}

impl Event {
    /// Time of the record that the event comes from.
    pub fn at(&self) -> (r: Option<Timestamp>)
        ensures
            r == (match self@ {
                EventView::UserPrompt { at, .. } => at,
                EventView::AssistantText { at, .. } => at,
                EventView::Thinking { at, .. } => at,
                EventView::ToolCall { at, .. } => at,
            }),
    {
        match self {
            Event::UserPrompt { at, .. } => *at,
            Event::AssistantText { at, .. } => *at,
            Event::Thinking { at, .. } => *at,
            Event::ToolCall { at, .. } => *at,
        }
    }
}

// ---------------------------------------------------------------------------
// What a transcript says
// ---------------------------------------------------------------------------

/// What has been gathered from the records read so far.
pub struct Session {
    pub cwd: Option<Seq<char>>,
    pub git_branch: Option<Seq<char>>,
    pub started_at: Option<Timestamp>,
    pub ended_at: Option<Timestamp>,
    pub user_turns: nat,
    pub assistant_turns: nat,
    pub first_prompt: Option<Seq<char>>,
    pub skipped_records: nat,
    pub events: Seq<EventView>,
    /// For each tool call that still waits for its result, the position of its
    /// event.
    pub pending: Map<Seq<char>, nat>,
}

/// Nothing read yet.
pub open spec fn empty_session() -> Session {
    Session {
        cwd: None,
        git_branch: None,
        started_at: None,
        ended_at: None,
        user_turns: 0,
        assistant_turns: 0,
        first_prompt: None,
        skipped_records: 0,
        events: Seq::empty(),
        pending: Map::empty(),
    }
}

/// A human prompt: it counts as a turn and becomes an event, unless it is
/// blank or made by the harness.
pub open spec fn with_prompt(s: Session, at: Option<Timestamp>, raw: Seq<char>) -> Session {
    let text = crate::text::trim(raw);
    if text.len() == 0 || crate::preview::synthetic(text) {
        s
    } else {
        Session {
            user_turns: s.user_turns + 1,
            first_prompt: match s.first_prompt {
                Some(p) => Some(p),
                None => Some(crate::preview::shortened(text, PROMPT_PREVIEW_CHARS as int)),
            },
            events: s.events.push(EventView::UserPrompt { at, text }),
            ..s
        }
    }
}

/// The event with the outcome of its result; only a tool call has one.
pub open spec fn with_outcome(
    e: EventView,
    outcome: bool,
    preview: Option<Seq<char>>,
) -> EventView {
    match e {
        EventView::ToolCall { at, name, target, .. } => EventView::ToolCall {
            at,
            name,
            target,
            ok: Some(outcome),
            result_preview: preview,
        },
        _ => e,
    }
}

/// A tool result: it gives the call that waits for it its outcome.
pub open spec fn with_tool_result(s: Session, block: crate::json::JsonView) -> Session {
    match block.member_text("tool_use_id"@) {
        Some(id) if s.pending.contains_key(id) => {
            let at = s.pending[id];
            let outcome = !block.member_is_true("is_error"@);
            let preview = match crate::preview::result_text(block) {
                Some(t) => crate::preview::line_preview(t, RESULT_PREVIEW_CHARS as int),
                None => None,
            };
            Session {
                events: if at < s.events.len() {
                    s.events.update(
                        at as int,
                        with_outcome(s.events[at as int], outcome, preview),
                    )
                } else {
                    s.events
                },
                pending: s.pending.remove(id),
                ..s
            }
        },
        _ => s,
    }
}

/// A tool call: it becomes an event without an outcome, and waits for its
/// result under its id.
pub open spec fn with_tool_use(
    s: Session,
    at: Option<Timestamp>,
    block: crate::json::JsonView,
) -> Session {
    Session {
        events: s.events.push(
            EventView::ToolCall {
                at,
                name: match block.member_text("name"@) {
                    Some(name) => name,
                    None => "unknown"@,
                },
                target: match block.member("input"@) {
                    Some(input) => crate::preview::target_among(
                        input,
                        crate::preview::target_keys(),
                    ),
                    None => None,
                },
                ok: None,
                result_preview: None,
            },
        ),
        pending: match block.member_text("id"@) {
            Some(id) => s.pending.insert(id, s.events.len()),
            None => s.pending,
        },
        ..s
    }
}

/// One block of a message.
pub open spec fn with_block(
    s: Session,
    at: Option<Timestamp>,
    role: Seq<char>,
    block: crate::json::JsonView,
    opts: ParseOptions,
) -> Session {
    let kind = block.member_text("type"@);
    if role == "user"@ && kind == Some("text"@) {
        match block.member_text("text"@) {
            Some(text) => with_prompt(s, at, text),
            None => s,
        }
    } else if role == "user"@ && kind == Some("tool_result"@) {
        with_tool_result(s, block)
    } else if role == "assistant"@ && kind == Some("text"@) {
        match block.member_text("text"@) {
            Some(text) if !crate::text::is_blank(text) => Session {
                assistant_turns: s.assistant_turns + 1,
                events: s.events.push(
                    EventView::AssistantText { at, text: crate::text::trim(text) },
                ),
                ..s
            },
            _ => s,
        }
    } else if role == "assistant"@ && kind == Some("thinking"@) && opts.include_thinking {
        match block.member_text("thinking"@) {
            Some(text) if !crate::text::is_blank(text) => Session {
                events: s.events.push(EventView::Thinking { at, text: crate::text::trim(text) }),
                ..s
            },
            _ => s,
        }
    } else if role == "assistant"@ && kind == Some("tool_use"@) && opts.tools != ToolDetail::Off {
        with_tool_use(s, at, block)
    } else {
        s
    }
}

/// The blocks of a message, one after another.
pub open spec fn with_blocks(
    s: Session,
    at: Option<Timestamp>,
    role: Seq<char>,
    blocks: Seq<crate::json::JsonView>,
    opts: ParseOptions,
) -> Session
    decreases blocks.len(),
{
    if blocks.len() == 0 {
        s
    } else {
        with_block(
            with_blocks(s, at, role, blocks.drop_last(), opts),
            at,
            role,
            blocks.last(),
            opts,
        )
    }
}

/// A message: a bare string from the user is a prompt, an array is a list of
/// blocks, and anything else is passed over.
pub open spec fn with_message(
    s: Session,
    at: Option<Timestamp>,
    message: crate::json::JsonView,
    opts: ParseOptions,
) -> Session {
    let role = match message.member_text("role"@) {
        Some(role) => role,
        None => ""@,
    };
    match message.member("content"@) {
        Some(crate::json::JsonView::Text(text)) if role == "user"@ => with_prompt(s, at, text),
        Some(crate::json::JsonView::Array(blocks)) => with_blocks(s, at, role, blocks, opts),
        _ => s,
    }
}

/// What a record says of the session as a whole: its time, and the working
/// directory and branch where they are not known yet.
pub open spec fn with_header(
    s: Session,
    at: Option<Timestamp>,
    record: crate::json::JsonView,
) -> Session {
    Session {
        started_at: match s.started_at {
            Some(t) => Some(t),
            None => at,
        },
        ended_at: match at {
            Some(t) => Some(t),
            None => s.ended_at,
        },
        cwd: match s.cwd {
            Some(c) => Some(c),
            None => record.member_text("cwd"@),
        },
        git_branch: match s.git_branch {
            Some(b) => Some(b),
            None => match record.member_text("gitBranch"@) {
                Some(b) if b.len() > 0 => Some(b),
                _ => None,
            },
        },
        ..s
    }
}

/// One record, with the time that its `timestamp` denotes.
pub open spec fn with_record(
    s: Session,
    record: crate::json::JsonView,
    at: Option<Timestamp>,
    opts: ParseOptions,
) -> Session {
    let noted = with_header(s, at, record);
    if record.member_is_true("isSidechain"@) && !opts.include_sidechains {
        noted
    } else {
        match record.member("message"@) {
            Some(message) => with_message(noted, at, message, opts),
            None => noted,
        }
    }
}

/// The instant that a record's `timestamp` denotes.
pub open spec fn record_time(record: crate::json::JsonView) -> Option<Timestamp> {
    match record.member_text("timestamp"@) {
        Some(text) => crate::time::rfc3339_instant(text),
        None => None,
    }
}

/// One line of a transcript, without its newline. A line over the limit counts
/// as skipped; one that is not UTF-8, blank or not JSON is passed over.
pub open spec fn with_line(s: Session, line: Seq<u8>, opts: ParseOptions) -> Session {
    if line.len() > MAX_RECORD_BYTES {
        Session { skipped_records: s.skipped_records + 1, ..s }
    } else if !vstd::utf8::valid_utf8(line) {
        s
    } else {
        let text = crate::text::trim_end_char(vstd::utf8::decode_utf8(line), '\r');
        if crate::text::is_blank(text) {
            s
        } else {
            match crate::json::json_document(text) {
                Some(record) => with_record(s, record, record_time(record), opts),
                None => s,
            }
        }
    }
}

/// The lines of a transcript, one after another.
pub open spec fn with_lines(lines: Seq<Seq<u8>>, opts: ParseOptions) -> Session
    decreases lines.len(),
{
    if lines.len() == 0 {
        empty_session()
    } else {
        with_line(with_lines(lines.drop_last(), opts), lines.last(), opts)
    }
}

/// The bytes after the last newline.
pub open spec fn open_line(bytes: Seq<u8>) -> Seq<u8>
    decreases bytes.len(),
{
    if bytes.len() == 0 || bytes.last() == 10u8 {
        Seq::empty()
    } else {
        open_line(bytes.drop_last()).push(bytes.last())
    }
}

/// The lines that a newline ends, each without its newline.
pub open spec fn ended_lines(bytes: Seq<u8>) -> Seq<Seq<u8>>
    decreases bytes.len(),
{
    if bytes.len() == 0 {
        Seq::empty()
    } else if bytes.last() == 10u8 {
        ended_lines(bytes.drop_last()).push(open_line(bytes.drop_last()))
    } else {
        ended_lines(bytes.drop_last())
    }
}

/// All lines, the last one also where no newline ends it.
pub open spec fn all_lines(bytes: Seq<u8>) -> Seq<Seq<u8>> {
    if open_line(bytes).len() == 0 {
        ended_lines(bytes)
    } else {
        ended_lines(bytes).push(open_line(bytes))
    }
}

/// Whether an event stays under the given detail of tool calls.
pub open spec fn stays(e: EventView, tools: ToolDetail) -> bool {
    match e {
        EventView::ToolCall { ok, .. } => tools != ToolDetail::FailuresOnly || ok == Some(false),
        _ => true,
    }
}

/// What the bytes of a transcript say.
pub open spec fn transcript_session(bytes: Seq<u8>, opts: ParseOptions) -> Session {
    let s = with_lines(all_lines(bytes), opts);
    Session { events: s.events.filter(|e: EventView| stays(e, opts.tools)), ..s }
}

/// What a transcript says whose reading broke off after these bytes: a record
/// that no newline has ended is left out, unless it is too long already.
pub open spec fn broken_off_session(bytes: Seq<u8>, opts: ParseOptions) -> Session {
    let lines = if open_line(bytes).len() > MAX_RECORD_BYTES {
        all_lines(bytes)
    } else {
        ended_lines(bytes)
    };
    let s = with_lines(lines, opts);
    Session { events: s.events.filter(|e: EventView| stays(e, opts.tools)), ..s }
}

// ---------------------------------------------------------------------------
// Gathering
// ---------------------------------------------------------------------------

/// What has been gathered from the records read so far.
pub struct Progress {
    cwd: Option<String>,
    git_branch: Option<String>,
    started_at: Option<Timestamp>,
    ended_at: Option<Timestamp>,
    user_turns: usize,
    assistant_turns: usize,
    first_prompt: Option<String>,
    skipped_records: usize,
    events: Vec<Event>,
    pending: StringHashMap<usize>,
}

/// The positions as mathematical numbers.
pub closed spec fn positions(m: Map<Seq<char>, usize>) -> Map<Seq<char>, nat> {
    Map::new(|k: Seq<char>| m.contains_key(k), |k: Seq<char>| m[k] as nat)
}

impl Progress {
    /// The mathematical value of what has been gathered.
    pub closed spec fn session(&self) -> Session {
        Session {
            cwd: crate::text::opt_text(self.cwd),
            git_branch: crate::text::opt_text(self.git_branch),
            started_at: self.started_at,
            ended_at: self.ended_at,
            user_turns: self.user_turns as nat,
            assistant_turns: self.assistant_turns as nat,
            first_prompt: crate::text::opt_text(self.first_prompt),
            skipped_records: self.skipped_records as nat,
            events: event_views(self.events@),
            pending: positions(self.pending@),
        }
    }

    /// Every counted turn has its event.
    pub closed spec fn well_formed(&self) -> bool {
        self.user_turns + self.assistant_turns <= self.events@.len()
    }

    /// Nothing read yet.
    pub fn new() -> (r: Progress)
        ensures
            r.well_formed(),
            r.session() == empty_session(),
    {
        let r = Progress {
            cwd: None,
            git_branch: None,
            started_at: None,
            ended_at: None,
            user_turns: 0,
            assistant_turns: 0,
            first_prompt: None,
            skipped_records: 0,
            events: Vec::new(),
            pending: StringHashMap::new(),
        };
        proof {
            assert(r.session().events =~= Seq::empty());
            assert(r.session().pending =~= Map::empty());
        }
        r
    }

    fn push_event(&mut self, e: Event)
        ensures
            final(self).events@ == old(self).events@.push(e),
            final(self).session() == (Session {
                events: old(self).session().events.push(e@),
                ..old(self).session()
            }),
            *final(self) == (Progress { events: final(self).events, ..*old(self) }),
            final(self).events@.len() <= usize::MAX,
    {
        self.events.push(e);
        assert(self.events.len() == self.events@.len());
        assert(event_views(self.events@) =~= event_views(old(self).events@).push(e@));
    }

    /// Records a human prompt, keeping the first one for the preview.
    pub fn push_user_prompt(&mut self, at: Option<Timestamp>, text: &str)
        requires
            old(self).well_formed(),
        ensures
            final(self).well_formed(),
            final(self).session() == with_prompt(old(self).session(), at, text@),
    {
        let text = trimmed(text);
        if text.as_str().is_empty() {
            return;
        }
        if is_synthetic_prompt(text.as_str()) {
            return;
        }
        if self.first_prompt.is_none() {
            self.first_prompt = Some(truncate_chars(text.as_str(), PROMPT_PREVIEW_CHARS));
        }
        self.push_event(Event::UserPrompt { at, text });
        self.user_turns += 1;
    }

    /// Gives the call that waits for this result its outcome.
    fn tool_result(&mut self, block: &Json)
        requires
            old(self).well_formed(),
        ensures
            final(self).well_formed(),
            final(self).session() == with_tool_result(old(self).session(), block.view()),
    {
        let id = match block.get_str("tool_use_id") {
            Some(id) => id,
            None => {
                return;
            },
        };
        let index: usize = match self.pending.get(id) {
            Some(index) => *index,
            None => {
                return;
            },
        };
        let is_error = block.get_true("is_error");
        let result_preview = match tool_result_text(block) {
            Some(t) => first_line_preview(t.as_str(), RESULT_PREVIEW_CHARS),
            None => None,
        };
        let ghost preview = crate::text::opt_text(result_preview);
        if index < self.events.len() {
            let ghost before = self.events@;
            if let Event::ToolCall { at, name, target, .. } = &self.events[index] {
                let patched = Event::ToolCall {
                    at: *at,
                    name: name.clone(),
                    target: clone_opt(target),
                    ok: Some(!is_error),
                    result_preview,
                };
                self.events.set(index, patched);
            }
            assert(event_views(self.events@) =~= event_views(before).update(
                index as int,
                with_outcome(event_views(before)[index as int], !is_error, preview),
            ));
        }
        self.pending.remove(id);
        assert(positions(self.pending@) =~= positions(old(self).pending@).remove(id@));
    }

    /// Records a tool call and lets it wait for its result.
    fn tool_use(&mut self, at: Option<Timestamp>, block: &Json)
        requires
            old(self).well_formed(),
        ensures
            final(self).well_formed(),
            final(self).session() == with_tool_use(old(self).session(), at, block.view()),
    {
        let name = match block.get_str("name") {
            Some(name) => name.to_owned(),
            None => "unknown".to_owned(),
        };
        let target = match block.get("input") {
            Some(input) => tool_target(input),
            None => None,
        };
        if let Some(id) = block.get_str("id") {
            let index: usize = self.events.len();
            self.pending.insert(id.to_owned(), index);
            assert(positions(self.pending@) =~= positions(old(self).pending@).insert(
                id@,
                index as nat,
            ));
        }
        self.push_event(Event::ToolCall { at, name, target, ok: None, result_preview: None });
    }

    /// Takes in one block of a message.
    fn apply_block(
        &mut self,
        at: Option<Timestamp>,
        role: &str,
        block: &Json,
        opts: &ParseOptions,
    )
        requires
            old(self).well_formed(),
        ensures
            final(self).well_formed(),
            final(self).session() == with_block(
                old(self).session(),
                at,
                role@,
                block.view(),
                *opts,
            ),
    {
        let kind = match block.get_str("type") {
            Some(kind) => kind,
            None => {
                return;
            },
        };
        let user = same_text(role, "user");
        let assistant = same_text(role, "assistant");
        if user && same_text(kind, "text") {
            if let Some(text) = block.get_str("text") {
                self.push_user_prompt(at, text);
            }
        } else if user && same_text(kind, "tool_result") {
            self.tool_result(block);
        } else if assistant && same_text(kind, "text") {
            if let Some(text) = block.get_str("text") {
                if !blank(text) {
                    self.push_event(Event::AssistantText { at, text: trimmed(text) });
                    self.assistant_turns += 1;
                }
            }
        } else if assistant && same_text(kind, "thinking") && opts.include_thinking {
            if let Some(text) = block.get_str("thinking") {
                if !blank(text) {
                    self.push_event(Event::Thinking { at, text: trimmed(text) });
                }
            }
        } else if assistant && same_text(kind, "tool_use") && opts.tools != ToolDetail::Off {
            self.tool_use(at, block);
        }
    }

    /// Takes in a message.
    fn apply_message(&mut self, at: Option<Timestamp>, message: &Json, opts: &ParseOptions)
        requires
            old(self).well_formed(),
        ensures
            final(self).well_formed(),
            final(self).session() == with_message(
                old(self).session(),
                at,
                message.view(),
                *opts,
            ),
    {
        let role = match message.get_str("role") {
            Some(role) => role,
            None => "",
        };
        match message.get("content") {
            Some(Json::Text(text)) => {
                if same_text(role, "user") {
                    self.push_user_prompt(at, text.as_str());
                }
            },
            Some(Json::Array(blocks)) => {
                let ghost all = Json::Array(*blocks).view()->Array_0;
                let mut i: usize = 0;
                assert(all.take(0) =~= Seq::empty());
                while i < blocks.len()
                    invariant
                        i <= blocks.len(),
                        all.len() == blocks.len(),
                        forall|j: int|
                            0 <= j < all.len() ==> #[trigger] all[j] == blocks@[j].view(),
                        self.well_formed(),
                        self.session() == with_blocks(
                            old(self).session(),
                            at,
                            role@,
                            all.take(i as int),
                            *opts,
                        ),
                    decreases blocks.len() - i,
                {
                    let ghost after = all.take(i + 1);
                    assert(after.drop_last() =~= all.take(i as int));
                    assert(after.last() == blocks@[i as int].view());
                    self.apply_block(at, role, &blocks[i], opts);
                    i += 1;
                }
                assert(all.take(i as int) =~= all);
            },
            _ => {},
        }
    }

    /// Takes in one record, with the time that its `timestamp` denotes.
    pub fn apply_record(&mut self, record: &Json, at: Option<Timestamp>, opts: &ParseOptions)
        requires
            old(self).well_formed(),
        ensures
            final(self).well_formed(),
            final(self).session() == with_record(old(self).session(), record.view(), at, *opts),
    {
        if at.is_some() {
            if self.started_at.is_none() {
                self.started_at = at;
            }
            self.ended_at = at;
        }
        if self.cwd.is_none() {
            if let Some(cwd) = record.get_str("cwd") {
                self.cwd = Some(cwd.to_owned());
            }
        }
        if self.git_branch.is_none() {
            if let Some(branch) = record.get_str("gitBranch") {
                if !branch.is_empty() {
                    self.git_branch = Some(branch.to_owned());
                }
            }
        }
        assert(self.session() == with_header(old(self).session(), at, record.view()));
        if record.get_true("isSidechain") && !opts.include_sidechains {
            return;
        }
        if let Some(message) = record.get("message") {
            self.apply_message(at, message, opts);
        }
    }
}

/// A copy of an optional string.
pub(crate) fn clone_opt(s: &Option<String>) -> (r: Option<String>)
    ensures
        r == *s,
{
    match s {
        Some(s) => Some(s.clone()),
        None => None,
    }
}

// ---------------------------------------------------------------------------
// From bytes to a session
// ---------------------------------------------------------------------------

/// Takes a transcript in pieces of any size and gathers what it says. Of the
/// bytes themselves no more than one record is held.
pub struct SessionParser {
    progress: Progress,
    opts: ParseOptions,
    /// The line that no newline has ended yet, unless it is too long.
    buffer: Vec<u8>,
    too_long: bool,
    consumed: usize,
    fed: Ghost<Seq<u8>>,
}

proof fn lemma_line_counts(bytes: Seq<u8>)
    ensures
        ended_lines(bytes).len() + open_line(bytes).len() <= bytes.len(),
    decreases bytes.len(),
{
    if bytes.len() > 0 {
        lemma_line_counts(bytes.drop_last());
    }
}

proof fn lemma_blocks_keep_skipped(
    s: Session,
    at: Option<Timestamp>,
    role: Seq<char>,
    blocks: Seq<crate::json::JsonView>,
    opts: ParseOptions,
)
    ensures
        with_blocks(s, at, role, blocks, opts).skipped_records == s.skipped_records,
    decreases blocks.len(),
{
    if blocks.len() > 0 {
        lemma_blocks_keep_skipped(s, at, role, blocks.drop_last(), opts);
    }
}

proof fn lemma_record_keeps_skipped(
    s: Session,
    record: crate::json::JsonView,
    at: Option<Timestamp>,
    opts: ParseOptions,
)
    ensures
        with_record(s, record, at, opts).skipped_records == s.skipped_records,
{
    let noted = with_header(s, at, record);
    match record.member("message"@) {
        Some(message) => match message.member("content"@) {
            Some(crate::json::JsonView::Array(blocks)) => {
                let role = match message.member_text("role"@) {
                    Some(role) => role,
                    None => ""@,
                };
                lemma_blocks_keep_skipped(noted, at, role, blocks, opts);
            },
            _ => {},
        },
        None => {},
    }
}

/// No more records are skipped than there are lines.
proof fn lemma_skipped_bound(lines: Seq<Seq<u8>>, opts: ParseOptions)
    ensures
        with_lines(lines, opts).skipped_records <= lines.len(),
    decreases lines.len(),
{
    if lines.len() > 0 {
        let before = with_lines(lines.drop_last(), opts);
        lemma_skipped_bound(lines.drop_last(), opts);
        let line = lines.last();
        if line.len() <= MAX_RECORD_BYTES && vstd::utf8::valid_utf8(line) {
            let text = crate::text::trim_end_char(vstd::utf8::decode_utf8(line), '\r');
            match crate::json::json_document(text) {
                Some(record) => lemma_record_keeps_skipped(
                    before,
                    record,
                    record_time(record),
                    opts,
                ),
                None => {},
            }
        }
    }
}

/// Whether a parsed transcript tells what the session says.
pub open spec fn tells(r: ParsedSession, s: Session) -> bool {
    &&& summary_tells(r.summary, s)
    &&& event_views(r.events@) == s.events
}

/// Whether a summary tells what the session says.
pub open spec fn summary_tells(r: SessionSummary, s: Session) -> bool {
    &&& crate::text::opt_text(r.cwd) == s.cwd
    &&& crate::text::opt_text(r.git_branch) == s.git_branch
    &&& r.started_at == s.started_at
    &&& r.ended_at == s.ended_at
    &&& r.user_turns == s.user_turns
    &&& r.assistant_turns == s.assistant_turns
    &&& crate::text::opt_text(r.first_prompt) == s.first_prompt
    &&& r.skipped_records == s.skipped_records
}

impl Progress {
    /// Takes in one line within the limit, without its newline.
    fn apply_line(&mut self, line: &[u8], opts: &ParseOptions)
        requires
            old(self).well_formed(),
            line@.len() <= MAX_RECORD_BYTES,
        ensures
            final(self).well_formed(),
            final(self).session() == with_line(old(self).session(), line@, *opts),
    {
        let decoded = match decode_text(line) {
            Some(decoded) => decoded,
            None => {
                return;
            },
        };
        let chars = to_chars(decoded);
        let text = trimmed_end_char(&chars, '\r');
        if blank(text.as_str()) {
            return;
        }
        let record = match parse_json(text.as_str()) {
            Some(record) => record,
            None => {
                return;
            },
        };
        let at = match record.get_str("timestamp") {
            Some(t) => parse_rfc3339(t),
            None => None,
        };
        self.apply_record(&record, at, opts);
    }

    /// Counts a record that was too long to be read.
    fn skip_record(&mut self)
        requires
            old(self).well_formed(),
            old(self).session().skipped_records < usize::MAX,
        ensures
            final(self).well_formed(),
            final(self).session() == (Session {
                skipped_records: old(self).session().skipped_records + 1,
                ..old(self).session()
            }),
    {
        self.skipped_records += 1;
    }

    /// What has been gathered, as a parsed transcript without a name.
    fn into_parsed(
        self,
        session_id: String,
        transcript_path: String,
        bytes: u64,
        tools: ToolDetail,
    ) -> (r: ParsedSession)
        ensures
            r.summary.session_id@ == session_id@,
            r.summary.transcript_path@ == transcript_path@,
            r.summary.bytes == bytes,
            tells(
                r,
                (Session {
                    events: self.session().events.filter(|e: EventView| stays(e, tools)),
                    ..self.session()
                }),
            ),
    {
        let events = keep_events(self.events, tools);
        ParsedSession {
            summary: SessionSummary {
                session_id,
                transcript_path,
                cwd: self.cwd,
                git_branch: self.git_branch,
                started_at: self.started_at,
                ended_at: self.ended_at,
                user_turns: self.user_turns,
                assistant_turns: self.assistant_turns,
                bytes,
                first_prompt: self.first_prompt,
                skipped_records: self.skipped_records,
            },
            events,
        }
    }
}

/// The events that stay under the given detail of tool calls, in order.
pub fn keep_events(events: Vec<Event>, tools: ToolDetail) -> (r: Vec<Event>)
    ensures
        event_views(r@) == event_views(events@).filter(|e: EventView| stays(e, tools)),
{
    let ghost all = event_views(events@);
    let ghost keep = |e: EventView| stays(e, tools);
    let ghost originals = events@;
    let mut rest = reversed(events);
    let mut out: Vec<Event> = Vec::new();
    proof {
        reveal(Seq::filter);
        assert(all.take(0).filter(keep) =~= Seq::empty());
    }
    while rest.len() > 0
        invariant
            keep == (|e: EventView| stays(e, tools)),
            all == event_views(originals),
            rest.len() <= originals.len(),
            forall|i: int|
                0 <= i < rest.len() ==> #[trigger] rest@[i] == originals[originals.len() - 1 - i],
            event_views(out@) == all.take(originals.len() - rest.len()).filter(keep),
        decreases rest.len(),
    {
        let ghost at = originals.len() - rest.len();
        match rest.pop() {
            Some(e) => {
                let stay = match &e {
                    Event::ToolCall { ok, .. } => tools != ToolDetail::FailuresOnly || (match ok {
                        Some(b) => !*b,
                        None => false,
                    }),
                    _ => true,
                };
                proof {
                    reveal(Seq::filter);
                    assert(all.take(at + 1).drop_last() =~= all.take(at));
                    assert(all.take(at + 1).last() == e@);
                    assert(stay == keep(e@));
                }
                if stay {
                    let ghost before = event_views(out@);
                    out.push(e);
                    assert(event_views(out@) =~= before.push(e@));
                }
            },
            None => {},
        }
    }
    assert(all.take(originals.len() as int) =~= all);
    out
}

impl SessionParser {
    /// All bytes taken so far.
    pub closed spec fn fed(&self) -> Seq<u8> {
        self.fed@
    }

    pub closed spec fn options(&self) -> ParseOptions {
        self.opts
    }

    /// How many bytes of the transcript are held in memory.
    pub closed spec fn held(&self) -> nat {
        self.buffer@.len()
    }

    /// What has been gathered is what the ended lines say, and the line that
    /// is still open is held unless it is too long.
    pub closed spec fn well_formed(&self) -> bool {
        &&& self.progress.well_formed()
        &&& self.progress.session() == with_lines(ended_lines(self.fed@), self.opts)
        &&& self.consumed == self.fed@.len()
        &&& self.too_long <==> open_line(self.fed@).len() > MAX_RECORD_BYTES
        &&& !self.too_long ==> self.buffer@ == open_line(self.fed@)
        &&& self.too_long ==> self.buffer@.len() == 0
    }

    /// A parser that has read nothing.
    pub fn new(opts: ParseOptions) -> (r: SessionParser)
        ensures
            r.well_formed(),
            r.fed() == Seq::<u8>::empty(),
            r.options() == opts,
    {
        SessionParser {
            progress: Progress::new(),
            opts,
            buffer: Vec::new(),
            too_long: false,
            consumed: 0,
            fed: Ghost(Seq::empty()),
        }
    }

    /// How many bytes have been taken.
    pub fn consumed(&self) -> (r: usize)
        requires
            self.well_formed(),
        ensures
            r == self.fed().len(),
    {
        self.consumed
    }

    fn feed_byte(&mut self, b: u8)
        requires
            old(self).well_formed(),
            old(self).fed().len() < usize::MAX,
        ensures
            final(self).well_formed(),
            final(self).fed() == old(self).fed().push(b),
            final(self).options() == old(self).options(),
    {
        let ghost before = self.fed@;
        let ghost after = before.push(b);
        proof {
            assert(after.drop_last() =~= before);
            lemma_line_counts(before);
            lemma_skipped_bound(ended_lines(before), self.opts);
        }
        if b == 10 {
            assert(ended_lines(after).drop_last() =~= ended_lines(before));
            if self.too_long {
                self.progress.skip_record();
                self.too_long = false;
            } else {
                let opts = self.opts;
                self.progress.apply_line(self.buffer.as_slice(), &opts);
                self.buffer.clear();
            }
        } else if self.too_long {
        } else if self.buffer.len() == MAX_RECORD_BYTES {
            self.buffer.clear();
            self.too_long = true;
        } else {
            self.buffer.push(b);
        }
        self.consumed += 1;
        self.fed = Ghost(after);
        assert(!self.too_long ==> self.buffer@ =~= open_line(self.fed@));
    }

    /// Takes the next piece of the transcript.
    pub fn feed(&mut self, chunk: &[u8])
        requires
            old(self).well_formed(),
            old(self).fed().len() + chunk@.len() <= usize::MAX,
        ensures
            final(self).well_formed(),
            final(self).fed() == old(self).fed() + chunk@,
            final(self).options() == old(self).options(),
    {
        let mut i: usize = 0;
        assert(self.fed() =~= old(self).fed() + chunk@.take(0));
        while i < chunk.len()
            invariant
                i <= chunk.len(),
                self.well_formed(),
                self.fed() == old(self).fed() + chunk@.take(i as int),
                self.options() == old(self).options(),
                old(self).fed().len() + chunk@.len() <= usize::MAX,
            decreases chunk.len() - i,
        {
            self.feed_byte(chunk[i]);
            i += 1;
            assert(self.fed() =~= old(self).fed() + chunk@.take(i as int));
        }
        assert(chunk@.take(i as int) =~= chunk@);
    }

    /// Takes the bytes read as the whole transcript and tells what it says.
    pub fn finish(self, session_id: String, transcript_path: String, bytes: u64) -> (r:
        ParsedSession)
        requires
            self.well_formed(),
        ensures
            r.summary.session_id@ == session_id@,
            r.summary.transcript_path@ == transcript_path@,
            r.summary.bytes == bytes,
            tells(r, transcript_session(self.fed(), self.options())),
    {
        let opts = self.opts;
        let mut progress = self.progress;
        proof {
            lemma_line_counts(self.fed@);
            lemma_skipped_bound(ended_lines(self.fed@), self.opts);
            let lines = ended_lines(self.fed@).push(open_line(self.fed@));
            assert(lines.drop_last() =~= ended_lines(self.fed@));
        }
        if self.too_long {
            progress.skip_record();
        } else if self.buffer.len() > 0 {
            progress.apply_line(self.buffer.as_slice(), &opts);
        }
        progress.into_parsed(session_id, transcript_path, bytes, opts.tools)
    }

    /// Tells what a transcript says whose reading broke off here. A record that
    /// was still being read is lost, unless it was too long already: then it is
    /// counted.
    pub fn finish_broken_off(self, session_id: String, transcript_path: String, bytes: u64) -> (r:
        ParsedSession)
        requires
            self.well_formed(),
        ensures
            r.summary.session_id@ == session_id@,
            r.summary.transcript_path@ == transcript_path@,
            r.summary.bytes == bytes,
            tells(r, broken_off_session(self.fed(), self.options())),
    {
        let opts = self.opts;
        let mut progress = self.progress;
        proof {
            lemma_line_counts(self.fed@);
            lemma_skipped_bound(ended_lines(self.fed@), self.opts);
            let lines = ended_lines(self.fed@).push(open_line(self.fed@));
            assert(lines.drop_last() =~= ended_lines(self.fed@));
        }
        if self.too_long {
            progress.skip_record();
        }
        progress.into_parsed(session_id, transcript_path, bytes, opts.tools)
    }
}

/// Parses one transcript.
///
/// `bytes` is the size to report; `data` are the transcript's bytes.
pub fn parse_session(
    session_id: String,
    transcript_path: String,
    bytes: u64,
    data: &[u8],
    opts: ParseOptions,
) -> (r: ParsedSession)
    ensures
        r.summary.session_id@ == session_id@,
        r.summary.transcript_path@ == transcript_path@,
        r.summary.bytes == bytes,
        tells(r, transcript_session(data@, opts)),
{
    let mut parser = SessionParser::new(opts);
    assert(data.len() == data@.len());
    parser.feed(data);
    assert(parser.fed() =~= data@);
    parser.finish(session_id, transcript_path, bytes)
}

/// The options that a summary is made with: prompts and prose only.
pub open spec fn summary_options() -> ParseOptions {
    ParseOptions { include_thinking: false, include_sidechains: false, tools: ToolDetail::Off }
}

/// The metadata of one transcript.
pub fn summarize_session(
    session_id: String,
    transcript_path: String,
    bytes: u64,
    data: &[u8],
) -> (r: SessionSummary)
    ensures
        r.session_id@ == session_id@,
        r.transcript_path@ == transcript_path@,
        r.bytes == bytes,
        summary_tells(r, transcript_session(data@, summary_options())),
{
    let opts = ParseOptions {
        include_thinking: false,
        include_sidechains: false,
        tools: ToolDetail::Off,
    };
    parse_session(session_id, transcript_path, bytes, data, opts).summary
}

/// However much is fed, no more than one record of the transcript is held.
pub proof fn parser_holds_at_most_one_record(p: SessionParser)
    requires
        p.well_formed(),
    ensures
        p.held() <= MAX_RECORD_BYTES,
{
}

} // verus!
