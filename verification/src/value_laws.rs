//! What holds of the values that memories are made of, and of how they are shown.
use vstd::prelude::*;

use crate::binary64::Binary64;
use crate::challenge::Challenge;
use crate::config::EmbeddingBackend;
use crate::decay::{Decay, DecayStrategy, Span};
use crate::epistemic::{Epistemic, Generality, Situation};
use crate::memory::{Memory, MemoryType, Status, Visibility};
use crate::path::{FilePath, PartView};
use crate::plan_laws::is_text;
use crate::preview::{first_line_preview, is_synthetic_prompt, truncate_chars};
use crate::project_list_grouping::ProjectListGrouping;
use crate::provenance::{Provenance, ProvenanceSource};
use crate::task_state::SessionTasks;
use crate::terminal::{active, invisible, plain, sanitize_for_terminal, sanitize_one_line};
use crate::text::{ascii_lowercase, is_ascii_char, is_ascii_text, is_blank, trim};
use crate::time::Timestamp;
use crate::title_strategy::TitleStrategy;
use std::borrow::Cow;

verus! {

broadcast use vstd::string::group_string_axioms;

// ---------------------------------------------------------------------------
// Memories
// ---------------------------------------------------------------------------

/// A new memory holds what it was given, is shared, in force and about the whole
/// project, and has no other time than now.
pub proof fn a_new_memory_holds_what_was_given(
    id: String,
    type_: MemoryType,
    summary: &str,
    content: &str,
    provenance: Provenance,
    now: Timestamp,
    r: Memory,
)
    requires
        call_ensures(Memory::new_at, (id, type_, summary, content, provenance, now), r),
    ensures
        r.id@ == id@,
        r.type_ == type_,
        r.summary@ == summary@,
        r.content@ == content@,
        r.provenance == provenance,
        r.created_at == now,
        r.updated_at == now,
        r.accessed_at == now,
        r.status == Status::Active,
        r.visibility == Visibility::Shared,
        r.physical@.len() == 1 && r.physical@[0]@ == "/"@,
        r.tags@.len() == 0,
        r.logical@.len() == 0,
        r.challenges@.len() == 0,
        r.title is None,
        r.expires_at is None,
        r.invalidated_at is None,
        r.superseded_by is None,
        r.valid_while is None,
        r.epistemic == Epistemic::Observation <==> type_ == MemoryType::Debug,
        r.epistemic == Epistemic::Decision <==> type_ == MemoryType::Decision || type_
            == MemoryType::Intent || type_ == MemoryType::Preference,
{
    crate::update_laws::a_new_memory_is_in_force(
        id@,
        type_,
        summary@,
        content@,
        provenance,
        now,
        now,
    );
    crate::update_laws::an_unnamed_class_goes_by_the_type(type_);
    let v = r@;
    assert(v.physical.len() == r.physical@.len());
    assert(v.physical[0] == r.physical@[0]@);
    assert(v.tags.len() == r.tags@.len());
    assert(v.logical.len() == r.logical@.len());
}

/// Reading a memory changes when it was read, writing it when it was written, and
/// neither changes anything else.
pub proof fn a_touch_changes_one_time(m: &mut Memory, n: &mut Memory, now: Timestamp)
    requires
        call_ensures(Memory::touch_at, (m, now), ()),
        call_ensures(Memory::mark_updated_at, (n, now), ()),
    ensures
        final(m).accessed_at == now,
        final(m).updated_at == old(m).updated_at,
        final(m).created_at == old(m).created_at,
        final(m).content@ == old(m).content@,
        final(m).status == old(m).status,
        final(n).updated_at == now,
        final(n).accessed_at == old(n).accessed_at,
        final(n).created_at == old(n).created_at,
        final(n).content@ == old(n).content@,
        final(n).status == old(n).status,
{
}

/// A memory without an expiry never expires, and one with an expiry has expired just
/// after it; its validity ends at the very time.
pub proof fn a_memory_expires_after_its_time(
    m: &Memory,
    now: Timestamp,
    expired: bool,
    invalidated: bool,
)
    requires
        call_ensures(Memory::is_expired_at, (m, now), expired),
        call_ensures(Memory::is_invalidated_at, (m, now), invalidated),
    ensures
        m.expires_at is None ==> !expired,
        m.expires_at matches Some(t) ==> (expired <==> t.secs < now.secs || (t.secs == now.secs
            && t.nanos < now.nanos)),
        m.invalidated_at is None ==> !invalidated,
        m.invalidated_at matches Some(t) ==> (invalidated <==> t.secs < now.secs || (t.secs
            == now.secs && t.nanos <= now.nanos)),
{
}

/// A challenge holds its evidence, when it was made, and, where they are given, who
/// made it and the file that shows it.
pub proof fn a_challenge_holds_its_evidence(
    evidence: &str,
    now: Timestamp,
    c: Challenge,
    agent: &str,
    by: Challenge,
    file: &str,
    shown: Challenge,
)
    requires
        call_ensures(Challenge::new_at, (evidence, now), c),
        call_ensures(Challenge::with_agent, (c, agent), by),
        call_ensures(Challenge::with_source_file, (by, file), shown),
    ensures
        shown.evidence@ == evidence@,
        shown.timestamp == now,
        is_text(shown.agent_id, agent@),
        is_text(shown.source_file, file@),
        c.agent_id is None,
        c.source_file is None,
{
}

/// Who a memory comes from.
pub proof fn a_provenance_names_its_source(agent: &str, human: Provenance, machine: Provenance)
    requires
        call_ensures(Provenance::human, (), human),
        call_ensures(Provenance::agent, (agent,), machine),
    ensures
        human.source == ProvenanceSource::Human,
        human.agent_id is None && human.session_id is None,
        machine.source == ProvenanceSource::Agent,
        is_text(machine.agent_id, agent@),
        machine.session_id is None,
{
}

/// A memory fades by halves over its half life, down to a floor, or not at all.
pub proof fn a_decay_halves_or_lasts(
    days: i32,
    span: Span,
    lasting: Decay,
    halving: Decay,
    floor: Binary64,
    floored: Decay,
)
    requires
        call_ensures(Span::days, (days,), span),
        call_ensures(Decay::none, (), lasting),
        call_ensures(Decay::exponential, (span,), halving),
        call_ensures(Decay::with_floor, (halving, floor), floored),
    ensures
        span.secs == days * 86_400,
        span.nanos == 0,
        lasting.strategy == DecayStrategy::Off,
        lasting.half_life is None && lasting.ttl is None,
        lasting.floor.bits == 0,
        halving.strategy == DecayStrategy::Exponential,
        halving.half_life == Some(span) && halving.ttl is None,
        halving.floor.bits == 0,
        floored.floor == floor,
        floored.strategy == halving.strategy && floored.half_life == halving.half_life,
{
}

// ---------------------------------------------------------------------------
// Names
// ---------------------------------------------------------------------------

/// A name is read in any case, and a text that is no name is refused.
pub proof fn names_are_read_in_any_case(
    s: &str,
    b: Result<EmbeddingBackend, String>,
    e: Result<Epistemic, String>,
    g: Result<Generality, String>,
    o: Result<Situation, String>,
)
    requires
        is_ascii_text(s@),
        call_ensures(EmbeddingBackend::from_name, (s,), b),
        call_ensures(Epistemic::from_name, (s,), e),
        call_ensures(Generality::from_name, (s,), g),
        call_ensures(Situation::from_name, (s,), o),
    ensures
        ascii_lowercase(s@) == "auto"@ <==> b == Ok::<EmbeddingBackend, String>(
            EmbeddingBackend::Auto,
        ),
        ascii_lowercase(s@) == "onnx"@ <==> b == Ok::<EmbeddingBackend, String>(
            EmbeddingBackend::Onnx,
        ),
        ascii_lowercase(s@) == "ollama"@ <==> b == Ok::<EmbeddingBackend, String>(
            EmbeddingBackend::Ollama,
        ),
        ascii_lowercase(s@) == "tract"@ <==> b == Ok::<EmbeddingBackend, String>(
            EmbeddingBackend::Tract,
        ),
        ascii_lowercase(s@) == "fact"@ <==> e == Ok::<Epistemic, String>(Epistemic::Fact),
        ascii_lowercase(s@) == "observation"@ <==> e == Ok::<Epistemic, String>(
            Epistemic::Observation,
        ),
        ascii_lowercase(s@) == "decision"@ <==> e == Ok::<Epistemic, String>(Epistemic::Decision),
        ascii_lowercase(s@) == "project"@ <==> g == Ok::<Generality, String>(Generality::Project),
        ascii_lowercase(s@) == "task"@ <==> g == Ok::<Generality, String>(Generality::Task),
        ascii_lowercase(s@) == "session_start"@ <==> o == Ok::<Situation, String>(
            Situation::SessionStart,
        ),
        ascii_lowercase(s@) == "file_edit"@ <==> o == Ok::<Situation, String>(Situation::FileEdit),
        ascii_lowercase(s@) == "debugging"@ <==> o == Ok::<Situation, String>(
            Situation::Debugging,
        ),
        ascii_lowercase(s@) == "design_choice"@ <==> o == Ok::<Situation, String>(
            Situation::DesignChoice,
        ),
{
    let low = ascii_lowercase(s@);
    crate::setting_laws::a_choice_is_read_from_its_name(low, b, e, g, o);
    crate::setting_laws::every_choice_has_its_name();
    lemma_names_differ();
    if let Ok(v) = b {
        assert(low == v.name());
    }
    if let Ok(v) = e {
        assert(low == v.name());
    }
    if let Ok(v) = g {
        assert(low == v.name());
    }
    if let Ok(v) = o {
        assert(low == v.name());
    }
}

/// A way of making titles and of grouping projects is read in any case, and a text
/// that spells none is refused.
pub proof fn spellings_are_read_in_any_case(
    s: &str,
    t: Result<TitleStrategy, String>,
    g: Result<ProjectListGrouping, String>,
)
    requires
        is_ascii_text(s@),
        call_ensures(TitleStrategy::parse, (s,), t),
        call_ensures(ProjectListGrouping::parse, (s,), g),
    ensures
        ({
            let low = ascii_lowercase(s@);
            &&& low == "keyword"@ || low == "keywords"@ || low == "rake"@ ==> t == Ok::<
                TitleStrategy,
                String,
            >(TitleStrategy::Keyword)
            &&& low == "t5"@ || low == "t5-small"@ || low == "model"@ ==> t == Ok::<
                TitleStrategy,
                String,
            >(TitleStrategy::T5)
            &&& low == "none"@ || low == "off"@ || low == "disabled"@ ==> t == Ok::<
                TitleStrategy,
                String,
            >(TitleStrategy::Off)
            &&& t is Ok ==> low == "keyword"@ || low == "keywords"@ || low == "rake"@ || low == "t5"@
                || low == "t5-small"@ || low == "model"@ || low == "none"@ || low == "off"@ || low
                == "disabled"@
            &&& low == "always"@ || low == "all"@ || low == "full"@ ==> g == Ok::<
                ProjectListGrouping,
                String,
            >(ProjectListGrouping::Always)
            &&& low == "auto"@ || low == "smart"@ ==> g == Ok::<ProjectListGrouping, String>(
                ProjectListGrouping::Auto,
            )
            &&& low == "none"@ || low == "off"@ || low == "flat"@ ==> g == Ok::<
                ProjectListGrouping,
                String,
            >(ProjectListGrouping::Off)
            &&& g is Ok ==> low == "always"@ || low == "all"@ || low == "full"@ || low == "auto"@
                || low == "smart"@ || low == "none"@ || low == "off"@ || low == "flat"@
        }),
{
    let low = ascii_lowercase(s@);
    crate::setting_laws::a_spelling_is_read_as_its_choice(s@, low, t, g);
    if let Ok(v) = t {
        if TitleStrategy::Keyword.spelled(low) {
            crate::title_strategy::title_spellings_are_unambiguous(v, TitleStrategy::Keyword, low);
        }
        if TitleStrategy::T5.spelled(low) {
            crate::title_strategy::title_spellings_are_unambiguous(v, TitleStrategy::T5, low);
        }
        if TitleStrategy::Off.spelled(low) {
            crate::title_strategy::title_spellings_are_unambiguous(v, TitleStrategy::Off, low);
        }
    }
    if let Ok(v) = g {
        lemma_groupings_differ(v, ProjectListGrouping::Always, low);
        lemma_groupings_differ(v, ProjectListGrouping::Auto, low);
        lemma_groupings_differ(v, ProjectListGrouping::Off, low);
    }
}

proof fn lemma_groupings_differ(a: ProjectListGrouping, b: ProjectListGrouping, low: Seq<char>)
    ensures
        a.spelled(low) && b.spelled(low) ==> a == b,
{
    if a.spelled(low) && b.spelled(low) {
        crate::project_list_grouping::grouping_spellings_are_unambiguous(a, b, low);
    }
}

proof fn lemma_names_differ()
    ensures
        forall|a: EmbeddingBackend, b: EmbeddingBackend| #[trigger]
            a.name() == #[trigger] b.name() ==> a == b,
        forall|a: Epistemic, b: Epistemic| #[trigger] a.name() == #[trigger] b.name() ==> a == b,
        forall|a: Generality, b: Generality| #[trigger] a.name() == #[trigger] b.name() ==> a == b,
        forall|a: Situation, b: Situation| #[trigger] a.name() == #[trigger] b.name() ==> a == b,
{
    reveal_strlit("auto");
    reveal_strlit("onnx");
    reveal_strlit("ollama");
    reveal_strlit("tract");
    reveal_strlit("fact");
    reveal_strlit("observation");
    reveal_strlit("decision");
    reveal_strlit("project");
    reveal_strlit("task");
    reveal_strlit("session_start");
    reveal_strlit("file_edit");
    reveal_strlit("debugging");
    reveal_strlit("design_choice");
    assert("auto"@[0] != "onnx"@[0] && "auto"@[0] != "ollama"@[0] && "auto"@[0] != "tract"@[0]);
    assert("onnx"@[1] != "ollama"@[1] && "onnx"@[0] != "tract"@[0] && "ollama"@[0]
        != "tract"@[0]);
    assert("fact"@[0] != "observation"@[0] && "fact"@[0] != "decision"@[0] && "observation"@[0]
        != "decision"@[0]);
    assert("project"@[0] != "task"@[0]);
    assert("session_start"@[0] != "file_edit"@[0] && "session_start"@[0] != "debugging"@[0]
        && "session_start"@[0] != "design_choice"@[0]);
    assert("file_edit"@[0] != "debugging"@[0] && "file_edit"@[0] != "design_choice"@[0]
        && "debugging"@[2] != "design_choice"@[2]);
}

// ---------------------------------------------------------------------------
// Paths
// ---------------------------------------------------------------------------

/// A path lies under another where it begins with its parts, ends in the name that
/// was joined to it, and is the same as another with the same parts.
pub proof fn paths_go_by_their_parts(
    p: &FilePath,
    q: &FilePath,
    name: &str,
    under: bool,
    same: bool,
    joined: FilePath,
    last: Option<String>,
    below: Seq<PartView>,
)
    requires
        call_ensures(FilePath::starts_with, (p, q), under),
        call_ensures(FilePath::same, (p, q), same),
        call_ensures(FilePath::join_name, (p, name), joined),
        call_ensures(FilePath::file_name, (&joined,), last),
    ensures
        p@ == q@ + below ==> under,
        under ==> p@ == q@ + p@.skip(q@.len() as int),
        same <==> p@ == q@,
        joined@.drop_last() == p@,
        is_text(last, name@),
{
    if p@ == q@ + below {
        assert(q@ =~= p@.subrange(0, q@.len() as int));
    }
    if under {
        assert(p@ =~= q@ + p@.skip(q@.len() as int));
    }
    assert(joined@.drop_last() =~= p@);
    assert(joined@.last() == PartView::Name(name@));
}

// ---------------------------------------------------------------------------
// Texts that are shown
// ---------------------------------------------------------------------------

/// The ASCII characters are the first hundred and twenty-eight, and an ASCII text
/// has no other.
pub proof fn the_ascii_characters_come_first(c: char, s: Seq<char>)
    ensures
        is_ascii_char(c) <==> c as u32 <= 127,
        is_ascii_text(s) <==> forall|i: int| 0 <= i < s.len() ==> (#[trigger] s[i]) as u32 <= 127,
{
    if is_ascii_text(s) {
        assert forall|i: int| 0 <= i < s.len() implies (#[trigger] s[i]) as u32 <= 127 by {
            assert(is_ascii_char(s[i]));
        }
    }
    if forall|i: int| 0 <= i < s.len() ==> (#[trigger] s[i]) as u32 <= 127 {
        assert forall|i: int| 0 <= i < s.len() implies is_ascii_char(#[trigger] s[i]) by {
            assert(s[i] as u32 <= 127);
        }
    }
}

/// A character is plain where it neither acts on a terminal nor hides nor breaks the
/// line.
pub proof fn a_plain_character_is_seen_in_its_line(c: char)
    ensures
        plain(c) <==> !active(c) && !invisible(c) && c != '\n' && c != '\t',
        'a' <= c <= 'z' || 'A' <= c <= 'Z' || '0' <= c <= '9' || c == ' ' ==> plain(c),
{
}

/// A text is clean where no character of it acts on a terminal or hides, so a text
/// with one more character is clean where it was and the character is.
pub proof fn a_text_is_clean_character_by_character(s: Seq<char>, c: char)
    ensures
        crate::terminal::is_clean(Seq::empty()),
        crate::terminal::is_clean(s.push(c)) <==> crate::terminal::is_clean(s) && !active(c)
            && !invisible(c),
{
    let t = s.push(c);
    if crate::terminal::is_clean(t) {
        assert(t[s.len() as int] == c);
        assert forall|i: int| 0 <= i < s.len() implies !active(#[trigger] s[i]) && !invisible(
            s[i],
        ) by {
            assert(t[i] == s[i]);
        }
    }
}

/// A shortened text is the trimmed one where that is no longer than allowed, and
/// else a beginning of it with a mark.
pub proof fn a_text_is_shortened_where_it_is_too_long(s: &str, max: usize, r: String)
    requires
        call_ensures(truncate_chars, (s, max), r),
    ensures
        trim(s@).len() <= max ==> r@ == trim(s@),
        trim(s@).len() > max ==> r@.len() <= max + 1 && r@.len() > 0 && r@.last() == '\u{2026}'
            && r@.drop_last().is_prefix_of(trim(s@)),
{
    crate::display_laws::a_preview_is_a_beginning(s@, max as int);
    if trim(s@).len() > max {
        let k = r@.len() - 1;
        assert(r@.drop_last() =~= r@.take(k));
        assert(r@.take(k) == trim(s@).take(k));
        assert(trim(s@).take(k) =~= trim(s@).subrange(0, k));
    }
}

/// A preview of a single line is that line, shortened, and a blank line has none.
pub proof fn a_line_is_previewed_by_itself(s: &str, max: usize, r: Option<String>, short: String)
    requires
        call_ensures(first_line_preview, (s, max), r),
        call_ensures(truncate_chars, (s, max), short),
        forall|i: int| 0 <= i < s@.len() ==> #[trigger] s@[i] != '\n',
    ensures
        is_blank(s@) ==> r is None,
        !is_blank(s@) ==> is_text(r, short@),
{
    crate::display_laws::the_first_line_with_something_on_it_is_shown(s@, Seq::empty(), max as int);
}

/// A prompt that was interrupted, or that opens with a tag of the harness, is not the
/// user's, and a plain one is.
pub proof fn a_plain_prompt_is_the_users(s: &str, r: bool)
    requires
        call_ensures(is_synthetic_prompt, (s,), r),
        forall|i: int| 0 <= i < s@.len() ==> (#[trigger] s@[i]) as u32 <= 127,
        s@.len() > 0,
        'a' <= s@[0] <= 'z' || 'A' <= s@[0] <= 'B' || 'D' <= s@[0] <= 'Z' || '0' <= s@[0] <= '9',
    ensures
        !r,
{
    assert forall|i: int| 0 <= i < s@.len() implies ((#[trigger] s@[i]) as u32) < 0x80 by {
        assert(s@[i] as u32 <= 127);
    }
    crate::display_laws::only_tags_and_phrases_mark_the_harness(s@);
    let low = Seq::new(
        s@.len(),
        |i: int|
            if 'A' <= s@[i] <= 'Z' {
                (s@[i] as u32 + 32) as char
            } else {
                s@[i]
            },
    );
    reveal_strlit("<");
    reveal_strlit("</");
    reveal_strlit("Caveat: The messages below were generated");
    reveal_strlit("[Request interrupted");
    assert(low[0] != '<');
    assert forall|tag: Seq<char>| #[trigger] ("<"@ + tag).is_prefix_of(low) implies false by {
        assert(("<"@ + tag)[0] == '<');
    }
    assert forall|tag: Seq<char>| #[trigger] ("</"@ + tag).is_prefix_of(low) implies false by {
        assert(("</"@ + tag)[0] == '<');
    }
    assert(!"Caveat: The messages below were generated"@.is_prefix_of(s@)) by {
        assert("Caveat: The messages below were generated"@[0] == 'C');
    }
    assert(!"[Request interrupted"@.is_prefix_of(s@)) by {
        assert("[Request interrupted"@[0] == '[');
    }
}

/// A text of plain characters is shown as it is, and nothing that acts on a terminal
/// or hides is ever shown.
pub proof fn a_terminal_is_shown_nothing_that_acts(
    s: &str,
    r: Cow<'_, str>,
    line: Cow<'_, str>,
    i: int,
)
    requires
        call_ensures(sanitize_for_terminal, (s,), r),
        call_ensures(sanitize_one_line, (s,), line),
    ensures
        0 <= i < r@.len() ==> !active(r@[i]) && !invisible(r@[i]),
        0 <= i < line@.len() ==> plain(line@[i]),
{
    crate::terminal::sanitizing_leaves_clean_text(s@);
    crate::terminal::one_line_is_plain(s@);
}

// ---------------------------------------------------------------------------
// Tasks
// ---------------------------------------------------------------------------

/// A session has its own task where it declared one, and else the latest of the last
/// day, if any.
pub proof fn a_session_has_its_own_task_or_a_recent_one(
    tasks: &SessionTasks,
    session: &str,
    now: Timestamp,
    r: Option<String>,
    other: Seq<char>,
)
    requires
        call_ensures(SessionTasks::current_task_or_recent_at, (tasks, session, now), r),
        now.secs - 86_400 >= i64::MIN,
    ensures
        session@.len() > 0 && tasks@.contains_key(session@) ==> is_text(r, tasks@[session@].task),
        (session@.len() == 0 || !tasks@.contains_key(session@)) && tasks@.contains_key(other)
            && crate::task_laws::is_younger(tasks@[other], now, 86_400) ==> r is Some,
        r is Some ==> exists|k: Seq<char>| #[trigger]
            tasks@.contains_key(k) && is_text(r, tasks@[k].task),
{
    let t = crate::text::opt_text(r);
    if session@.len() > 0 && tasks@.contains_key(session@) {
        crate::task_laws::an_own_task_counts_first(tasks@, session@, now, t);
        assert(tasks@.contains_key(session@) && is_text(r, tasks@[session@].task));
    } else {
        crate::task_laws::the_latest_task_of_the_last_day_counts_next(
            tasks@,
            session@,
            now,
            t,
            other,
        );
        if r is Some {
            let k = choose|k: Seq<char>|
                #[trigger] tasks@.contains_key(k) && tasks@[k].task == t->0;
            assert(tasks@.contains_key(k) && is_text(r, tasks@[k].task));
        }
    }
}

} // verus!
