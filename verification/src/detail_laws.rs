//! What holds of the smaller operations and of the values that things start from.
use vstd::prelude::*;

use crate::challenge::Challenge;
use crate::config::{
    default_allow_cross_project_writes, default_daemon_enabled, default_daemon_idle_timeout_secs,
    default_daemon_use_for_cli, default_flush_interval_secs, default_followup_window_secs,
    default_histogram_capacity, default_maintenance_enabled, default_maintenance_interval_secs,
    default_max_sessions_per_project, default_retention_days, default_review_recency_days,
    default_stats_enabled, default_title_strategy, ConfigError,
};
use crate::decay::Decay;
use crate::epistemic::Epistemic;
use crate::error::StorageError;
use crate::memory::{Memory, MemoryType, MemoryUpdate, Status};
use crate::normalize::{is_stopword, KeywordStems};
use crate::outcome_laws::{lemma_lists, lists};
use crate::path::{FilePath, PartView};
use crate::plan_laws::is_text;
use crate::recall::Recall;
use crate::sessions::{claude_home, judge_directory, projects_root};
use crate::store::MemoryStore;
use crate::task_state::{mapping_path, SessionTasks, TaskEntry};
use crate::time::Timestamp;
use crate::title_strategy::TitleStrategy;
use crate::transcript_archive::{archive_session_id, export_archive, Restored};
use crate::transcripts::{
    keep_events, Event, EventView, ParseOptions, ParsedSession, Progress, SessionParser,
    ToolDetail,
};
use crate::writes::{placed_views, step_views, Creations, Placed, StepView};

verus! {

broadcast use vstd::string::group_string_axioms;

// ---------------------------------------------------------------------------
// Beginnings
// ---------------------------------------------------------------------------

/// What everything starts from: an update that changes nothing, a recall that counted
/// nothing, no tasks, and a session that says nothing.
pub proof fn everything_starts_empty(
    u: MemoryUpdate,
    recall: Recall,
    tasks: SessionTasks,
    p: Progress,
    m: &mut Memory,
    now: Timestamp,
)
    requires
        call_ensures(MemoryUpdate::new, (), u),
        call_ensures(Recall::new, (), recall),
        call_ensures(SessionTasks::new, (), tasks),
        call_ensures(Progress::new, (), p),
        call_ensures(MemoryUpdate::apply_to_at, (&u, m, now), ()),
    ensures
        final(m).content@ == old(m).content@,
        final(m).summary@ == old(m).summary@,
        final(m).status == old(m).status,
        final(m).visibility == old(m).visibility,
        final(m).invalidated_at == old(m).invalidated_at,
        final(m).expires_at == old(m).expires_at,
        final(m).updated_at == now,
        recall.hits == 0 && recall.total == 0 && recall.top1 == 0,
        forall|k: Seq<char>| !#[trigger] tasks@.contains_key(k),
        p.session().events.len() == 0,
        p.session().user_turns == 0 && p.session().assistant_turns == 0,
        p.session().cwd is None && p.session().first_prompt is None,
{
}

/// The values that settings have where none is given.
pub proof fn settings_start_from_these(
    cross: bool,
    daemon: bool,
    idle: u64,
    cli: bool,
    flush: u64,
    followup: u64,
    histogram: usize,
    maintained: bool,
    interval: u64,
    most: usize,
    retention: Option<u64>,
    recency: Option<u64>,
    stats: bool,
    title: TitleStrategy,
)
    requires
        call_ensures(default_allow_cross_project_writes, (), cross),
        call_ensures(default_daemon_enabled, (), daemon),
        call_ensures(default_daemon_idle_timeout_secs, (), idle),
        call_ensures(default_daemon_use_for_cli, (), cli),
        call_ensures(default_flush_interval_secs, (), flush),
        call_ensures(default_followup_window_secs, (), followup),
        call_ensures(default_histogram_capacity, (), histogram),
        call_ensures(default_maintenance_enabled, (), maintained),
        call_ensures(default_maintenance_interval_secs, (), interval),
        call_ensures(default_max_sessions_per_project, (), most),
        call_ensures(default_retention_days, (), retention),
        call_ensures(default_review_recency_days, (), recency),
        call_ensures(default_stats_enabled, (), stats),
        call_ensures(default_title_strategy, (), title),
    ensures
        cross && daemon && cli && maintained && stats,
        idle == 15 * 60,
        flush == 60 && followup == 60,
        histogram == 256 && most == 10_000,
        interval == 6 * 60 * 60,
        retention == Some(90u64) && recency == Some(90u64),
        title == TitleStrategy::T5,
{
}

// ---------------------------------------------------------------------------
// Memories
// ---------------------------------------------------------------------------

/// A memory fades by its type and class as told, both where the class is its own and
/// where it is given.
pub proof fn fading_is_never_left_open(
    type_: MemoryType,
    class: Epistemic,
    own: Option<Decay>,
    given: Option<Decay>,
    r: Epistemic,
)
    requires
        call_ensures(crate::memory::default_decay, (type_, class), given),
        call_ensures(MemoryType::default_decay, (&type_,), own),
        call_ensures(MemoryType::default_epistemic, (&type_,), r),
    ensures
        own is Some && given is Some,
        class == Epistemic::Fact && type_ != MemoryType::Hazard ==> given->0.half_life is None,
        class == Epistemic::Observation ==> given->0.half_life is Some,
        r == Epistemic::Observation <==> type_ == MemoryType::Debug,
        type_ == MemoryType::Debug ==> own->0.half_life is Some,
{
    crate::update_laws::fading_goes_by_type_and_class(type_, class);
    crate::update_laws::an_unnamed_class_goes_by_the_type(type_);
}

/// A challenge made now is added behind the others as one made at any time is.
pub proof fn a_challenge_of_now_is_added(m: &mut Memory, c: Challenge)
    requires
        call_ensures(Memory::add_challenge, (m, c), ()),
    ensures
        final(m).challenges@ == old(m).challenges@.push(c),
        final(m).status == Status::Challenged,
        final(m).content@ == old(m).content@,
{
}

// ---------------------------------------------------------------------------
// Errors
// ---------------------------------------------------------------------------

/// An error carries the text it was made with, and one about a number has the number
/// in the middle.
pub proof fn an_error_carries_its_text(
    e: &StorageError,
    text: String,
    c: &ConfigError,
    shown: &str,
    told: String,
    operation: &str,
    cause: &str,
    failed: StorageError,
)
    requires
        call_ensures(StorageError::message, (e,), text),
        call_ensures(ConfigError::message, (c, shown), told),
        call_ensures(StorageError::failure, (operation, cause), failed),
    ensures
        *e matches StorageError::Validation(m) ==> text@ == m@,
        *e matches StorageError::NotFound(m) ==> text@ == m@,
        *e matches StorageError::Io(m) ==> text@ == m@,
        c.value is None ==> told@ == c.before@,
        c.value is Some ==> told@ == c.before@ + shown@ + c.after@,
        failed matches StorageError::Validation(m) && m@ == operation@ + " failed: "@ + cause@,
{
}

// ---------------------------------------------------------------------------
// Stores
// ---------------------------------------------------------------------------

/// A batch answers with the ids of its memories, in their order, and writes a file
/// for each of them.
pub proof fn a_batch_writes_a_file_for_each_memory(
    store: &MemoryStore,
    new: &[Placed],
    r: Creations,
    k: int,
)
    requires
        call_ensures(MemoryStore::create_batch, (store, new), r),
        0 <= k < new@.len(),
    ensures
        r.ids@.len() == new@.len(),
        r.ids@[k]@ == new@[k].id@,
        step_views(r.steps@).contains(StepView::Write(new@[k].path@)),
{
    let all = placed_views(new@);
    let ids = crate::text::texts(r.ids@);
    assert(ids.len() == r.ids@.len());
    assert(ids[k] == r.ids@[k]@);
    assert(all[k] == new@[k]@);
    lemma_batch_writes(
        crate::writes::placing(crate::store::file_views(store.shared@)) + crate::writes::placing(
            crate::store::file_views(store.personal@),
        ),
        all,
        crate::writes::known_ids(
            crate::store::file_views(store.shared@),
            crate::store::file_views(store.personal@),
        ),
        k,
    );
}

proof fn lemma_batch_writes(
    files: Seq<crate::writes::PlacedView>,
    new: Seq<crate::writes::PlacedView>,
    known: spec_fn(Seq<char>) -> bool,
    k: int,
)
    requires
        0 <= k < new.len(),
    ensures
        crate::writes::create_all(files, new, known).steps.contains(StepView::Write(new[k].path)),
    decreases new.len(),
{
    let before = new.drop_last();
    let p = crate::writes::create_all(files, before, known);
    let all = crate::writes::create_all(files, new, known);
    let want = StepView::Write(new[k].path);
    if k < before.len() {
        assert(before[k] == new[k]);
        lemma_batch_writes(files, before, known, k);
        let i = choose|i: int| 0 <= i < p.steps.len() && p.steps[i] == want;
        assert(all.steps[i] == want);
    } else {
        assert(all.steps[p.steps.len() as int] == want);
    }
}

/// A batch of memories that are new to the store, no two of one id, writes a file for
/// each and removes nothing.
pub proof fn a_batch_of_new_memories_removes_nothing(
    files: Seq<crate::writes::PlacedView>,
    new: Seq<crate::writes::PlacedView>,
    known: spec_fn(Seq<char>) -> bool,
)
    requires
        forall|i: int| 0 <= i < new.len() ==> !known((#[trigger] new[i]).id),
        forall|i: int, j: int|
            0 <= i < j < new.len() ==> (#[trigger] new[i]).id != (#[trigger] new[j]).id,
    ensures
        crate::writes::create_all(files, new, known).steps.len() == new.len(),
        forall|k: int|
            0 <= k < new.len() ==> #[trigger] crate::writes::create_all(
                files,
                new,
                known,
            ).steps[k] == StepView::Write(new[k].path),
    decreases new.len(),
{
    if new.len() > 0 {
        let before = new.drop_last();
        let p = crate::writes::create_all(files, before, known);
        let all = crate::writes::create_all(files, new, known);
        let top = new[new.len() - 1];
        assert forall|i: int| 0 <= i < before.len() implies !known((#[trigger] before[i]).id) by {
            assert(before[i] == new[i]);
        }
        assert forall|i: int, j: int| 0 <= i < j < before.len() implies (#[trigger] before[i]).id
            != (#[trigger] before[j]).id by {
            assert(before[i] == new[i] && before[j] == new[j]);
        }
        a_batch_of_new_memories_removes_nothing(files, before, known);
        assert(top == new.last());
        assert(!known(top.id));
        assert(!crate::writes::repeats(new)) by {
            if crate::writes::repeats(new) {
                let j = choose|j: int|
                    0 <= j < new.len() - 1 && (#[trigger] new[j]).id == new.last().id;
                assert(new[j].id != new[new.len() - 1].id);
            }
        }
        assert(all.steps == p.steps.push(StepView::Write(top.path)));
        assert forall|k: int| 0 <= k < new.len() implies #[trigger] all.steps[k]
            == StepView::Write(new[k].path) by {
            if k < before.len() {
                assert(p.steps[k] == StepView::Write(before[k].path));
            }
        }
    }
}

/// A store is that of all projects where it has their id.
pub proof fn a_store_is_global_by_its_id(store: &MemoryStore, id: &str, r: bool)
    requires
        call_ensures(MemoryStore::is_global, (store, id), r),
    ensures
        r <==> store.project_id@ == id@,
{
}

// ---------------------------------------------------------------------------
// Terms
// ---------------------------------------------------------------------------

/// The stems of a memory are asked where they are kept, and a term is known where any
/// part has it.
pub proof fn stems_are_asked_where_they_are(
    k: &KeywordStems,
    term: &str,
    summary: bool,
    tags: bool,
    any: bool,
    n: u32,
    word: &str,
    stop: bool,
)
    requires
        call_ensures(KeywordStems::in_summary, (k, term), summary),
        call_ensures(KeywordStems::in_tags, (k, term), tags),
        call_ensures(KeywordStems::contains, (k, term), any),
        call_ensures(KeywordStems::content_freq, (k, term), n),
        call_ensures(is_stopword, (word,), stop),
    ensures
        summary <==> lists(k.summary@, term@),
        tags <==> lists(k.tags@, term@),
        any <==> summary || tags || exists|i: int|
            0 <= i < k.content@.len() && (#[trigger] k.content@[i]).0@ == term@,
        k.content@.len() > 0 && k.content@[0].0@ == term@ ==> n == k.content@[0].1,
        (forall|i: int| 0 <= i < k.content@.len() ==> (#[trigger] k.content@[i]).0@ != term@)
            ==> n == 0,
        stop <==> crate::term_laws::is_function_word(word@),
{
    lemma_lists(k.summary@, term@);
    lemma_lists(k.tags@, term@);
    let c = crate::normalize::counted(k.content@);
    if c.contains(term@) {
        let i = choose|i: int| 0 <= i < c.len() && c[i] == term@;
        assert(k.content@[i].0@ == term@);
    }
    if exists|i: int| 0 <= i < k.content@.len() && (#[trigger] k.content@[i]).0@ == term@ {
        let i = choose|i: int| 0 <= i < k.content@.len() && (#[trigger] k.content@[i]).0@ == term@;
        assert(c[i] == term@);
    }
    if forall|i: int| 0 <= i < k.content@.len() ==> (#[trigger] k.content@[i]).0@ != term@ {
        lemma_absent(k.content@, term@);
    }
    crate::term_laws::exactly_the_function_words_are_left_out(word@);
}

proof fn lemma_absent(v: Seq<(String, u32)>, term: Seq<char>)
    requires
        forall|i: int| 0 <= i < v.len() ==> (#[trigger] v[i]).0@ != term,
    ensures
        crate::normalize::count_in(v, term) == 0,
    decreases v.len(),
{
    if v.len() > 0 {
        let rest = v.drop_first();
        assert forall|i: int| 0 <= i < rest.len() implies (#[trigger] rest[i]).0@ != term by {
            assert(rest[i] == v[i + 1]);
        }
        lemma_absent(rest, term);
    }
}

// ---------------------------------------------------------------------------
// Places
// ---------------------------------------------------------------------------

/// Where the transcripts and the tasks of a project lie.
pub proof fn state_lies_where_it_is_looked_for(
    root: &FilePath,
    projects: FilePath,
    dir: &FilePath,
    tasks: FilePath,
    home: FilePath,
    name: &str,
    r: Result<FilePath, StorageError>,
    lost: Result<FilePath, StorageError>,
)
    requires
        call_ensures(projects_root, (root,), projects),
        call_ensures(mapping_path, (dir,), tasks),
        call_ensures(claude_home, (None::<&str>, Some(home), name), r),
        call_ensures(claude_home, (None::<&str>, None::<FilePath>, name), lost),
    ensures
        projects@ == root@ + seq![PartView::Name("projects"@)],
        tasks@ == dir@ + seq![
            PartView::Name(".engramdb"@),
            PartView::Name("state"@),
            PartView::Name("session_tasks.json"@),
        ],
        r matches Ok(p) && p@ == home@ + seq![PartView::Name(name@)],
        lost is Err,
{
    crate::listing_laws::a_configured_state_directory_wins(Seq::empty(), Some(home@), name@);
    crate::listing_laws::a_configured_state_directory_wins(Seq::empty(), None, name@);
}

/// A directory of transcripts is looked into where nothing is wanted, and where it is
/// named after a wanted path.
pub proof fn a_directory_is_judged_by_its_name(
    name: &str,
    wanted: &[String],
    r: Option<bool>,
    i: int,
)
    requires
        call_ensures(judge_directory, (name, wanted), r),
        forall|j: int| 0 <= j < wanted@.len() ==> crate::text::is_ascii_text(
            (#[trigger] wanted@[j])@,
        ),
    ensures
        wanted@.len() == 0 ==> r == Some(true),
        0 <= i < wanted@.len() && name@ == crate::sessions::encoded(wanted@[i]@) ==> r == Some(true),
{
    let t = crate::text::texts(wanted@);
    assert(t.len() == wanted@.len());
    assert forall|j: int| 0 <= j < t.len() implies crate::text::is_ascii_text(
        #[trigger] t[j],
    ) by {
        assert(t[j] == wanted@[j]@);
    }
    crate::listing_laws::a_directory_is_looked_into_where_it_can_matter(
        name@,
        t,
        Seq::empty(),
        i,
    );
}

/// The session of an archive is what stands before its ending, and a file without
/// the ending is no archive.
pub proof fn an_archive_is_named_after_its_session(name: &str, r: Option<String>, s: Seq<char>)
    requires
        call_ensures(archive_session_id, (name,), r),
    ensures
        name@ == s + ".jsonl.zst"@ ==> is_text(r, s),
        r matches Some(t) ==> name@ == t@ + ".jsonl.zst"@,
{
    crate::archive_laws::an_archive_lies_under_its_project_and_session(Seq::empty(), s, name@);
    if let Some(t) = r {
        crate::archive_laws::an_archive_lies_under_its_project_and_session(
            Seq::empty(),
            t@,
            name@,
        );
    }
}

/// An archive of unknown size is restored up to the most that is ever restored.
pub proof fn an_archive_of_unknown_size_is_bounded(
    session: &str,
    archive: &[u8],
    r: Result<Restored, StorageError>,
)
    requires
        call_ensures(export_archive, (session, archive), r),
    ensures
        r matches Ok(x) ==> x.data@.len() <= 268_435_456
            && crate::transcript_archive::zstd_decoded(archive@, 268_435_457) == Some(x.data@),
        crate::transcript_archive::zstd_decoded(archive@, 268_435_457) is None ==> r is Err,
{
    crate::archive_laws::restoring_is_bounded(0);
}

// ---------------------------------------------------------------------------
// Transcripts in pieces
// ---------------------------------------------------------------------------

/// A transcript fed in pieces is the transcript, however it was cut.
pub proof fn pieces_make_the_whole(
    o: ParseOptions,
    start: SessionParser,
    p: &mut SessionParser,
    chunk: &[u8],
    id: String,
    path: String,
    bytes: u64,
    r: ParsedSession,
)
    requires
        call_ensures(SessionParser::new, (o,), start),
        *old(p) == start,
        call_ensures(SessionParser::feed, (p, chunk), ()),
        call_ensures(SessionParser::finish, (*final(p), id, path, bytes), r),
    ensures
        final(p).fed() == chunk@,
        final(p).options() == o,
        r.summary.session_id@ == id@,
        crate::reading_laws::sums_up(r.summary, chunk@, o),
        crate::transcripts::event_views(r.events@) == crate::transcripts::transcript_session(
            chunk@,
            o,
        ).events,
{
    assert(start.fed() + chunk@ =~= chunk@);
}

/// Feeding adds to what was fed before.
pub proof fn feeding_adds_to_what_was_fed(p: &mut SessionParser, chunk: &[u8])
    requires
        call_ensures(SessionParser::feed, (p, chunk), ()),
    ensures
        final(p).fed() == old(p).fed() + chunk@,
        final(p).options() == old(p).options(),
{
}

/// Every event stays where all tool calls are wanted, and everything but tool calls
/// stays in any case.
pub proof fn only_tool_calls_are_left_out(
    events: Vec<Event>,
    tools: ToolDetail,
    r: Vec<Event>,
    i: int,
)
    requires
        call_ensures(keep_events, (events, tools), r),
        0 <= i < events@.len(),
    ensures
        tools == ToolDetail::All ==> r@.len() == events@.len(),
        !(events@[i]@ is ToolCall) || events@[i]@->ok == Some(false) ==> exists|l: int|
            0 <= l < r@.len() && (#[trigger] r@[l])@ == events@[i]@,
        tools == ToolDetail::FailuresOnly && (events@[i]@ is ToolCall) && events@[i]@->ok != Some(
            false,
        ) ==> forall|l: int| 0 <= l < r@.len() ==> (#[trigger] r@[l])@ != events@[i]@,
{
    let all = crate::transcripts::event_views(events@);
    let out = crate::transcripts::event_views(r@);
    let keep = |e: EventView| crate::transcripts::stays(e, tools);
    let e = all[i];
    assert(e == events@[i]@);
    assert(all.contains(e));
    assert(out.len() == r@.len());
    crate::seqs::lemma_filter_contains(all, keep, e);
    if tools == ToolDetail::All {
        crate::seqs::lemma_filter_all(all, keep);
    }
    if out.contains(e) {
        let l = choose|l: int| 0 <= l < out.len() && out[l] == e;
        assert(r@[l]@ == e);
    } else {
        assert forall|l: int| 0 <= l < r@.len() implies (#[trigger] r@[l])@ != e by {
            assert(out[l] == r@[l]@);
        }
    }
}

/// An event has the time of its record.
pub proof fn an_event_has_its_time(e: &Event, r: Option<Timestamp>)
    requires
        call_ensures(Event::at, (e,), r),
    ensures
        e@ matches EventView::UserPrompt { at, .. } ==> r == at,
        e@ matches EventView::AssistantText { at, .. } ==> r == at,
        e@ matches EventView::Thinking { at, .. } ==> r == at,
        e@ matches EventView::ToolCall { at, .. } ==> r == at,
{
}

// ---------------------------------------------------------------------------
// Tasks
// ---------------------------------------------------------------------------

/// A task that is put in for a session is that session's, and no other session's
/// changes.
pub proof fn an_entry_is_its_sessions(
    tasks: &mut SessionTasks,
    session: String,
    entry: TaskEntry,
    other: Seq<char>,
)
    requires
        call_ensures(SessionTasks::insert, (tasks, session, entry), ()),
    ensures
        final(tasks)@.contains_key(session@),
        final(tasks)@[session@] == entry@,
        other != session@ ==> final(tasks)@.contains_key(other) == old(tasks)@.contains_key(other),
        other != session@ && old(tasks)@.contains_key(other) ==> final(tasks)@[other]
            == old(tasks)@[other],
{
}

} // verus!
