//! What holds of what is read out of transcripts, archives, texts and settings.
use vstd::prelude::*;

use crate::binary64::Binary64;
use crate::config::{
    ConfigError, EmbeddingsConfig, EngramConfig, ScoringWeights, TitleConfig, WeightSums,
};
use crate::env::in_process_override;
use crate::error::StorageError;
use crate::json::{Json, JsonView};
use crate::normalize::{
    all_terms, normalize, normalize_counts, normalize_set, KeywordStems,
};
use crate::outcome_laws::{lemma_lists, lists};
use crate::path::{FilePath, PartView};
use crate::preview::synthetic;
use crate::recall::{exact_topk, Recall};
use crate::record_laws::{holds_text, says};
use crate::sessions::{
    cwd_matches, encode_project_dir, is_valid_session_id, list_sessions, Candidate,
};
use crate::text::trim;
use crate::time::Timestamp;
use crate::transcript_archive::{
    accept_restored, archive_path, archive_transcript, export_archive_bounded, list_archives,
    prune_archives, Archived, ArchiveFile, PruneOutcome, Restored, StoredArchive,
};
use crate::transcripts::{
    parse_session, summarize_session, transcript_session, EventView, ParseOptions, ParsedSession,
    Progress, SessionSummary,
};

verus! {

broadcast use vstd::string::group_string_axioms;

// ---------------------------------------------------------------------------
// Transcripts
// ---------------------------------------------------------------------------

/// A record of the user with a text, bare or as a text block, adds that text as a
/// prompt and counts a turn, unless the text is blank or made by the harness.
pub proof fn a_record_of_the_user_is_a_prompt(
    p: &mut Progress,
    record: &Json,
    at: Option<Timestamp>,
    o: &ParseOptions,
    message: JsonView,
    block: JsonView,
    text: Seq<char>,
)
    requires
        call_ensures(Progress::apply_record, (p, record, at, o), ()),
        record.view().member("message"@) == Some(message),
        record.view().member("isSidechain"@) != Some(JsonView::Bool(true)),
        says(message, "user"@, JsonView::Text(text)) || (says(
            message,
            "user"@,
            JsonView::Array(seq![block]),
        ) && holds_text(block, "text"@, text)),
    ensures
        trim(text).len() > 0 && !synthetic(trim(text)) ==> final(p).session().events
            == old(p).session().events.push(EventView::UserPrompt { at, text: trim(text) })
            && final(p).session().user_turns == old(p).session().user_turns + 1,
        trim(text).len() == 0 || synthetic(trim(text)) ==> final(p).session().events
            == old(p).session().events && final(p).session().user_turns
            == old(p).session().user_turns,
        final(p).session().assistant_turns == old(p).session().assistant_turns,
{
    let s = old(p).session();
    let t = final(p).session();
    crate::record_laws::a_record_says_what_its_message_says(s, record.view(), at, *o, message);
    let noted = crate::transcripts::Session {
        started_at: t.started_at,
        ended_at: t.ended_at,
        cwd: t.cwd,
        git_branch: t.git_branch,
        ..s
    };
    crate::record_laws::a_text_from_the_user_is_a_prompt(noted, at, message, text, block, *o);
}

/// A record of the assistant with a text block adds that text as a reply and counts
/// a turn, unless it is blank.
pub proof fn a_record_of_the_assistant_is_a_reply(
    p: &mut Progress,
    record: &Json,
    at: Option<Timestamp>,
    o: &ParseOptions,
    message: JsonView,
    block: JsonView,
    text: Seq<char>,
)
    requires
        call_ensures(Progress::apply_record, (p, record, at, o), ()),
        record.view().member("message"@) == Some(message),
        record.view().member("isSidechain"@) != Some(JsonView::Bool(true)),
        says(message, "assistant"@, JsonView::Array(seq![block])),
        holds_text(block, "text"@, text),
    ensures
        trim(text).len() > 0 ==> final(p).session().events == old(p).session().events.push(
            EventView::AssistantText { at, text: trim(text) },
        ) && final(p).session().assistant_turns == old(p).session().assistant_turns + 1,
        trim(text).len() == 0 ==> final(p).session().events == old(p).session().events
            && final(p).session().assistant_turns == old(p).session().assistant_turns,
        final(p).session().user_turns == old(p).session().user_turns,
{
    let s = old(p).session();
    let t = final(p).session();
    crate::record_laws::a_record_says_what_its_message_says(s, record.view(), at, *o, message);
    let noted = crate::transcripts::Session {
        started_at: t.started_at,
        ended_at: t.ended_at,
        cwd: t.cwd,
        git_branch: t.git_branch,
        ..s
    };
    crate::record_laws::a_text_from_the_assistant_is_a_reply(noted, at, message, text, block, *o);
}

/// That one optional text is a value of another kind.
pub open spec fn is_value(a: Option<String>, b: Option<Seq<char>>) -> bool {
    match (a, b) {
        (Some(x), Some(y)) => x@ == y,
        (None, None) => true,
        _ => false,
    }
}

/// That a summary has everything that a session says.
pub open spec fn sums_up(r: SessionSummary, data: Seq<u8>, o: ParseOptions) -> bool {
    let s = transcript_session(data, o);
    &&& is_value(r.cwd, s.cwd)
    &&& is_value(r.git_branch, s.git_branch)
    &&& is_value(r.first_prompt, s.first_prompt)
    &&& r.started_at == s.started_at
    &&& r.ended_at == s.ended_at
    &&& r.user_turns == s.user_turns
    &&& r.assistant_turns == s.assistant_turns
    &&& r.skipped_records == s.skipped_records
}

/// A parsed transcript has every event and every count of what its records say, under
/// the name and place given.
pub proof fn a_parsed_transcript_tells_everything(
    id: String,
    path: String,
    bytes: u64,
    data: &[u8],
    o: ParseOptions,
    r: ParsedSession,
    i: int,
)
    requires
        call_ensures(parse_session, (id, path, bytes, data, o), r),
    ensures
        r.summary.session_id@ == id@,
        r.summary.transcript_path@ == path@,
        r.summary.bytes == bytes,
        sums_up(r.summary, data@, o),
        r.events@.len() == transcript_session(data@, o).events.len(),
        0 <= i < r.events@.len() ==> r.events@[i]@ == transcript_session(data@, o).events[i],
{
    let views = crate::transcripts::event_views(r.events@);
    assert(views.len() == r.events@.len());
    if 0 <= i < r.events@.len() {
        assert(views[i] == r.events@[i]@);
    }
}

/// A summary tells what a parse of the same transcript tells, whatever detail was
/// asked for there, as long as the turns of subagents are left out.
pub proof fn a_summary_agrees_with_every_parse(
    id: String,
    path: String,
    bytes: u64,
    data: &[u8],
    o: ParseOptions,
    parsed: ParsedSession,
    summary: SessionSummary,
)
    requires
        call_ensures(parse_session, (id, path, bytes, data, o), parsed),
        call_ensures(summarize_session, (id, path, bytes, data), summary),
        !o.include_sidechains,
    ensures
        summary.session_id@ == parsed.summary.session_id@,
        summary.user_turns == parsed.summary.user_turns,
        summary.assistant_turns == parsed.summary.assistant_turns,
        summary.started_at == parsed.summary.started_at,
        summary.ended_at == parsed.summary.ended_at,
        summary.skipped_records == parsed.summary.skipped_records,
        crate::text::opt_text(summary.first_prompt) == crate::text::opt_text(
            parsed.summary.first_prompt,
        ),
        crate::text::opt_text(summary.cwd) == crate::text::opt_text(parsed.summary.cwd),
{
    crate::transcript_laws::summary_does_not_depend_on_detail(
        data@,
        o,
        crate::transcripts::summary_options(),
    );
}

// ---------------------------------------------------------------------------
// Listings
// ---------------------------------------------------------------------------

/// A working directory belongs to the wanted projects exactly where one of them is
/// that directory or lies above it, however far; a transcript without one goes by
/// the name of its own directory.
pub proof fn a_session_belongs_at_or_below_a_wanted_directory(
    cwd: &Option<FilePath>,
    wanted: &[FilePath],
    exact_dir: bool,
    r: bool,
)
    requires
        call_ensures(cwd_matches, (cwd, wanted, exact_dir), r),
    ensures
        *cwd is None ==> r == exact_dir,
        *cwd matches Some(dir) ==> (r <==> exists|i: int, below: Seq<PartView>|
            0 <= i < wanted@.len() && dir@ == #[trigger] ((#[trigger] wanted@[i])@ + below)),
{
    let all = crate::sessions::path_views(wanted@);
    if let Some(dir) = *cwd {
        if r {
            let i = choose|i: int|
                0 <= i < all.len() && (#[trigger] all[i]).is_prefix_of(dir@);
            let w = wanted@[i]@;
            assert(all[i] == w);
            assert(dir@ =~= w + dir@.skip(w.len() as int));
        }
        if exists|i: int, below: Seq<PartView>|
            0 <= i < wanted@.len() && dir@ == #[trigger] ((#[trigger] wanted@[i])@ + below) {
            let (i, below) = choose|i: int, below: Seq<PartView>|
                0 <= i < wanted@.len() && dir@ == #[trigger] ((#[trigger] wanted@[i])@ + below);
            let w = wanted@[i]@;
            assert(all[i] == w);
            assert(w =~= dir@.subrange(0, w.len() as int));
            assert(all[i].is_prefix_of(dir@));
        }
    }
}

/// A working directory that belongs still does with any part added to it.
pub proof fn what_lies_below_belongs_too(
    cwd: &Option<FilePath>,
    below: &Option<FilePath>,
    wanted: &[FilePath],
    exact_dir: bool,
    r: bool,
    s: bool,
    part: PartView,
)
    requires
        call_ensures(cwd_matches, (cwd, wanted, exact_dir), r),
        call_ensures(cwd_matches, (below, wanted, exact_dir), s),
        *cwd is Some,
        *below is Some,
        (*below)->0@ == (*cwd)->0@.push(part),
    ensures
        r ==> s,
{
    let all = crate::sessions::path_views(wanted@);
    crate::listing_laws::belonging_goes_down((*cwd)->0@, seq![part], all, exact_dir);
    assert((*cwd)->0@ + seq![part] =~= (*cwd)->0@.push(part));
}

/// The listing has every candidate that belongs and no other, the one that ended
/// last first.
pub proof fn a_listing_has_what_belongs(
    candidates: Vec<Candidate>,
    wanted: &[FilePath],
    r: Vec<SessionSummary>,
    i: int,
    a: int,
    b: int,
)
    requires
        call_ensures(list_sessions, (candidates, wanted), r),
    ensures
        wanted@.len() == 0 ==> r@.len() == candidates@.len(),
        0 <= i < candidates@.len() && (wanted@.len() == 0 || crate::sessions::belongs(
            crate::sessions::opt_path(candidates@[i].cwd),
            crate::sessions::path_views(wanted@),
            candidates@[i].exact_dir,
        )) ==> r@.contains(candidates@[i].summary),
        0 <= a < b < r@.len() ==> (r@[b].ended_at matches Some(t) ==> (r@[a].ended_at matches Some(
            s,
        ) && (s.secs > t.secs || (s.secs == t.secs && s.nanos >= t.nanos)))),
{
    let dirs = crate::sessions::path_views(wanted@);
    let all = crate::sessions::listed(candidates@, dirs);
    r@.to_multiset_ensures();
    all.to_multiset_ensures();
    assert(dirs.len() == wanted@.len());
    if wanted@.len() == 0 {
        let keep = |c: Candidate| crate::sessions::is_listed(c, dirs);
        crate::seqs::lemma_filter_all(candidates@, keep);
        assert(all.len() == candidates@.len());
    }
    if 0 <= i < candidates@.len() && (wanted@.len() == 0 || crate::sessions::belongs(
        crate::sessions::opt_path(candidates@[i].cwd),
        dirs,
        candidates@[i].exact_dir,
    )) {
        let s = candidates@[i].summary;
        crate::listing_laws::every_session_that_belongs_is_listed(candidates@, dirs, s);
        assert(candidates@[i].summary == s);
        assert(all.contains(s));
        assert(all.to_multiset().count(s) > 0);
        assert(r@.to_multiset().count(s) > 0);
    }
    if 0 <= a < b < r@.len() {
        assert(crate::sessions::listing_order()(r@[a], r@[b]));
        crate::listing_laws::the_latest_session_comes_first(r@[a], r@[b]);
        crate::listing_laws::the_latest_session_comes_first(r@[b], r@[a]);
    }
}

/// The name of a transcript directory and the shape of a session id.
pub proof fn names_of_transcripts_are_plain(
    path: &str,
    encoded: String,
    id: &str,
    valid: bool,
    i: int,
)
    requires
        call_ensures(encode_project_dir, (path,), encoded),
        call_ensures(is_valid_session_id, (id,), valid),
    ensures
        encoded@.len() == path@.len(),
        0 <= i < path@.len() ==> encoded@[i] == (if 'a' <= path@[i] <= 'z' || 'A' <= path@[i] <= 'Z'
            || '0' <= path@[i] <= '9' {
            path@[i]
        } else {
            '-'
        }),
        valid ==> 0 < id@.len() <= 128 && id@[0] != '.',
        valid && 0 <= i < id@.len() ==> 'a' <= id@[i] <= 'z' || 'A' <= id@[i] <= 'Z' || '0' <= id@[i]
            <= '9' || id@[i] == '-' || id@[i] == '_' || id@[i] == '.',
        valid && 0 < i < id@.len() ==> !(id@[i - 1] == '.' && id@[i] == '.'),
{
    if 0 <= i < path@.len() {
        crate::listing_laws::a_directory_name_keeps_letters_and_digits(path@, path@, i);
    }
    crate::listing_laws::a_session_id_is_a_plain_name(id@);
}

// ---------------------------------------------------------------------------
// Archives
// ---------------------------------------------------------------------------

/// An archive lies under its project, named after its session, and neither name may
/// be other than plain.
pub proof fn an_archive_lies_where_its_names_say(
    project: &str,
    session: &str,
    r: Result<FilePath, StorageError>,
)
    requires
        call_ensures(archive_path, (project, session), r),
    ensures
        r is Ok <==> crate::transcript_archive::valid_project_id(project@)
            && crate::sessions::valid_session_id(session@),
        r matches Ok(p) ==> p@ == crate::transcript_archive::archive_parts(project@, session@),
        r matches Err(e) ==> e is Validation,
{
}

/// An archived transcript is described by its own size and digest, and the archive
/// gives it back.
pub proof fn an_archived_transcript_is_described_truly(
    project: &str,
    session: &str,
    data: &[u8],
    now: Timestamp,
    r: Result<Archived, StorageError>,
)
    requires
        call_ensures(archive_transcript, (project, session, data, now), r),
    ensures
        r is Ok <==> crate::transcript_archive::valid_project_id(project@)
            && crate::sessions::valid_session_id(session@),
        r matches Ok(a) ==> {
            &&& a.reference.file_name@ == session@ + ".jsonl.zst"@
            &&& a.reference.original_bytes == data@.len()
            &&& a.reference.bytes == a.archive@.len()
            &&& a.reference.sha256@ == crate::transcript_archive::hex(
                crate::transcript_archive::sha256_of(data@),
            )
            &&& a.reference.archived_at == now
            &&& crate::transcript_archive::archive_holds(a.archive@, data@)
        },
{
    crate::archive_laws::an_archive_lies_under_its_project_and_session(
        project@,
        session@,
        session@ + ".jsonl.zst"@,
    );
}

/// Data is accepted as restored exactly where it is within the limit, and is then
/// what it was.
pub proof fn restored_data_is_accepted_within_the_limit(
    session: &str,
    data: Vec<u8>,
    limit: u64,
    r: Result<Restored, StorageError>,
)
    requires
        call_ensures(accept_restored, (session, data, limit), r),
    ensures
        r is Ok <==> data@.len() <= limit,
        r matches Ok(x) ==> x.data@ == data@ && x.sha256@ == crate::transcript_archive::hex(
            crate::transcript_archive::sha256_of(data@),
        ),
{
}

/// What was archived is restored as it was, where it is within the limit.
pub proof fn an_archive_gives_back_what_went_in(
    project: &str,
    session: &str,
    data: &[u8],
    now: Timestamp,
    a: Result<Archived, StorageError>,
    archive: &[u8],
    r: Result<Restored, StorageError>,
)
    requires
        call_ensures(archive_transcript, (project, session, data, now), a),
        a is Ok,
        archive@ == a->Ok_0.archive@,
        call_ensures(export_archive_bounded, (session, archive, Some(data@.len() as u64)), r),
        data@.len() <= 268_435_456,
    ensures
        r matches Ok(x) && x.data@ == data@,
{
    crate::archive_laws::restoring_is_bounded(data@.len() as u64);
}

/// The archives of a directory are listed with the oldest first, and none is left
/// out.
pub proof fn every_archive_is_listed(
    files: Vec<ArchiveFile>,
    r: Vec<StoredArchive>,
    s: Seq<char>,
    i: int,
    a: int,
    b: int,
)
    requires
        call_ensures(list_archives, (files,), r),
    ensures
        0 <= i < files@.len() && files@[i].name@ == s + ".jsonl.zst"@ ==> exists|j: int|
            0 <= j < r@.len() && (#[trigger] r@[j]).session_id@ == s && r@[j].bytes
                == files@[i].bytes && r@[j].modified == files@[i].modified,
        0 <= a < b < r@.len() ==> r@[a].modified.secs < r@[b].modified.secs || (
        r@[a].modified.secs == r@[b].modified.secs && r@[a].modified.nanos
            <= r@[b].modified.nanos),
        r@.len() <= files@.len(),
{
    let found = choose|found: Seq<StoredArchive>| #[trigger]
        crate::transcript_archive::are_archives(found, files@) && r@.to_multiset()
            == found.to_multiset();
    r@.to_multiset_ensures();
    found.to_multiset_ensures();
    crate::archive_laws::every_archive_file_is_an_archive(found, files@, i, 0);
    if 0 <= i < files@.len() && files@[i].name@ == s + ".jsonl.zst"@ {
        let j = choose|j: int|
            0 <= j < found.len() && files@[i].name@ == (#[trigger] found[j]).session_id@
                + ".jsonl.zst"@ && found[j].path == files@[i].path && found[j].bytes
                == files@[i].bytes && found[j].modified == files@[i].modified;
        let x = found[j];
        let end = ".jsonl.zst"@;
        assert(x.session_id@ =~= (x.session_id@ + end).take(
            (x.session_id@ + end).len() - end.len(),
        ));
        assert(s =~= (s + end).take((s + end).len() - end.len()));
        assert(found.contains(x));
        assert(found.to_multiset().count(x) > 0);
        assert(r@.to_multiset().count(x) > 0);
        assert(r@.contains(x));
    }
    if 0 <= a < b < r@.len() {
        assert(crate::transcript_archive::age_order()(r@[a], r@[b]));
        crate::archive_laws::archives_are_ordered_by_their_age(r@[a], r@[b]);
    }
}

/// Pruning accounts for every byte, and prunes nothing where there is no limit.
pub proof fn pruning_removes_nothing_without_a_limit(
    archives: &[StoredArchive],
    now: Timestamp,
    r: PruneOutcome,
)
    requires
        call_ensures(prune_archives, (archives, now, None::<u64>, 0u64), r),
    ensures
        r.removed@.len() == 0,
        r.bytes_freed == 0,
        r.bytes_remaining == crate::transcript_archive::bytes_of(archives@),
{
    let keep = |a: StoredArchive| !crate::transcript_archive::too_old(a, None);
    let lose = |a: StoredArchive| crate::transcript_archive::too_old(a, None);
    crate::seqs::lemma_filter_all(archives@, keep);
    let gone = archives@.filter(lose);
    assert(gone.len() == 0) by {
        if gone.len() > 0 {
            assert(gone.contains(gone[0]));
            crate::seqs::lemma_filter_contains(archives@, lose, gone[0]);
        }
    }
    let out = crate::transcript_archive::evicted(archives@, None, 0);
    assert(archives@.take(0) =~= Seq::empty());
    assert(archives@.skip(0) =~= archives@);
    assert(out =~= Seq::empty());
    assert(crate::text::texts(r.removed@).len() == 0);
}

/// Pruning removes the archives past their days and the oldest of the rest until it
/// is within the bytes, and tells how many bytes went and how many stay.
pub proof fn pruning_keeps_within_the_limits(
    archives: &[StoredArchive],
    now: Timestamp,
    days: Option<u64>,
    max_bytes: u64,
    r: PruneOutcome,
)
    requires
        call_ensures(prune_archives, (archives, now, days, max_bytes), r),
        vstd::relations::sorted_by(archives@, crate::transcript_archive::age_order()),
    ensures
        max_bytes > 0 ==> r.bytes_remaining <= max_bytes,
        r.bytes_freed + r.bytes_remaining == crate::transcript_archive::bytes_of(archives@),
        r.removed@.len() <= archives@.len(),
        forall|i: int|
            0 <= i < r.removed@.len() ==> (#[trigger] r.removed@[i])@ == archives@[i].session_id@,
{
    let cutoff = match days {
        Some(days) => crate::transcript_archive::retention_cutoff(now, days),
        None => None,
    };
    let gone = crate::transcript_archive::evicted(archives@, cutoff, max_bytes);
    crate::transcript_archive::pruning_accounts_for_every_byte(archives@, cutoff, max_bytes);
    crate::transcript_archive::pruning_takes_the_oldest(archives@, cutoff, max_bytes);
    if archives@.len() > 0 {
        crate::archive_laws::pruning_goes_no_further_than_needed(
            archives@,
            cutoff,
            max_bytes,
            0,
        );
        let n = gone.len() as int;
        assert(gone == archives@.take(n));
        let ids = crate::text::texts(r.removed@);
        assert(ids.len() == r.removed@.len());
        assert forall|i: int| 0 <= i < r.removed@.len() implies (#[trigger] r.removed@[i])@
            == archives@[i].session_id@ by {
            assert(ids[i] == r.removed@[i]@);
            assert(gone[i] == archives@[i]);
        }
    } else {
        let ids = crate::text::texts(r.removed@);
        assert(ids.len() == r.removed@.len());
    }
}

// ---------------------------------------------------------------------------
// Terms
// ---------------------------------------------------------------------------

/// A text is searched by each of its terms, once, and by nothing else, in whichever
/// way its terms are asked for.
pub proof fn every_term_of_a_text_is_found(
    text: &str,
    list: Vec<String>,
    set: Vec<String>,
    counts: (Vec<(String, u32)>, usize),
    term: Seq<char>,
)
    requires
        call_ensures(normalize, (text,), list),
        call_ensures(normalize_set, (text,), set),
        call_ensures(normalize_counts, (text,), counts),
    ensures
        lists(list@, term) <==> all_terms(text@).contains(term),
        lists(set@, term) <==> all_terms(text@).contains(term),
        (exists|i: int| 0 <= i < counts.0@.len() && (#[trigger] counts.0@[i]).0@ == term)
            <==> all_terms(text@).contains(term),
        counts.1 == all_terms(text@).len(),
        list@.len() == set@.len(),
        list@.len() == counts.0@.len(),
{
    let terms = all_terms(text@);
    crate::normalize::lemma_distinct(terms);
    lemma_lists(list@, term);
    lemma_lists(set@, term);
    let d = crate::normalize::distinct(terms);
    let s = crate::text::texts(set@);
    let c = crate::normalize::counted(counts.0@);
    assert(c == d);
    assert(c.len() == counts.0@.len());
    assert(d.len() == list@.len());
    assert(d.to_set() =~= s.to_set()) by {
        assert forall|w: Seq<char>| d.to_set().contains(w) <==> s.to_set().contains(w) by {
            assert(d.contains(w) <==> terms.contains(w));
            assert(s.contains(w) <==> terms.contains(w));
        }
    }
    d.unique_seq_to_set();
    s.unique_seq_to_set();
    assert(s.len() == set@.len());
    if c.contains(term) {
        let i = choose|i: int| 0 <= i < c.len() && c[i] == term;
        assert(counts.0@[i].0@ == term);
    }
    if exists|i: int| 0 <= i < counts.0@.len() && (#[trigger] counts.0@[i]).0@ == term {
        let i = choose|i: int| 0 <= i < counts.0@.len() && (#[trigger] counts.0@[i]).0@ == term;
        assert(c[i] == term);
    }
}

/// The stems of a memory have the terms of its summary, of every one of its tags
/// and of its content, each where it comes from.
pub proof fn stems_are_kept_where_they_come_from(
    summary: &str,
    tags: &[String],
    content: &str,
    r: KeywordStems,
    term: Seq<char>,
    k: int,
)
    requires
        call_ensures(KeywordStems::compute, (summary, tags, content), r),
        all_terms(content@).len() < 0x1_0000_0000,
    ensures
        lists(r.summary@, term) <==> all_terms(summary@).contains(term),
        0 <= k < tags@.len() && all_terms(tags@[k]@).contains(term) ==> lists(r.tags@, term),
        crate::normalize::count_in(r.content@, term) == all_terms(content@).to_multiset().count(
            term,
        ),
        r.content_len == all_terms(content@).len(),
{
    crate::normalize::lemma_distinct(all_terms(summary@));
    lemma_lists(r.summary@, term);
    lemma_lists(r.tags@, term);
    let t = crate::text::texts(tags@);
    crate::normalize::lemma_distinct(crate::normalize::tag_terms(t));
    if 0 <= k < tags@.len() && all_terms(tags@[k]@).contains(term) {
        assert(t[k] == tags@[k]@);
        lemma_tag_terms(t, k, term);
    }
    crate::term_laws::every_term_of_a_content_is_counted(r.content@, all_terms(content@), term);
}

proof fn lemma_tag_terms(tags: Seq<Seq<char>>, k: int, term: Seq<char>)
    requires
        0 <= k < tags.len(),
        all_terms(tags[k]).contains(term),
    ensures
        crate::normalize::tag_terms(tags).contains(term),
    decreases tags.len(),
{
    let before = tags.drop_last();
    let a = crate::normalize::tag_terms(before);
    let b = crate::normalize::distinct(all_terms(tags.last()));
    let all = crate::normalize::tag_terms(tags);
    assert(all == a + b);
    if k < before.len() {
        assert(before[k] == tags[k]);
        lemma_tag_terms(before, k, term);
        let i = choose|i: int| 0 <= i < a.len() && a[i] == term;
        assert(all[i] == term);
    } else {
        assert(tags[k] == tags.last());
        crate::normalize::lemma_distinct(all_terms(tags.last()));
        assert(b.contains(term));
        let i = choose|i: int| 0 <= i < b.len() && b[i] == term;
        assert(all[a.len() + i] == term);
    }
}

// ---------------------------------------------------------------------------
// Settings
// ---------------------------------------------------------------------------

/// A configuration passes exactly where nothing in it is at fault.
pub proof fn a_configuration_passes_where_nothing_is_at_fault(
    c: &EngramConfig,
    sums: &WeightSums,
    r: Result<(), ConfigError>,
)
    requires
        call_ensures(EngramConfig::validate, (c, sums), r),
    ensures
        r is Ok <==> c.fault(*sums) is None,
        r is Ok ==> 1 <= c.embeddings.dimensions <= 4096 && c.retrieval.max_results >= 1
            && c.daemon.idle_timeout_secs >= 60,
{
    crate::setting_laws::a_configuration_is_accepted_where_every_setting_is_in_bounds(*c, *sums);
}

/// A pool has the size that is set, at least one, and half the cores where none is.
pub proof fn a_pool_has_at_least_one_place(
    e: &EmbeddingsConfig,
    t: &TitleConfig,
    cores: usize,
    embedding: usize,
    title: usize,
)
    requires
        call_ensures(EmbeddingsConfig::resolved_pool_size, (e, cores), embedding),
        call_ensures(TitleConfig::resolved_pool_size, (t, cores), title),
    ensures
        embedding >= 1,
        e.pool_size matches Some(n) ==> n >= 1 ==> embedding == n,
        e.pool_size is None && cores >= 2 ==> embedding == cores / 2,
        title >= 1,
        cores >= 1 ==> title <= cores,
        t.pool_size matches Some(n) ==> 1 <= n <= cores ==> title == n,
        t.pool_size is None && cores >= 2 ==> title == 2,
{
}

/// A switch in the environment is on for a text that says so, in any case, and off
/// for any other and for none.
pub proof fn a_switch_is_on_where_it_says_so(value: Option<&str>, r: bool)
    requires
        call_ensures(in_process_override, (value,), r),
    ensures
        value is None ==> !r,
        value matches Some(v) ==> crate::text::is_ascii_text(v@) ==> (r <==> {
            let low = crate::text::ascii_lowercase(v@);
            low == "1"@ || low == "true"@ || low == "yes"@ || low == "on"@
        }),
{
}

/// A weight that is not set counts as nothing in the sum of weights.
pub proof fn an_unset_weight_counts_as_nothing(
    w: &ScoringWeights,
    r: (Binary64, Binary64, Binary64),
)
    requires
        call_ensures(ScoringWeights::summands, (w,), r),
    ensures
        w.keyword is None ==> r.0.bits == 0,
        w.keyword matches Some(k) ==> r.0 == k,
        w.semantic is None ==> r.1.bits == 0,
        w.semantic matches Some(s) ==> r.1 == s,
        r.2 == w.relevance,
{
}

// ---------------------------------------------------------------------------
// Rankings
// ---------------------------------------------------------------------------

/// The best are as many as were asked for, where there are so many, and no item that
/// is left out scores better than one that is not.
pub proof fn the_best_are_taken(scores: &[i64], k: usize, r: Vec<u64>, a: int, i: int)
    requires
        call_ensures(exact_topk, (scores, k), r),
        scores@.len() <= u64::MAX,
    ensures
        k <= scores@.len() ==> r@.len() == k,
        k > scores@.len() ==> r@.len() == scores@.len(),
        0 <= a < r@.len() ==> 0 <= r@[a] < scores@.len(),
        0 <= a < r@.len() && 0 <= i < scores@.len() && !r@.contains(i as u64) ==> scores@[i]
            <= scores@[r@[a] as int],
{
    let order = choose|order: Seq<(i64, u64)>| #[trigger]
        crate::recall::is_ranking(scores@, order) && r@.len() == (if k <= scores@.len() {
            k as int
        } else {
            scores@.len() as int
        }) && forall|i: int| 0 <= i < r@.len() ==> #[trigger] r@[i] == order[i].1;
    crate::setting_laws::a_ranking_puts_the_better_first(scores@, order, a, i);
    if 0 <= a < r@.len() {
        assert(r@[a] == order[a].1);
        if 0 <= i < scores@.len() && !r@.contains(i as u64) {
            let x = (scores@[i], i as u64);
            assert(order.contains(x));
            let b = choose|b: int| 0 <= b < order.len() && order[b] == x;
            if b < r@.len() {
                assert(r@[b] == order[b].1);
                assert(r@.contains(i as u64));
            }
            crate::setting_laws::a_ranking_puts_the_better_first(scores@, order, a, b);
        }
    }
}

/// A recall counts a hit for each result that is right, a total of what was to be
/// found, and a first place where the best is the right one.
pub proof fn a_recall_counts_what_is_right(
    recall: &mut Recall,
    truth: &[u64],
    got: &[u64],
)
    requires
        call_ensures(Recall::count, (recall, truth, got), ()),
    ensures
        final(recall).total == old(recall).total + truth@.len(),
        (forall|i: int| 0 <= i < got@.len() ==> truth@.contains(#[trigger] got@[i]))
            ==> final(recall).hits == old(recall).hits + got@.len(),
        (forall|i: int| 0 <= i < got@.len() ==> !truth@.contains(#[trigger] got@[i]))
            ==> final(recall).hits == old(recall).hits,
        got@.len() > 0 && got@[0] == truth@[0] ==> final(recall).top1 == old(recall).top1 + 1,
        got@.len() == 0 || got@[0] != truth@[0] ==> final(recall).top1 == old(recall).top1,
{
    let right = |id: u64| truth@.contains(id);
    if forall|i: int| 0 <= i < got@.len() ==> truth@.contains(#[trigger] got@[i]) {
        crate::seqs::lemma_filter_all(got@, right);
    }
    if forall|i: int| 0 <= i < got@.len() ==> !truth@.contains(#[trigger] got@[i]) {
        let hits = got@.filter(right);
        if hits.len() > 0 {
            assert(hits.contains(hits[0]));
            crate::seqs::lemma_filter_contains(got@, right, hits[0]);
            let i = choose|i: int| 0 <= i < got@.len() && got@[i] == hits[0];
            assert(!truth@.contains(got@[i]));
        }
    }
}

} // verus!
