//! Compressed archives of session transcripts.
//!
//! An archive is taken when a session ends, because the original is pruned by
//! the program that wrote it. Archives live below the data directory at
//! `projects/<project>/transcripts/<session>.jsonl.zst`. An age limit and a
//! size limit apply, and the oldest archive goes first.

use crate::error::{quoted, StorageError};
use crate::path::{FilePath, Part, PartView};
use crate::seqs::reversed;
use crate::sessions::is_valid_session_id;
use crate::sort::sort_vec;
use crate::text::{ascii_alphanumeric, decimal_text, from_char_range, to_chars};
use crate::time::{days_before, Timestamp};
use sha2::Digest;
use std::io::Read;
use vstd::prelude::*;
use vstd::relations::sorted_by;

verus! {

broadcast use vstd::string::group_string_axioms;

/// Compression level: zstd's default. Session teardown must not stall, so
/// throughput matters more than the last few percent of ratio.
pub const ZSTD_LEVEL: i32 = 3;

/// Extension of an archived transcript.
pub const ARCHIVE_EXT: &'static str = "jsonl.zst";

/// Ceiling on a restored transcript: 256 MiB.
pub const MAX_RESTORED_BYTES: u64 = 268_435_456;

/// Slack over the recorded size of a transcript when it is restored.
pub const RESTORE_SLACK_BYTES: u64 = 65_536;

/// Longest project id that is accepted.
pub const MAX_PROJECT_ID_CHARS: usize = 64;

// ---------------------------------------------------------------------------
// Outside functions
// ---------------------------------------------------------------------------

/// The SHA-256 digest of some bytes.
pub uninterp spec fn sha256_of(data: Seq<u8>) -> Seq<u8>;

/// `sha2::Sha256::digest`: 32 bytes, determined by the data.
#[verifier::external_body]
fn sha256(data: &[u8]) -> (r: Vec<u8>)
    ensures
        r@ == sha256_of(data@),
        r@.len() == 32,
{
    sha2::Sha256::digest(data).to_vec()
}

/// The first `limit` bytes that `zstd::stream::Decoder` reads out of some
/// compressed bytes, or nothing where it fails before it has read them.
pub uninterp spec fn zstd_decoded(archive: Seq<u8>, limit: nat) -> Option<Seq<u8>>;

/// Reads at most `limit` bytes through `zstd::stream::Decoder`. A failure
/// carries the decoder's own message.
#[verifier::external_body]
fn zstd_decode(archive: &[u8], limit: u64) -> (r: Result<Vec<u8>, String>)
    ensures
        (match r {
            Ok(data) => Some(data@),
            Err(_) => None::<Seq<u8>>,
        }) == zstd_decoded(archive@, limit as nat),
        r matches Ok(data) ==> data@.len() <= limit,
{
    let mut out = Vec::new();
    match zstd::stream::Decoder::new(archive).and_then(|d| d.take(limit).read_to_end(&mut out)) {
        Ok(_) => Ok(out),
        Err(e) => Err(e.to_string()),
    }
}

/// Whether an archive decodes to the given data, up to any limit.
pub open spec fn archive_holds(archive: Seq<u8>, data: Seq<u8>) -> bool {
    forall|n: nat| #[trigger]
        zstd_decoded(archive, n) == Some(
            if n < data.len() {
                data.take(n as int)
            } else {
                data
            },
        )
}

/// `zstd::stream::encode_all`, from a slice and at an ordinary level. It reads
/// from memory and writes to memory, so it succeeds, as far as there is memory.
/// What it makes of the data decodes to the data, up to any limit; which bytes
/// those are depends on the level and on the machine, and is left open.
#[verifier::external_body]
fn zstd_encode(data: &[u8], level: i32) -> (r: Result<Vec<u8>, String>)
    requires
        1 <= level <= 19,
    ensures
        r is Ok,
        r matches Ok(archive) ==> archive_holds(archive@, data@),
{
    zstd::stream::encode_all(data, level).map_err(|e| e.to_string())
}

// ---------------------------------------------------------------------------
// Digests
// ---------------------------------------------------------------------------

/// The lowercase hexadecimal digit.
pub open spec fn hex_digit(n: int) -> char {
    if n < 10 {
        (48 + n) as char
    } else {
        (87 + n) as char
    }
}

/// Two lowercase hexadecimal digits for each byte.
pub open spec fn hex(bytes: Seq<u8>) -> Seq<char>
    decreases bytes.len(),
{
    if bytes.len() == 0 {
        Seq::empty()
    } else {
        hex(bytes.drop_last()).push(hex_digit(bytes.last() as int / 16)).push(
            hex_digit(bytes.last() as int % 16),
        )
    }
}

fn hex_char(n: u8) -> (r: char)
    requires
        n < 16,
    ensures
        r == hex_digit(n as int),
{
    if n < 10 {
        (48u8 + n) as char
    } else {
        (87u8 + n) as char
    }
}

fn hex_text(bytes: &[u8]) -> (r: String)
    ensures
        r@ == hex(bytes@),
{
    let mut out = String::new();
    let mut i: usize = 0;
    assert(bytes@.take(0) =~= Seq::empty());
    while i < bytes.len()
        invariant
            i <= bytes.len(),
            out@ == hex(bytes@.take(i as int)),
        decreases bytes.len() - i,
    {
        let ghost after = bytes@.take(i + 1);
        assert(after.drop_last() =~= bytes@.take(i as int));
        assert(after.last() == bytes@[i as int]);
        out.push(hex_char(bytes[i] / 16));
        out.push(hex_char(bytes[i] % 16));
        i += 1;
    }
    assert(bytes@.take(i as int) =~= bytes@);
    out
}

/// The SHA-256 of some bytes, in lowercase hexadecimal.
pub fn hex_digest(data: &[u8]) -> (r: String)
    ensures
        r@ == hex(sha256_of(data@)),
        r@.len() == 64,
{
    let digest = sha256(data);
    proof {
        lemma_hex_len(digest@);
    }
    hex_text(&digest)
}

proof fn lemma_hex_len(bytes: Seq<u8>)
    ensures
        hex(bytes).len() == 2 * bytes.len(),
    decreases bytes.len(),
{
    if bytes.len() > 0 {
        lemma_hex_len(bytes.drop_last());
    }
}

// ---------------------------------------------------------------------------
// Paths
// ---------------------------------------------------------------------------

/// A project id: of limited length, made of ASCII letters, digits, `_` and
/// `-`.
pub open spec fn valid_project_id(s: Seq<char>) -> bool {
    &&& 0 < s.len() <= MAX_PROJECT_ID_CHARS
    &&& forall|i: int|
        0 <= i < s.len() ==> crate::text::is_ascii_alphanumeric(#[trigger] s[i]) || s[i] == '_'
            || s[i] == '-'
}

fn is_valid_project_id(id: &str) -> (r: bool)
    ensures
        r == valid_project_id(id@),
{
    let cs = to_chars(id);
    if cs.len() == 0 || cs.len() > MAX_PROJECT_ID_CHARS {
        return false;
    }
    let mut i: usize = 0;
    while i < cs.len()
        invariant
            i <= cs.len(),
            cs@ == id@,
            forall|j: int|
                0 <= j < i ==> crate::text::is_ascii_alphanumeric(#[trigger] cs@[j]) || cs@[j]
                    == '_' || cs@[j] == '-',
        decreases cs.len() - i,
    {
        let c = cs[i];
        if !(ascii_alphanumeric(c) || c == '_' || c == '-') {
            assert(!(crate::text::is_ascii_alphanumeric(id@[i as int]) || id@[i as int] == '_'
                || id@[i as int] == '-'));
            return false;
        }
        i += 1;
    }
    true
}

/// The file name of a session's archive.
pub open spec fn archive_name(session_id: Seq<char>) -> Seq<char> {
    session_id + "."@ + ARCHIVE_EXT@
}

/// The components of an archive's path below the data directory.
pub open spec fn archive_parts(project_id: Seq<char>, session_id: Seq<char>) -> Seq<PartView> {
    seq![
        PartView::Name("projects"@),
        PartView::Name(project_id),
        PartView::Name("transcripts"@),
        PartView::Name(archive_name(session_id)),
    ]
}

pub open spec fn bad_project_id_text(id: Seq<char>) -> Seq<char> {
    "invalid project id "@ + crate::error::debug_quoted(id)
        + ": expected a plain identifier (letters, digits, '_', '-') that is not a path"@
}

pub open spec fn bad_session_id_text(id: Seq<char>) -> Seq<char> {
    "invalid session id "@ + crate::error::debug_quoted(id)
        + ": expected a plain identifier (letters, digits, '-', '_', '.') that is not a path"@
}

/// The path of an archive below the data directory.
///
/// The single choke point for archiving, restoring and removing. Both ids come
/// from outside and are joined into the path, so both are checked.
pub fn archive_path(project_id: &str, session_id: &str) -> (r: Result<FilePath, StorageError>)
    ensures
        match r {
            Ok(path) => valid_project_id(project_id@) && crate::sessions::valid_session_id(
                session_id@,
            ) && path@ == archive_parts(project_id@, session_id@),
            Err(e) => if !valid_project_id(project_id@) {
                e.refuses(bad_project_id_text(project_id@))
            } else {
                !crate::sessions::valid_session_id(session_id@) && e.refuses(
                    bad_session_id_text(session_id@),
                )
            },
        },
{
    if !is_valid_project_id(project_id) {
        let mut message = "invalid project id ".to_owned();
        message.append(quoted(project_id).as_str());
        message.append(
            ": expected a plain identifier (letters, digits, '_', '-') that is not a path",
        );
        return Err(StorageError::Validation(message));
    }
    if !is_valid_session_id(session_id) {
        let mut message = "invalid session id ".to_owned();
        message.append(quoted(session_id).as_str());
        message.append(
            ": expected a plain identifier (letters, digits, '-', '_', '.') that is not a path",
        );
        return Err(StorageError::Validation(message));
    }
    let mut name = session_id.to_owned();
    name.append(".");
    name.append(ARCHIVE_EXT);
    let mut parts: Vec<Part> = Vec::new();
    parts.push(Part::Name("projects".to_owned()));
    parts.push(Part::Name(project_id.to_owned()));
    parts.push(Part::Name("transcripts".to_owned()));
    parts.push(Part::Name(name));
    let path = FilePath { parts };
    assert(path@ =~= archive_parts(project_id@, session_id@));
    Ok(path)
}

/// An archive's path never leaves the project's own directory: each of its
/// components, read as a path of its own, is that one ordinary name.
pub proof fn archive_path_cannot_traverse(project_id: Seq<char>, session_id: Seq<char>, i: int)
    requires
        valid_project_id(project_id),
        crate::sessions::valid_session_id(session_id),
        0 <= i < 4,
    ensures
        archive_parts(project_id, session_id)[i] matches PartView::Name(name)
            && crate::path::path_parts(name) == seq![PartView::Name(name)],
{
    reveal_strlit("projects");
    reveal_strlit("transcripts");
    reveal_strlit("jsonl.zst");
    reveal_strlit(".");
    reveal_strlit("..");
    let name = archive_parts(project_id, session_id)[i]->Name_0;
    assert(name.len() > 0 && name[0] != '.' && forall|j: int|
        0 <= j < name.len() ==> name[j] != '/') by {
        if i == 1 {
            assert(crate::text::is_ascii_alphanumeric(project_id[0]) || project_id[0] == '_'
                || project_id[0] == '-');
        } else if i == 3 {
            assert forall|j: int| 0 <= j < name.len() implies name[j] != '/' by {
                if j < session_id.len() {
                    assert(crate::sessions::session_id_char(session_id[j]));
                    assert(name[j] == session_id[j]);
                } else {
                    assert(name[j] == ("."@ + ARCHIVE_EXT@)[j - session_id.len()]);
                }
            }
        }
    }
    assert("."@[0] == '.');
    assert(".."@[0] == '.');
    crate::path::lemma_single_name(name);
}

/// Different sessions, or the same session of different projects, have
/// different archives.
pub proof fn archive_paths_do_not_collide(
    project_a: Seq<char>,
    session_a: Seq<char>,
    project_b: Seq<char>,
    session_b: Seq<char>,
)
    requires
        archive_parts(project_a, session_a) == archive_parts(project_b, session_b),
    ensures
        project_a == project_b,
        session_a == session_b,
{
    let x = archive_parts(project_a, session_a);
    let y = archive_parts(project_b, session_b);
    assert(x[1] == y[1]);
    assert(x[3] == y[3]);
    let m = archive_name(session_a);
    let n = archive_name(session_b);
    assert(m.len() == n.len());
    assert(session_a =~= m.take(session_a.len() as int));
    assert(session_b =~= n.take(session_b.len() as int));
}

/// The session id in an archive's file name; nothing for any other file.
pub open spec fn archived_session(file_name: Seq<char>) -> Option<Seq<char>> {
    let suffix = "."@ + ARCHIVE_EXT@;
    if file_name.len() >= suffix.len() && file_name.skip(file_name.len() - suffix.len())
        == suffix {
        Some(file_name.take(file_name.len() - suffix.len()))
    } else {
        None
    }
}

/// The session id in an archive's file name.
pub fn archive_session_id(file_name: &str) -> (r: Option<String>)
    ensures
        crate::text::opt_text(r) == archived_session(file_name@),
{
    let cs = to_chars(file_name);
    let mut ending = ".".to_owned();
    ending.append(ARCHIVE_EXT);
    let suffix = to_chars(ending.as_str());
    if cs.len() < suffix.len() {
        return None;
    }
    let start: usize = cs.len() - suffix.len();
    let mut i: usize = 0;
    while i < suffix.len()
        invariant
            i <= suffix.len() <= cs.len(),
            start == cs.len() - suffix.len(),
            cs@ == file_name@,
            suffix@ == "."@ + ARCHIVE_EXT@,
            forall|j: int| 0 <= j < i ==> cs@[start + j] == suffix@[j],
        decreases suffix.len() - i,
    {
        if cs[start + i] != suffix[i] {
            assert(file_name@.skip(start as int)[i as int] != suffix@[i as int]);
            return None;
        }
        i += 1;
    }
    assert(file_name@.skip(start as int) =~= suffix@);
    let id = from_char_range(&cs, 0, start);
    assert(id@ =~= file_name@.take(start as int));
    Some(id)
}

/// The session of an archive's file name is the session that it was named
/// after.
pub proof fn archive_name_gives_back_its_session(session_id: Seq<char>)
    ensures
        archived_session(archive_name(session_id)) == Some(session_id),
{
    let name = archive_name(session_id);
    assert(name.skip(session_id.len() as int) =~= "."@ + ARCHIVE_EXT@);
    assert(name.take(session_id.len() as int) =~= session_id);
}

// ---------------------------------------------------------------------------
// Archiving and restoring
// ---------------------------------------------------------------------------

/// A stored archive, as recorded in the harvest ledger.
#[derive(Debug, PartialEq, Eq)]
pub struct ArchiveRef {
    /// File name within the project's archive directory.
    pub file_name: String,
    /// Size of the compressed archive.
    pub bytes: u64,
    /// Size of the original transcript.
    pub original_bytes: u64,
    /// SHA-256 of the uncompressed transcript.
    pub sha256: String,
    pub archived_at: Timestamp,
}

/// A transcript, ready to be stored.
#[derive(Debug)]
pub struct Archived {
    /// Where the archive goes, below the data directory.
    pub path: FilePath,
    /// The compressed transcript.
    pub archive: Vec<u8>,
    pub reference: ArchiveRef,
}

/// A transcript, restored.
#[derive(Debug)]
pub struct Restored {
    pub data: Vec<u8>,
    /// SHA-256 of the restored bytes.
    pub sha256: String,
}

/// Archives a transcript: compresses it, and says where it goes and what is
/// recorded of it. Only an id that is not valid is refused.
pub fn archive_transcript(
    project_id: &str,
    session_id: &str,
    transcript: &[u8],
    now: Timestamp,
) -> (r: Result<Archived, StorageError>)
    ensures
        match r {
            Ok(a) => {
                &&& valid_project_id(project_id@)
                &&& crate::sessions::valid_session_id(session_id@)
                &&& a.path@ == archive_parts(project_id@, session_id@)
                &&& archive_holds(a.archive@, transcript@)
                &&& a.reference.file_name@ == archive_name(session_id@)
                &&& a.reference.bytes == a.archive@.len()
                &&& a.reference.original_bytes == transcript@.len()
                &&& a.reference.sha256@ == hex(sha256_of(transcript@))
                &&& a.reference.archived_at == now
            },
            Err(e) => if !valid_project_id(project_id@) {
                e.refuses(bad_project_id_text(project_id@))
            } else {
                !crate::sessions::valid_session_id(session_id@) && e.refuses(
                    bad_session_id_text(session_id@),
                )
            },
        },
{
    let path = match archive_path(project_id, session_id) {
        Ok(path) => path,
        Err(e) => return Err(e),
    };
    let archive = match zstd_encode(transcript, ZSTD_LEVEL) {
        Ok(archive) => archive,
        Err(e) => return Err(StorageError::Io(e)),
    };
    let mut file_name = session_id.to_owned();
    file_name.append(".");
    file_name.append(ARCHIVE_EXT);
    let reference = ArchiveRef {
        file_name,
        bytes: archive.len() as u64,
        original_bytes: transcript.len() as u64,
        sha256: hex_digest(transcript),
        archived_at: now,
    };
    Ok(Archived { path, archive, reference })
}

/// How many bytes a restored transcript may have: the recorded size with some
/// slack where it is known, and never more than the ceiling.
pub open spec fn restore_limit(expected: Option<u64>) -> int {
    match expected {
        Some(n) => if n + RESTORE_SLACK_BYTES < MAX_RESTORED_BYTES {
            n + RESTORE_SLACK_BYTES
        } else {
            MAX_RESTORED_BYTES as int
        },
        None => MAX_RESTORED_BYTES as int,
    }
}

/// How many bytes a restored transcript may have.
pub fn limit_for(expected: Option<u64>) -> (r: u64)
    ensures
        r == restore_limit(expected),
{
    match expected {
        Some(n) => if n < MAX_RESTORED_BYTES - RESTORE_SLACK_BYTES {
            n + RESTORE_SLACK_BYTES
        } else {
            MAX_RESTORED_BYTES
        },
        None => MAX_RESTORED_BYTES,
    }
}

pub open spec fn expands_past_text(session_id: Seq<char>, limit: nat) -> Seq<char> {
    "archive for session "@ + session_id + " expands past "@ + crate::text::decimal(limit)
        + " bytes; refusing to continue (the stored archive may be corrupt or crafted)"@
}

/// Judges what was decoded of an archive, up to one byte past the limit: a
/// transcript over the limit is refused, any other is restored.
pub fn accept_restored(session_id: &str, data: Vec<u8>, limit: u64) -> (r: Result<
    Restored,
    StorageError,
>)
    ensures
        match r {
            Ok(restored) => data@.len() <= limit && restored.data@ == data@ && restored.sha256@
                == hex(sha256_of(data@)),
            Err(e) => data@.len() > limit && e.refuses(
                expands_past_text(session_id@, limit as nat),
            ),
        },
{
    if data.len() as u64 > limit {
        let mut message = "archive for session ".to_owned();
        message.append(session_id);
        message.append(" expands past ");
        message.append(decimal_text(limit).as_str());
        message.append(
            " bytes; refusing to continue (the stored archive may be corrupt or crafted)",
        );
        return Err(StorageError::Validation(message));
    }
    let sha256 = hex_digest(&data);
    Ok(Restored { data, sha256 })
}

/// What comes of restoring an archive.
pub enum Restoration {
    /// The archive cannot be decoded.
    Failed,
    /// The transcript is longer than it may be.
    TooLong,
    /// The transcript.
    Data(Seq<u8>),
}

/// What comes of restoring an archive whose transcript had the given size.
pub open spec fn restoration(archive: Seq<u8>, expected: Option<u64>) -> Restoration {
    let limit = restore_limit(expected);
    match zstd_decoded(archive, (limit + 1) as nat) {
        None => Restoration::Failed,
        Some(data) => if data.len() <= limit {
            Restoration::Data(data)
        } else {
            Restoration::TooLong
        },
    }
}

/// Restores a transcript, with its recorded size where that is known.
///
/// A small crafted archive can expand to hundreds of megabytes, so no more
/// than the limit is ever decoded.
pub fn export_archive_bounded(
    session_id: &str,
    archive: &[u8],
    expected: Option<u64>,
) -> (r: Result<Restored, StorageError>)
    ensures
        match restoration(archive@, expected) {
            Restoration::Failed => r matches Err(e) && e is Io,
            Restoration::TooLong => r matches Err(e) && e.refuses(
                expands_past_text(session_id@, restore_limit(expected) as nat),
            ),
            Restoration::Data(data) => r matches Ok(restored) && restored.data@ == data
                && restored.sha256@ == hex(sha256_of(data)),
        },
{
    let limit = limit_for(expected);
    match zstd_decode(archive, limit + 1) {
        Ok(data) => accept_restored(session_id, data, limit),
        Err(e) => Err(StorageError::Io(e)),
    }
}

/// Restores a transcript whose size was not recorded.
pub fn export_archive(session_id: &str, archive: &[u8]) -> (r: Result<Restored, StorageError>)
    ensures
        match restoration(archive@, None) {
            Restoration::Failed => r matches Err(e) && e is Io,
            Restoration::TooLong => r matches Err(e) && e.refuses(
                expands_past_text(session_id@, MAX_RESTORED_BYTES as nat),
            ),
            Restoration::Data(data) => r matches Ok(restored) && restored.data@ == data
                && restored.sha256@ == hex(sha256_of(data)),
        },
{
    export_archive_bounded(session_id, archive, None)
}

/// Restoring gives back what was archived, byte for byte: every transcript up
/// to the ceiling, whether its size was recorded or not.
pub proof fn restoring_gives_back_what_was_archived(
    archive: Seq<u8>,
    data: Seq<u8>,
    expected: Option<u64>,
)
    requires
        archive_holds(archive, data),
        data.len() <= MAX_RESTORED_BYTES,
        expected matches Some(n) ==> n == data.len(),
    ensures
        restoration(archive, expected) == Restoration::Data(data),
{
    let limit = restore_limit(expected);
    assert(zstd_decoded(archive, (limit + 1) as nat) == Some(data));
}

/// An archive of more than the limit is refused, whatever it holds beyond it.
pub proof fn an_archive_over_the_limit_is_refused(
    archive: Seq<u8>,
    data: Seq<u8>,
    expected: Option<u64>,
)
    requires
        archive_holds(archive, data),
        data.len() > restore_limit(expected),
    ensures
        restoration(archive, expected) == Restoration::TooLong,
{
    let limit = restore_limit(expected);
    let n = (limit + 1) as nat;
    assert(zstd_decoded(archive, n) == Some(
        if n < data.len() {
            data.take(n as int)
        } else {
            data
        },
    ));
}

// ---------------------------------------------------------------------------
// Listing
// ---------------------------------------------------------------------------

/// One archive on disk.
#[derive(Debug, Clone)]
pub struct StoredArchive {
    pub session_id: String,
    pub path: String,
    pub bytes: u64,
    pub modified: Timestamp,
}

/// The order of the archives: the one modified first comes first.
pub open spec fn age_order() -> spec_fn(StoredArchive, StoredArchive) -> bool {
    |a: StoredArchive, b: StoredArchive| !b.modified.before(a.modified)
}

/// Puts archives in the order of their age, the oldest first.
pub fn sort_archives(v: Vec<StoredArchive>) -> (r: Vec<StoredArchive>)
    ensures
        sorted_by(r@, age_order()),
        r@.to_multiset() == v@.to_multiset(),
{
    let le = |a: &StoredArchive, b: &StoredArchive| -> (r: bool)
        ensures
            r == !b.modified.before(a.modified),
        { !b.modified.is_before(&a.modified) };
    sort_vec(v, &le, Ghost(age_order()))
}

/// A file of an archive directory.
#[derive(Debug)]
pub struct ArchiveFile {
    pub name: String,
    pub path: String,
    pub bytes: u64,
    pub modified: Timestamp,
}

/// Whether a stored archive is what a file holds.
pub open spec fn is_archive_of(a: StoredArchive, f: ArchiveFile) -> bool {
    &&& archived_session(f.name@) == Some(a.session_id@)
    &&& a.path == f.path
    &&& a.bytes == f.bytes
    &&& a.modified == f.modified
}

/// Whether `found` are the archives among some files, in the order of the
/// files.
pub open spec fn are_archives(found: Seq<StoredArchive>, files: Seq<ArchiveFile>) -> bool {
    let named = files.filter(|f: ArchiveFile| archived_session(f.name@) is Some);
    &&& found.len() == named.len()
    &&& forall|i: int| 0 <= i < found.len() ==> is_archive_of(#[trigger] found[i], named[i])
}

/// The archives among the files of a directory, the oldest first. Any other
/// file is passed over.
pub fn list_archives(files: Vec<ArchiveFile>) -> (r: Vec<StoredArchive>)
    ensures
        sorted_by(r@, age_order()),
        exists|found: Seq<StoredArchive>| #[trigger]
            are_archives(found, files@) && r@.to_multiset() == found.to_multiset(),
{
    let ghost all = files@;
    let ghost named = |f: ArchiveFile| archived_session(f.name@) is Some;
    let mut rest = reversed(files);
    let mut found: Vec<StoredArchive> = Vec::new();
    let ghost mut done: int = 0;
    proof {
        crate::seqs::lemma_filter_ends(all, named);
    }
    while rest.len() > 0
        invariant
            0 <= done <= all.len(),
            rest@.len() == all.len() - done,
            forall|j: int| 0 <= j < rest@.len() ==> #[trigger] rest@[j] == all[all.len() - 1 - j],
            named == (|f: ArchiveFile| archived_session(f.name@) is Some),
            found@.len() == all.take(done).filter(named).len(),
            forall|i: int|
                0 <= i < found@.len() ==> is_archive_of(
                    #[trigger] found@[i],
                    all.take(done).filter(named)[i],
                ),
        decreases rest.len(),
    {
        assert(rest@[rest@.len() - 1] == all[done]);
        proof {
            crate::seqs::lemma_filter_take(all, done, named);
        }
        match rest.pop() {
            Some(file) => {
                match archive_session_id(file.name.as_str()) {
                    Some(session_id) => found.push(
                        StoredArchive {
                            session_id,
                            path: file.path,
                            bytes: file.bytes,
                            modified: file.modified,
                        },
                    ),
                    None => {},
                }
            },
            None => {},
        }
        proof {
            done = done + 1;
        }
    }
    proof {
        crate::seqs::lemma_filter_ends(all, named);
        assert(are_archives(found@, all));
    }
    sort_archives(found)
}

/// The bytes that the archives take together.
pub open spec fn bytes_of(archives: Seq<StoredArchive>) -> nat
    decreases archives.len(),
{
    if archives.len() == 0 {
        0
    } else {
        bytes_of(archives.drop_last()) + archives.last().bytes as nat
    }
}

proof fn lemma_bytes_of_add(a: Seq<StoredArchive>, b: Seq<StoredArchive>)
    ensures
        bytes_of(a + b) == bytes_of(a) + bytes_of(b),
    decreases b.len(),
{
    if b.len() == 0 {
        assert(a + b =~= a);
    } else {
        lemma_bytes_of_add(a, b.drop_last());
        assert((a + b).drop_last() =~= a + b.drop_last());
    }
}

proof fn lemma_bytes_of_split(archives: Seq<StoredArchive>, k: int)
    requires
        0 <= k <= archives.len(),
    ensures
        bytes_of(archives) == bytes_of(archives.take(k)) + bytes_of(archives.skip(k)),
{
    lemma_bytes_of_add(archives.take(k), archives.skip(k));
    assert(archives.take(k) + archives.skip(k) =~= archives);
}

/// The bytes that a project's archives take together.
pub fn total_bytes(archives: &[StoredArchive]) -> (r: u64)
    requires
        bytes_of(archives@) <= u64::MAX,
    ensures
        r == bytes_of(archives@),
{
    let mut sum: u64 = 0;
    let mut i: usize = 0;
    assert(archives@.take(0) =~= Seq::empty());
    while i < archives.len()
        invariant
            i <= archives.len(),
            sum == bytes_of(archives@.take(i as int)),
            bytes_of(archives@) <= u64::MAX,
        decreases archives.len() - i,
    {
        proof {
            lemma_bytes_of_split(archives@, i + 1);
            assert(archives@.take(i + 1).drop_last() =~= archives@.take(i as int));
        }
        sum += archives[i].bytes;
        i += 1;
    }
    assert(archives@.take(i as int) =~= archives@);
    sum
}

// ---------------------------------------------------------------------------
// Eviction
// ---------------------------------------------------------------------------

/// What an eviction pass removes.
#[derive(Debug)]
pub struct PruneOutcome {
    /// The sessions whose archives go, in the order in which they go.
    pub removed: Vec<String>,
    pub bytes_freed: u64,
    pub bytes_remaining: u64,
}

/// Whether an archive is past the age limit.
pub open spec fn too_old(a: StoredArchive, cutoff: Option<Timestamp>) -> bool {
    match cutoff {
        Some(t) => a.modified.before(t),
        None => false,
    }
}

/// The archives that the age limit removes.
pub open spec fn stale(archives: Seq<StoredArchive>, cutoff: Option<Timestamp>) -> Seq<
    StoredArchive,
> {
    archives.filter(|a: StoredArchive| too_old(a, cutoff))
}

/// The archives that the age limit leaves.
pub open spec fn recent(archives: Seq<StoredArchive>, cutoff: Option<Timestamp>) -> Seq<
    StoredArchive,
> {
    archives.filter(|a: StoredArchive| !too_old(a, cutoff))
}

/// How many archives must go, from the front, until the rest is within the
/// limit. A limit of zero is none.
pub open spec fn over_budget(archives: Seq<StoredArchive>, max_bytes: u64) -> nat
    decreases archives.len(),
{
    if max_bytes == 0 || archives.len() == 0 || bytes_of(archives) <= max_bytes {
        0
    } else {
        1 + over_budget(archives.drop_first(), max_bytes)
    }
}

/// The archives that go: first those that are too old, then of the others as
/// many from the front as are over the budget.
pub open spec fn evicted(
    archives: Seq<StoredArchive>,
    cutoff: Option<Timestamp>,
    max_bytes: u64,
) -> Seq<StoredArchive> {
    let rest = recent(archives, cutoff);
    stale(archives, cutoff) + rest.take(over_budget(rest, max_bytes) as int)
}

/// The archives that stay.
pub open spec fn surviving(
    archives: Seq<StoredArchive>,
    cutoff: Option<Timestamp>,
    max_bytes: u64,
) -> Seq<StoredArchive> {
    let rest = recent(archives, cutoff);
    rest.skip(over_budget(rest, max_bytes) as int)
}

/// The session ids of the archives.
pub open spec fn session_ids(archives: Seq<StoredArchive>) -> Seq<Seq<char>> {
    Seq::new(archives.len(), |i: int| archives[i].session_id@)
}

proof fn lemma_over_budget(archives: Seq<StoredArchive>, max_bytes: u64)
    ensures
        over_budget(archives, max_bytes) <= archives.len(),
        max_bytes > 0 ==> bytes_of(archives.skip(over_budget(archives, max_bytes) as int))
            <= max_bytes,
    decreases archives.len(),
{
    if max_bytes == 0 || archives.len() == 0 || bytes_of(archives) <= max_bytes {
        assert(archives.skip(0) =~= archives);
    } else {
        lemma_over_budget(archives.drop_first(), max_bytes);
        let k = over_budget(archives.drop_first(), max_bytes);
        assert(archives.skip(k as int + 1) =~= archives.drop_first().skip(k as int));
    }
}

proof fn lemma_filter_bytes(archives: Seq<StoredArchive>, cutoff: Option<Timestamp>)
    ensures
        bytes_of(stale(archives, cutoff)) + bytes_of(recent(archives, cutoff)) == bytes_of(
            archives,
        ),
        stale(archives, cutoff).len() + recent(archives, cutoff).len() == archives.len(),
    decreases archives.len(),
{
    reveal(Seq::filter);
    if archives.len() > 0 {
        lemma_filter_bytes(archives.drop_last(), cutoff);
        let a = archives.last();
        let old_part = stale(archives.drop_last(), cutoff);
        let new_part = recent(archives.drop_last(), cutoff);
        assert(old_part.push(a).drop_last() =~= old_part);
        assert(new_part.push(a).drop_last() =~= new_part);
    }
}

/// Nothing is lost from the books: the bytes freed and the bytes that remain
/// are together those that were there.
pub proof fn pruning_accounts_for_every_byte(
    archives: Seq<StoredArchive>,
    cutoff: Option<Timestamp>,
    max_bytes: u64,
)
    ensures
        bytes_of(evicted(archives, cutoff, max_bytes)) + bytes_of(
            surviving(archives, cutoff, max_bytes),
        ) == bytes_of(archives),
        evicted(archives, cutoff, max_bytes).len() + surviving(archives, cutoff, max_bytes).len()
            == archives.len(),
{
    let rest = recent(archives, cutoff);
    let k = over_budget(rest, max_bytes);
    lemma_over_budget(rest, max_bytes);
    lemma_filter_bytes(archives, cutoff);
    lemma_bytes_of_add(stale(archives, cutoff), rest.take(k as int));
    lemma_bytes_of_split(rest, k as int);
}

/// A size limit is met.
pub proof fn pruning_meets_the_budget(
    archives: Seq<StoredArchive>,
    cutoff: Option<Timestamp>,
    max_bytes: u64,
)
    requires
        max_bytes > 0,
    ensures
        bytes_of(surviving(archives, cutoff, max_bytes)) <= max_bytes,
{
    lemma_over_budget(recent(archives, cutoff), max_bytes);
}

/// Without an age limit, and with a store within its budget or no budget at
/// all, nothing goes.
pub proof fn pruning_spares_a_store_within_its_limits(
    archives: Seq<StoredArchive>,
    max_bytes: u64,
)
    requires
        max_bytes == 0 || bytes_of(archives) <= max_bytes,
    ensures
        evicted(archives, None, max_bytes).len() == 0,
        surviving(archives, None, max_bytes) == archives,
{
    lemma_recent_of_all(archives);
    pruning_accounts_for_every_byte(archives, None, max_bytes);
    assert(archives.skip(0) =~= archives);
}

proof fn lemma_recent_of_all(archives: Seq<StoredArchive>)
    ensures
        recent(archives, None) == archives,
    decreases archives.len(),
{
    reveal(Seq::filter);
    if archives.len() > 0 {
        lemma_recent_of_all(archives.drop_last());
        assert(archives.drop_last().push(archives.last()) =~= archives);
    } else {
        assert(recent(archives, None) =~= archives);
    }
}

proof fn lemma_sorted_filters(archives: Seq<StoredArchive>, cutoff: Option<Timestamp>)
    requires
        sorted_by(archives, age_order()),
    ensures
        ({
            let k = stale(archives, cutoff).len() as int;
            &&& 0 <= k <= archives.len()
            &&& stale(archives, cutoff) == archives.take(k)
            &&& recent(archives, cutoff) == archives.skip(k)
        }),
    decreases archives.len(),
{
    reveal(Seq::filter);
    if archives.len() == 0 {
        assert(stale(archives, cutoff) =~= archives.take(0));
        assert(recent(archives, cutoff) =~= archives.skip(0));
    } else {
        let before = archives.drop_last();
        let a = archives.last();
        let leq = age_order();
        assert(sorted_by(before, leq)) by {
            assert forall|i: int, j: int| 0 <= i < j < before.len() implies #[trigger] leq(
                before[i],
                before[j],
            ) by {
                assert(leq(archives[i], archives[j]));
            }
        }
        lemma_sorted_filters(before, cutoff);
        let k = stale(before, cutoff).len() as int;
        if too_old(a, cutoff) {
            if k < before.len() {
                assert(leq(archives[k], archives[archives.len() - 1]));
                assert(recent(before, cutoff)[0] == archives[k]);
                lemma_filter_member(before, cutoff, 0);
            }
            assert(stale(archives, cutoff) =~= archives.take(k + 1));
            assert(recent(archives, cutoff) =~= archives.skip(k + 1));
        } else {
            assert(stale(archives, cutoff) =~= archives.take(k));
            assert(recent(archives, cutoff) =~= archives.skip(k));
        }
    }
}

proof fn lemma_filter_member(archives: Seq<StoredArchive>, cutoff: Option<Timestamp>, i: int)
    requires
        0 <= i < recent(archives, cutoff).len(),
    ensures
        !too_old(recent(archives, cutoff)[i], cutoff),
    decreases archives.len(),
{
    reveal(Seq::filter);
    if archives.len() > 0 {
        let before = recent(archives.drop_last(), cutoff);
        if i < before.len() {
            lemma_filter_member(archives.drop_last(), cutoff, i);
        }
    }
}

/// The oldest go first: of archives in the order of their age exactly a first
/// part goes and the rest stays, so none that stays is older than one that
/// goes.
pub proof fn pruning_takes_the_oldest(
    archives: Seq<StoredArchive>,
    cutoff: Option<Timestamp>,
    max_bytes: u64,
)
    requires
        sorted_by(archives, age_order()),
    ensures
        ({
            let n = evicted(archives, cutoff, max_bytes).len() as int;
            &&& evicted(archives, cutoff, max_bytes) == archives.take(n)
            &&& surviving(archives, cutoff, max_bytes) == archives.skip(n)
        }),
{
    lemma_sorted_filters(archives, cutoff);
    let rest = recent(archives, cutoff);
    lemma_over_budget(rest, max_bytes);
    let k = stale(archives, cutoff).len() as int;
    let m = over_budget(rest, max_bytes) as int;
    assert(evicted(archives, cutoff, max_bytes) =~= archives.take(k + m));
    assert(surviving(archives, cutoff, max_bytes) =~= archives.skip(k + m));
}

/// Plans an eviction: the age limit first, so that a store over its budget
/// drops stale archives before it eats into recent ones.
pub fn plan_pruning(
    archives: &[StoredArchive],
    cutoff: Option<Timestamp>,
    max_bytes: u64,
) -> (r: PruneOutcome)
    requires
        bytes_of(archives@) <= u64::MAX,
    ensures
        crate::text::texts(r.removed@) == session_ids(evicted(archives@, cutoff, max_bytes)),
        r.bytes_freed == bytes_of(evicted(archives@, cutoff, max_bytes)),
        r.bytes_remaining == bytes_of(surviving(archives@, cutoff, max_bytes)),
{
    let ghost all = archives@;
    let ghost old_ones = stale(all, cutoff);
    let ghost rest = recent(all, cutoff);
    let mut removed: Vec<String> = Vec::new();
    let mut bytes_freed: u64 = 0;
    let mut keep: Vec<usize> = Vec::new();
    let mut i: usize = 0;
    proof {
        reveal(Seq::filter);
        assert(all.take(0) =~= Seq::empty());
        assert(stale(all.take(0), cutoff) =~= Seq::empty());
        assert(recent(all.take(0), cutoff) =~= Seq::empty());
    }
    while i < archives.len()
        invariant
            i <= archives.len(),
            all == archives@,
            bytes_of(all) <= u64::MAX,
            crate::text::texts(removed@) == session_ids(stale(all.take(i as int), cutoff)),
            bytes_freed == bytes_of(stale(all.take(i as int), cutoff)),
            keep@.len() == recent(all.take(i as int), cutoff).len(),
            forall|j: int| 0 <= j < keep@.len() ==> (#[trigger] keep@[j]) < archives.len(),
            forall|j: int|
                0 <= j < keep@.len() ==> all[#[trigger] keep@[j] as int] == recent(
                    all.take(i as int),
                    cutoff,
                )[j],
        decreases archives.len() - i,
    {
        let ghost after = all.take(i + 1);
        let ghost now = all.take(i as int);
        let ghost a = all[i as int];
        proof {
            reveal(Seq::filter);
            assert(after.drop_last() =~= now);
            assert(after.last() == a);
            lemma_filter_bytes(after, cutoff);
            lemma_bytes_of_split(all, i + 1);
            assert(stale(now, cutoff).push(a).drop_last() =~= stale(now, cutoff));
        }
        let old_one = match cutoff {
            Some(t) => archives[i].modified.is_before(&t),
            None => false,
        };
        if old_one {
            let ghost ids = crate::text::texts(removed@);
            removed.push(archives[i].session_id.clone());
            bytes_freed += archives[i].bytes;
            proof {
                assert(crate::text::texts(removed@) =~= ids.push(a.session_id@));
                assert(session_ids(stale(now, cutoff).push(a)) =~= session_ids(
                    stale(now, cutoff),
                ).push(a.session_id@));
            }
        } else {
            keep.push(i);
        }
        i += 1;
    }
    proof {
        assert(all.take(i as int) =~= all);
        lemma_filter_bytes(all, cutoff);
    }
    let mut remaining: u64 = 0;
    let mut j: usize = 0;
    assert(rest.take(0) =~= Seq::empty());
    while j < keep.len()
        invariant
            j <= keep.len(),
            all == archives@,
            rest == recent(all, cutoff),
            keep@.len() == rest.len(),
            forall|k: int| 0 <= k < keep@.len() ==> (#[trigger] keep@[k]) < archives.len(),
            forall|k: int| 0 <= k < keep@.len() ==> all[#[trigger] keep@[k] as int] == rest[k],
            bytes_of(rest) <= u64::MAX,
            remaining == bytes_of(rest.take(j as int)),
        decreases keep.len() - j,
    {
        proof {
            lemma_bytes_of_split(rest, j + 1);
            assert(rest.take(j + 1).drop_last() =~= rest.take(j as int));
            assert(all[keep@[j as int] as int] == rest[j as int]);
        }
        remaining += archives[keep[j]].bytes;
        j += 1;
    }
    assert(rest.take(j as int) =~= rest);
    let mut gone: usize = 0;
    assert(rest.skip(0) =~= rest);
    assert(rest.take(0) =~= Seq::empty());
    assert(old_ones + rest.take(0) =~= old_ones);
    while max_bytes > 0 && remaining > max_bytes && gone < keep.len()
        invariant
            gone <= keep.len(),
            all == archives@,
            rest == recent(all, cutoff),
            old_ones == stale(all, cutoff),
            bytes_of(old_ones) + bytes_of(rest) == bytes_of(all),
            bytes_of(all) <= u64::MAX,
            keep@.len() == rest.len(),
            forall|k: int| 0 <= k < keep@.len() ==> (#[trigger] keep@[k]) < archives.len(),
            forall|k: int| 0 <= k < keep@.len() ==> all[#[trigger] keep@[k] as int] == rest[k],
            remaining == bytes_of(rest.skip(gone as int)),
            bytes_freed == bytes_of(old_ones + rest.take(gone as int)),
            crate::text::texts(removed@) == session_ids(old_ones + rest.take(gone as int)),
            over_budget(rest, max_bytes) == gone + over_budget(rest.skip(gone as int), max_bytes),
        decreases keep.len() - gone,
    {
        let ghost left = rest.skip(gone as int);
        let ghost before = old_ones + rest.take(gone as int);
        let ghost after = old_ones + rest.take(gone + 1);
        proof {
            assert(all[keep@[gone as int] as int] == rest[gone as int]);
            assert(left.drop_first() =~= rest.skip(gone + 1));
            assert(left[0] == rest[gone as int]);
            lemma_bytes_of_split(left, 1);
            assert(bytes_of(left.take(1).drop_last()) == 0);
            assert(bytes_of(left.take(1)) == left[0].bytes);
            assert(left.skip(1) =~= rest.skip(gone + 1));
            assert(after =~= before.push(rest[gone as int]));
            assert(after.drop_last() =~= before);
            lemma_bytes_of_split(rest, gone + 1);
            lemma_bytes_of_add(old_ones, rest.take(gone + 1));
        }
        let ghost ids = crate::text::texts(removed@);
        removed.push(archives[keep[gone]].session_id.clone());
        bytes_freed += archives[keep[gone]].bytes;
        remaining -= archives[keep[gone]].bytes;
        proof {
            let id = rest[gone as int].session_id@;
            assert(crate::text::texts(removed@) =~= ids.push(id));
            assert(session_ids(after) =~= session_ids(before).push(id));
        }
        gone += 1;
    }
    proof {
        if gone == keep.len() {
            assert(rest.skip(gone as int).len() == 0);
        }
    }
    PruneOutcome { removed, bytes_freed, bytes_remaining: remaining }
}

/// Plans an eviction at the given time. `retention_days` of `None` is no age
/// limit, and so is one too long to be counted back: a retention that cannot
/// be represented keeps.
pub fn prune_archives(
    archives: &[StoredArchive],
    now: Timestamp,
    retention_days: Option<u64>,
    max_bytes: u64,
) -> (r: PruneOutcome)
    requires
        bytes_of(archives@) <= u64::MAX,
    ensures
        ({
            let cutoff = match retention_days {
                Some(days) => retention_cutoff(now, days),
                None => None,
            };
            &&& crate::text::texts(r.removed@) == session_ids(
                evicted(archives@, cutoff, max_bytes),
            )
            &&& r.bytes_freed == bytes_of(evicted(archives@, cutoff, max_bytes))
            &&& r.bytes_remaining == bytes_of(surviving(archives@, cutoff, max_bytes))
        }),
{
    let cutoff = match retention_days {
        Some(days) => cutoff_before(now, days),
        None => None,
    };
    plan_pruning(archives, cutoff, max_bytes)
}

/// The time from which archives are kept: the given number of days before
/// `now`; nothing where that cannot be represented.
pub open spec fn retention_cutoff(now: Timestamp, days: u64) -> Option<Timestamp> {
    if days > i64::MAX {
        None
    } else if now.nanos < 1_000_000_000 {
        crate::time::whole_days_earlier(now, days as int)
    } else {
        crate::time::days_earlier(now, days as int)
    }
}

/// The time from which archives are kept.
pub fn cutoff_before(now: Timestamp, days: u64) -> (r: Option<Timestamp>)
    ensures
        r == retention_cutoff(now, days),
{
    if days <= i64::MAX as u64 {
        days_before(now, days as i64)
    } else {
        None
    }
}

} // verus!
