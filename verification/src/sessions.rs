//! Finding the sessions that belong to a project.
//!
//! A transcript's directory is named after the session's working directory,
//! but the encoding is lossy: `/a/b.c` and `/a/b-c` share a name. The name only
//! rules directories out; the working directory recorded inside a transcript
//! decides to which project it belongs.

use crate::error::StorageError;
use crate::order::is_text_less;
use crate::path::{FilePath, PartView};
use crate::seqs::reversed;
use crate::sort::sort_vec;
use crate::text::{ascii_alphanumeric, starts_with, to_chars, trimmed};
use crate::time::Timestamp;
use crate::transcripts::SessionSummary;
use vstd::prelude::*;
use vstd::relations::sorted_by;

verus! {

broadcast use vstd::string::group_string_axioms;

/// Longest session id that is accepted.
pub const MAX_SESSION_ID_CHARS: usize = 128;

// ---------------------------------------------------------------------------
// Places
// ---------------------------------------------------------------------------

/// Where the program that writes the transcripts keeps its state: a configured
/// path, unless it is blank, or else a directory of the given name in the
/// user's home. `None` where there is neither.
pub open spec fn state_root(
    configured: Option<Seq<char>>,
    home: Option<Seq<PartView>>,
    dir_name: Seq<char>,
) -> Option<Seq<PartView>> {
    if configured matches Some(path) && crate::text::trim(path).len() > 0 {
        Some(crate::path::path_parts(crate::text::trim(configured->0)))
    } else {
        match home {
            Some(home) => Some(home.push(PartView::Name(dir_name))),
            None => None,
        }
    }
}

/// Root of the state directory of the program that writes the transcripts.
pub fn claude_home(configured: Option<&str>, home: Option<FilePath>, dir_name: &str) -> (r: Result<
    FilePath,
    StorageError,
>)
    ensures
        match state_root(
            match configured {
                Some(path) => Some(path@),
                None => None,
            },
            match home {
                Some(home) => Some(home@),
                None => None,
            },
            dir_name@,
        ) {
            Some(root) => r matches Ok(path) && path@ == root,
            None => r matches Err(e) && e.refuses("Could not determine home directory"@),
        },
{
    if let Some(path) = configured {
        let path = trimmed(path);
        if path.as_str().unicode_len() > 0 {
            return Ok(FilePath::parse(path.as_str()));
        }
    }
    match home {
        Some(home) => Ok(home.join_name(dir_name)),
        None => Err(StorageError::Validation("Could not determine home directory".to_owned())),
    }
}

/// Directory with one subdirectory of transcripts for each project.
pub fn projects_root(state_root: &FilePath) -> (r: FilePath)
    ensures
        r@ == state_root@.push(PartView::Name("projects"@)),
{
    state_root.join_name("projects")
}

// ---------------------------------------------------------------------------
// Names
// ---------------------------------------------------------------------------

/// The text with a dash in place of every character that is no ASCII letter or
/// digit.
pub open spec fn encoded(s: Seq<char>) -> Seq<char> {
    Seq::new(
        s.len(),
        |i: int|
            if crate::text::is_ascii_alphanumeric(s[i]) {
                s[i]
            } else {
                '-'
            },
    )
}

/// Encodes a working directory the way its transcript directory is named.
pub fn encode_project_dir(path: &str) -> (r: String)
    ensures
        r@ == encoded(path@),
{
    let cs = to_chars(path);
    let mut out = String::new();
    let mut i: usize = 0;
    while i < cs.len()
        invariant
            i <= cs.len(),
            cs@ == path@,
            out@ == encoded(path@).take(i as int),
        decreases cs.len() - i,
    {
        if ascii_alphanumeric(cs[i]) {
            out.push(cs[i]);
        } else {
            out.push('-');
        }
        i += 1;
        assert(out@ =~= encoded(path@).take(i as int));
    }
    assert(encoded(path@).take(i as int) =~= encoded(path@));
    out
}

/// A character that may stand in a session id.
pub open spec fn session_id_char(c: char) -> bool {
    crate::text::is_ascii_alphanumeric(c) || c == '-' || c == '_' || c == '.'
}

/// A text that is safe as a single path component: of limited length, made of
/// ASCII letters, digits, `-`, `_` and `.`, without a dot at its start and
/// without two dots in a row.
pub open spec fn valid_session_id(s: Seq<char>) -> bool {
    &&& 0 < s.len() <= MAX_SESSION_ID_CHARS
    &&& s[0] != '.'
    &&& forall|i: int| 0 <= i < s.len() ==> session_id_char(#[trigger] s[i])
    &&& forall|i: int, j: int|
        0 <= i && j == i + 1 && j < s.len() ==> !(#[trigger] s[i] == '.' && #[trigger] s[j]
            == '.')
}

/// Whether a session id is safe to use as a single path component.
///
/// Session ids arrive from outside and are joined into archive paths.
pub fn is_valid_session_id(id: &str) -> (r: bool)
    ensures
        r == valid_session_id(id@),
{
    let cs = to_chars(id);
    if cs.len() == 0 || cs.len() > MAX_SESSION_ID_CHARS {
        return false;
    }
    if cs[0] == '.' {
        return false;
    }
    let mut i: usize = 0;
    while i < cs.len()
        invariant
            i <= cs.len(),
            cs@ == id@,
            forall|j: int| 0 <= j < i ==> session_id_char(#[trigger] cs@[j]),
            forall|j: int, k: int|
                0 <= j && k == j + 1 && k < i ==> !(#[trigger] cs@[j] == '.' && #[trigger] cs@[k]
                    == '.'),
        decreases cs.len() - i,
    {
        let c = cs[i];
        if !(ascii_alphanumeric(c) || c == '-' || c == '_' || c == '.') {
            assert(!session_id_char(id@[i as int]));
            return false;
        }
        if c == '.' && i > 0 && cs[i - 1] == '.' {
            assert(id@[i - 1] == '.' && id@[i as int] == '.');
            return false;
        }
        i += 1;
    }
    true
}

/// A valid session id is one ordinary path component: it holds no separator
/// and can neither traverse nor hide.
pub proof fn valid_session_id_is_one_component(s: Seq<char>)
    requires
        valid_session_id(s),
    ensures
        crate::path::path_parts(s) == seq![PartView::Name(s)],
        s[0] != '.',
{
    reveal_strlit(".");
    reveal_strlit("..");
    assert forall|i: int| 0 <= i < s.len() implies s[i] != '/' by {
        assert(session_id_char(s[i]));
    }
    assert("."@[0] == '.');
    assert(".."@[0] == '.');
    crate::path::lemma_single_name(s);
}

// ---------------------------------------------------------------------------
// Attribution
// ---------------------------------------------------------------------------

/// What the name of a transcript directory says, for the given project
/// directories: nothing if its transcripts cannot belong to any of them, else
/// whether the name is exactly that of one of them. With no project given
/// every directory counts. Where a project's path is not ASCII its encoding is
/// not certain, so the name neither rules out nor proves anything.
pub open spec fn directory_verdict(name: Seq<char>, wanted: Seq<Seq<char>>) -> Option<bool> {
    if wanted.len() == 0 {
        Some(true)
    } else if exists|i: int|
        0 <= i < wanted.len() && !crate::text::is_ascii_text(#[trigger] wanted[i]) {
        Some(false)
    } else if exists|i: int|
        0 <= i < wanted.len() && crate::text::begins_with(name, encoded(#[trigger] wanted[i])) {
        Some(exists|i: int| 0 <= i < wanted.len() && name == encoded(#[trigger] wanted[i]))
    } else {
        None
    }
}

/// Whether the text is ASCII.
fn is_ascii_str(s: &str) -> (r: bool)
    ensures
        r == crate::text::is_ascii_text(s@),
{
    let cs = to_chars(s);
    let mut i: usize = 0;
    while i < cs.len()
        invariant
            i <= cs.len(),
            cs@ == s@,
            forall|j: int| 0 <= j < i ==> crate::text::is_ascii_char(#[trigger] cs@[j]),
        decreases cs.len() - i,
    {
        if cs[i] as u32 >= 0x80 {
            assert(!crate::text::is_ascii_char(s@[i as int]));
            return false;
        }
        i += 1;
    }
    true
}

/// Judges a transcript directory by its name.
pub fn judge_directory(name: &str, wanted: &[String]) -> (r: Option<bool>)
    ensures
        r == directory_verdict(name@, crate::text::texts(wanted@)),
{
    if wanted.len() == 0 {
        return Some(true);
    }
    let ghost all = crate::text::texts(wanted@);
    let mut prefix = false;
    let mut exact = false;
    let mut ascii = true;
    let mut i: usize = 0;
    while i < wanted.len()
        invariant
            i <= wanted.len(),
            all == crate::text::texts(wanted@),
            ascii <==> (forall|j: int|
                0 <= j < i ==> crate::text::is_ascii_text(#[trigger] all[j])),
            prefix <==> (exists|j: int|
                0 <= j < i && crate::text::begins_with(name@, encoded(#[trigger] all[j]))),
            exact <==> (exists|j: int| 0 <= j < i && name@ == encoded(#[trigger] all[j])),
        decreases wanted.len() - i,
    {
        let path = wanted[i].as_str();
        assert(all[i as int] == path@);
        if !is_ascii_str(path) {
            ascii = false;
        }
        let e = encode_project_dir(path);
        if starts_with(name, e.as_str()) {
            prefix = true;
        }
        if crate::text::same_text(name, e.as_str()) {
            exact = true;
        }
        i += 1;
    }
    if !ascii {
        Some(false)
    } else if prefix {
        Some(exact)
    } else {
        None
    }
}

/// A transcript that may belong to a wanted project.
#[derive(Debug)]
pub struct Candidate {
    pub summary: SessionSummary,
    /// The recorded working directory, resolved as far as it exists.
    pub cwd: Option<FilePath>,
    /// Whether the transcript's directory is named exactly like a wanted one.
    pub exact_dir: bool,
}

/// The components of the given paths.
pub open spec fn path_views(paths: Seq<FilePath>) -> Seq<Seq<PartView>> {
    Seq::new(paths.len(), |i: int| paths[i]@)
}

/// The components of an optional path.
pub open spec fn opt_path(p: Option<FilePath>) -> Option<Seq<PartView>> {
    match p {
        Some(p) => Some(p@),
        None => None,
    }
}

/// Whether a transcript belongs to one of the wanted projects: its working
/// directory lies at or below one of them, or, where it records none, its
/// directory is named exactly like one.
pub open spec fn belongs(
    cwd: Option<Seq<PartView>>,
    wanted: Seq<Seq<PartView>>,
    exact_dir: bool,
) -> bool {
    match cwd {
        None => exact_dir,
        Some(dir) => exists|i: int| 0 <= i < wanted.len() && (#[trigger] wanted[i]).is_prefix_of(dir),
    }
}

/// Whether a transcript's recorded working directory belongs to one of the
/// wanted projects.
pub fn cwd_matches(cwd: &Option<FilePath>, wanted: &[FilePath], exact_dir: bool) -> (r: bool)
    ensures
        r == belongs(opt_path(*cwd), path_views(wanted@), exact_dir),
{
    match cwd {
        None => exact_dir,
        Some(dir) => {
            let ghost all = path_views(wanted@);
            let mut i: usize = 0;
            while i < wanted.len()
                invariant
                    i <= wanted.len(),
                    all == path_views(wanted@),
                    opt_path(*cwd) == Some(dir@),
                    forall|j: int| 0 <= j < i ==> !(#[trigger] all[j]).is_prefix_of(dir@),
                decreases wanted.len() - i,
            {
                if dir.starts_with(&wanted[i]) {
                    assert(all[i as int].is_prefix_of(dir@));
                    return true;
                }
                i += 1;
            }
            false
        },
    }
}

// ---------------------------------------------------------------------------
// The listing
// ---------------------------------------------------------------------------

/// Whether `x` is the more recent end: a later time, or a time where there is
/// none.
pub open spec fn ended_later(x: Option<Timestamp>, y: Option<Timestamp>) -> bool {
    match (x, y) {
        (Some(s), Some(t)) => t.before(s),
        (Some(_), None) => true,
        (None, _) => false,
    }
}

/// The order of the listing: the session that ended last first, and among
/// those that ended at the same time by session id.
pub open spec fn listed_before(a: SessionSummary, b: SessionSummary) -> bool {
    if a.ended_at == b.ended_at {
        !crate::order::text_less(b.session_id@, a.session_id@)
    } else {
        ended_later(a.ended_at, b.ended_at)
    }
}

/// The order of the listing as a function.
pub open spec fn listing_order() -> spec_fn(SessionSummary, SessionSummary) -> bool {
    |a: SessionSummary, b: SessionSummary| listed_before(a, b)
}

proof fn lemma_listing_preorder()
    ensures
        crate::sort::total_preorder(listing_order()),
{
    crate::order::lemma_text_less();
    let lt = |x: Seq<char>, y: Seq<char>| crate::order::text_less(x, y);
    let leq = listing_order();
    assert forall|a: SessionSummary, b: SessionSummary| #[trigger] leq(a, b) || leq(b, a) by {
        let (x, y) = (a.session_id@, b.session_id@);
        if lt(x, y) && lt(y, x) {
            assert(lt(x, x));
        }
    }
    assert forall|a: SessionSummary, b: SessionSummary, c: SessionSummary| #[trigger]
        leq(a, b) && #[trigger] leq(b, c) implies leq(a, c) by {
        let (x, y, z) = (a.session_id@, b.session_id@, c.session_id@);
        if a.ended_at == b.ended_at && b.ended_at == c.ended_at {
            if lt(z, x) {
                if x == y {
                    assert(lt(z, y));
                } else if y == z {
                    assert(lt(y, x));
                } else {
                    assert(lt(x, y) || lt(y, x));
                    assert(lt(z, x) && lt(x, y));
                    assert(lt(z, y));
                }
            }
        }
    }
}

/// Whether `a` may stand before `b` in the listing.
fn lists_before(a: &SessionSummary, b: &SessionSummary) -> (r: bool)
    ensures
        r == listed_before(*a, *b),
{
    match (&a.ended_at, &b.ended_at) {
        (Some(s), Some(t)) => if s.is_before(t) {
            false
        } else if t.is_before(s) {
            true
        } else {
            !is_text_less(b.session_id.as_str(), a.session_id.as_str())
        },
        (Some(_), None) => true,
        (None, Some(_)) => false,
        (None, None) => !is_text_less(b.session_id.as_str(), a.session_id.as_str()),
    }
}

/// Whether a candidate is listed for the wanted projects.
pub open spec fn is_listed(c: Candidate, wanted: Seq<Seq<PartView>>) -> bool {
    wanted.len() == 0 || belongs(opt_path(c.cwd), wanted, c.exact_dir)
}

/// The summaries of the candidates that belong to a wanted project.
pub open spec fn listed(cs: Seq<Candidate>, wanted: Seq<Seq<PartView>>) -> Seq<SessionSummary> {
    cs.filter(|c: Candidate| is_listed(c, wanted)).map_values(|c: Candidate| c.summary)
}

/// Puts summaries in the order of the listing.
pub fn sort_sessions(v: Vec<SessionSummary>) -> (r: Vec<SessionSummary>)
    ensures
        sorted_by(r@, listing_order()),
        r@.to_multiset() == v@.to_multiset(),
{
    proof {
        lemma_listing_preorder();
    }
    let le = |a: &SessionSummary, b: &SessionSummary| -> (r: bool)
        ensures
            r == listed_before(*a, *b),
        { lists_before(a, b) };
    sort_vec(v, &le, Ghost(listing_order()))
}

/// Lists the sessions that belong to one of the wanted projects; every one
/// where none is given.
pub fn list_sessions(candidates: Vec<Candidate>, wanted: &[FilePath]) -> (r: Vec<SessionSummary>)
    ensures
        sorted_by(r@, listing_order()),
        r@.to_multiset() == listed(candidates@, path_views(wanted@)).to_multiset(),
{
    let ghost all = candidates@;
    let ghost ws = path_views(wanted@);
    let ghost keep = |c: Candidate| is_listed(c, ws);
    let mut rest = reversed(candidates);
    let mut out: Vec<SessionSummary> = Vec::new();
    proof {
        reveal(Seq::filter);
        assert(all.take(0).filter(keep) =~= Seq::empty());
        assert(listed(all.take(0), ws) =~= Seq::empty());
    }
    while rest.len() > 0
        invariant
            ws == path_views(wanted@),
            keep == (|c: Candidate| is_listed(c, ws)),
            rest.len() <= all.len(),
            forall|i: int| 0 <= i < rest.len() ==> #[trigger] rest@[i] == all[all.len() - 1 - i],
            out@ == listed(all.take(all.len() - rest.len()), ws),
        decreases rest.len(),
    {
        let ghost at = all.len() - rest.len();
        match rest.pop() {
            Some(c) => {
                let stays = wanted.len() == 0 || cwd_matches(&c.cwd, wanted, c.exact_dir);
                proof {
                    reveal(Seq::filter);
                    assert(all.take(at + 1).drop_last() =~= all.take(at));
                    assert(all.take(at + 1).last() == c);
                    assert(stays == keep(c));
                }
                if stays {
                    out.push(c.summary);
                    assert(out@ =~= listed(all.take(at + 1), ws));
                }
            },
            None => {},
        }
    }
    assert(all.take(all.len() as int) =~= all);
    sort_sessions(out)
}

/// The listing does not depend on the order in which the sessions were found,
/// as long as no two of them share an id.
pub proof fn listing_does_not_depend_on_the_order_found(
    x: Seq<SessionSummary>,
    y: Seq<SessionSummary>,
)
    requires
        sorted_by(x, listing_order()),
        sorted_by(y, listing_order()),
        x.to_multiset() == y.to_multiset(),
        forall|i: int, j: int|
            0 <= i < j < x.len() ==> (#[trigger] x[i]).session_id@ != (#[trigger] x[j]).session_id@,
    ensures
        x == y,
{
    crate::order::lemma_text_less();
    let lt = |x: Seq<char>, y: Seq<char>| crate::order::text_less(x, y);
    let leq = listing_order();
    assert forall|a: SessionSummary, b: SessionSummary|
        x.contains(a) && x.contains(b) && #[trigger] leq(a, b) && #[trigger] leq(
            b,
            a,
        ) implies a == b by {
        let i = choose|i: int| 0 <= i < x.len() && x[i] == a;
        let j = choose|j: int| 0 <= j < x.len() && x[j] == b;
        if i != j {
            assert(x[i].session_id@ != x[j].session_id@);
            let (p, q) = (a.session_id@, b.session_id@);
            assert(lt(p, q) || lt(q, p));
        }
    }
    crate::sort::lemma_sorted_is_unique(x, y, leq);
}

} // verus!
