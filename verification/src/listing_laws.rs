//! Which past sessions belong to a project, and in what order they are listed.

use crate::path::PartView;
use crate::sessions::{
    belongs, directory_verdict, encoded, is_listed, listed, listed_before, opt_path, state_root,
    valid_session_id, Candidate,
};
use crate::transcripts::SessionSummary;
use vstd::prelude::*;

verus! {

// ---------------------------------------------------------------------------
// Belonging
// ---------------------------------------------------------------------------

/// A session that was started in a wanted directory belongs, and so does one that
/// was started anywhere below a directory in which sessions belong.
pub proof fn belonging_goes_down(
    dir: Seq<PartView>,
    below: Seq<PartView>,
    wanted: Seq<Seq<PartView>>,
    exact_dir: bool,
)
    ensures
        wanted.contains(dir) ==> belongs(Some(dir), wanted, exact_dir),
        belongs(Some(dir), wanted, exact_dir) ==> belongs(Some(dir + below), wanted, exact_dir),
{
    if wanted.contains(dir) {
        let i = choose|i: int| 0 <= i < wanted.len() && wanted[i] == dir;
        assert(dir.subrange(0, dir.len() as int) =~= dir);
        assert(wanted[i].is_prefix_of(dir));
    }
    if belongs(Some(dir), wanted, exact_dir) {
        let i = choose|i: int| 0 <= i < wanted.len() && (#[trigger] wanted[i]).is_prefix_of(dir);
        let w = wanted[i];
        assert((dir + below).subrange(0, w.len() as int) =~= dir.subrange(0, w.len() as int));
        assert(w.is_prefix_of(dir + below));
    }
}

/// A session belongs by its working directory only where that directory, or one
/// above it, is wanted; by the name of its transcript's directory only where it has
/// no working directory.
pub proof fn nothing_else_belongs(
    dir: Seq<PartView>,
    wanted: Seq<Seq<PartView>>,
    exact_dir: bool,
)
    ensures
        belongs(Some(dir), wanted, exact_dir) ==> exists|n: int|
            0 <= n <= dir.len() && wanted.contains(#[trigger] dir.take(n)),
        belongs(None, wanted, exact_dir) == exact_dir,
{
    if belongs(Some(dir), wanted, exact_dir) {
        let i = choose|i: int| 0 <= i < wanted.len() && (#[trigger] wanted[i]).is_prefix_of(dir);
        let n = wanted[i].len() as int;
        assert(dir.take(n) =~= dir.subrange(0, n));
        assert(dir.take(n) == wanted[i]);
        assert(wanted.contains(dir.take(n)));
    }
}

/// Where more directories are wanted, no session that belonged stops to belong;
/// and where several are wanted, a session belongs where it belongs to one of them.
pub proof fn belonging_to_several_is_belonging_to_one(
    dir: Seq<PartView>,
    a: Seq<Seq<PartView>>,
    b: Seq<Seq<PartView>>,
    exact_dir: bool,
)
    ensures
        belongs(Some(dir), a + b, exact_dir) <==> belongs(Some(dir), a, exact_dir) || belongs(
            Some(dir),
            b,
            exact_dir,
        ),
{
    let all = a + b;
    if belongs(Some(dir), all, exact_dir) {
        let i = choose|i: int| 0 <= i < all.len() && (#[trigger] all[i]).is_prefix_of(dir);
        if i < a.len() {
            assert(a[i].is_prefix_of(dir));
        } else {
            assert(b[i - a.len()].is_prefix_of(dir));
        }
    }
    if belongs(Some(dir), a, exact_dir) {
        let i = choose|i: int| 0 <= i < a.len() && (#[trigger] a[i]).is_prefix_of(dir);
        assert(all[i].is_prefix_of(dir));
    }
    if belongs(Some(dir), b, exact_dir) {
        let i = choose|i: int| 0 <= i < b.len() && (#[trigger] b[i]).is_prefix_of(dir);
        assert(all[a.len() + i].is_prefix_of(dir));
    }
}

// ---------------------------------------------------------------------------
// Listing
// ---------------------------------------------------------------------------

/// What is listed are the summaries of the sessions that belong, in full; of all
/// sessions where no project is wanted.
pub proof fn every_session_that_belongs_is_listed(
    cs: Seq<Candidate>,
    wanted: Seq<Seq<PartView>>,
    summary: SessionSummary,
)
    ensures
        listed(cs, wanted).contains(summary) <==> exists|i: int|
            0 <= i < cs.len() && (#[trigger] cs[i]).summary == summary && (wanted.len() == 0
                || belongs(opt_path(cs[i].cwd), wanted, cs[i].exact_dir)),
        wanted.len() == 0 ==> listed(cs, wanted).len() == cs.len(),
        listed(cs, wanted).len() <= cs.len(),
{
    let keep = |c: Candidate| is_listed(c, wanted);
    let kept = cs.filter(keep);
    let all = listed(cs, wanted);
    cs.lemma_filter_len(keep);
    if all.contains(summary) {
        let k = choose|k: int| 0 <= k < all.len() && all[k] == summary;
        assert(kept.contains(kept[k]));
        crate::seqs::lemma_filter_contains(cs, keep, kept[k]);
        let i = choose|i: int| 0 <= i < cs.len() && cs[i] == kept[k];
        assert(cs[i].summary == summary);
    }
    if exists|i: int|
        0 <= i < cs.len() && (#[trigger] cs[i]).summary == summary && (wanted.len() == 0
            || belongs(opt_path(cs[i].cwd), wanted, cs[i].exact_dir)) {
        let i = choose|i: int|
            0 <= i < cs.len() && (#[trigger] cs[i]).summary == summary && (wanted.len() == 0
                || belongs(opt_path(cs[i].cwd), wanted, cs[i].exact_dir));
        assert(cs.contains(cs[i]));
        crate::seqs::lemma_filter_contains(cs, keep, cs[i]);
        let k = choose|k: int| 0 <= k < kept.len() && kept[k] == cs[i];
        assert(all[k] == summary);
    }
    if wanted.len() == 0 {
        crate::seqs::lemma_filter_all(cs, keep);
    }
}

/// A session that ended later is listed before one that ended earlier, one whose
/// end is known before one whose end is not, and of two that ended at once the one
/// whose id comes first in the alphabet.
pub proof fn the_latest_session_comes_first(a: SessionSummary, b: SessionSummary)
    ensures
        a.ended_at matches Some(s) ==> (b.ended_at matches Some(t) ==> (s.secs > t.secs || (s.secs
            == t.secs && s.nanos > t.nanos) ==> listed_before(a, b) && !listed_before(b, a))),
        a.ended_at is Some && b.ended_at is None ==> listed_before(a, b) && !listed_before(b, a),
        a.ended_at == b.ended_at && crate::order::text_less(a.session_id@, b.session_id@)
            ==> listed_before(a, b) && !listed_before(b, a),
        a.ended_at == b.ended_at && a.session_id@ == b.session_id@ ==> listed_before(a, b)
            && listed_before(b, a),
{
    crate::order::lemma_text_less();
    let lt = |x: Seq<char>, y: Seq<char>| crate::order::text_less(x, y);
    assert(!lt(a.session_id@, a.session_id@));
    if lt(a.session_id@, b.session_id@) && lt(b.session_id@, a.session_id@) {
        assert(lt(a.session_id@, a.session_id@));
    }
}

// ---------------------------------------------------------------------------
// Directories of transcripts
// ---------------------------------------------------------------------------

/// The name of a project's transcript directory has a character for each one of
/// the path: ASCII letters and digits stay, and all else becomes a hyphen.
pub proof fn a_directory_name_keeps_letters_and_digits(path: Seq<char>, more: Seq<char>, i: int)
    requires
        0 <= i < path.len(),
    ensures
        encoded(path).len() == path.len(),
        ('a' <= path[i] <= 'z' || 'A' <= path[i] <= 'Z' || '0' <= path[i] <= '9') ==> encoded(
            path,
        )[i] == path[i],
        !('a' <= path[i] <= 'z' || 'A' <= path[i] <= 'Z' || '0' <= path[i] <= '9') ==> encoded(
            path,
        )[i] == '-',
        encoded(path + more) == encoded(path) + encoded(more),
{
    assert(encoded(path + more) =~= encoded(path) + encoded(more));
}

/// A directory of transcripts is looked into wherever it can hold a session of a
/// wanted project: for no project all are, for a project whose path is not ASCII
/// all are, and else those whose name begins with the name that a wanted path has.
/// It counts as a project's own only where the name is that very name, or where
/// nothing is wanted.
pub proof fn a_directory_is_looked_into_where_it_can_matter(
    name: Seq<char>,
    wanted: Seq<Seq<char>>,
    below: Seq<char>,
    i: int,
)
    ensures
        wanted.len() == 0 ==> directory_verdict(name, wanted) == Some(true),
        0 <= i < wanted.len() && !crate::text::is_ascii_text(wanted[i]) ==> directory_verdict(
            name,
            wanted,
        ) == Some(false),
        0 <= i < wanted.len() ==> directory_verdict(encoded(wanted[i]) + below, wanted) is Some,
        0 <= i < wanted.len() && (forall|j: int|
            0 <= j < wanted.len() ==> crate::text::is_ascii_text(#[trigger] wanted[j]))
            ==> directory_verdict(encoded(wanted[i]), wanted) == Some(true),
        directory_verdict(name, wanted) == Some(true) && wanted.len() > 0 ==> exists|j: int|
            0 <= j < wanted.len() && encoded(#[trigger] wanted[j]) == name,
        directory_verdict(name, wanted) == Some(false) ==> (exists|j: int|
            0 <= j < wanted.len() && !crate::text::is_ascii_text(#[trigger] wanted[j])) || exists|
            j: int,
            rest: Seq<char>,
        |
            0 <= j < wanted.len() && #[trigger] (encoded(wanted[j]) + rest) == name,
{
    if 0 <= i < wanted.len() {
        let e = encoded(wanted[i]);
        assert((e + below).subrange(0, e.len() as int) =~= e);
        assert(crate::text::begins_with(e + below, encoded(wanted[i])));
        assert(e.subrange(0, e.len() as int) =~= e);
        assert(crate::text::begins_with(e, encoded(wanted[i])));
    }
    if directory_verdict(name, wanted) == Some(false) && !(exists|j: int|
        0 <= j < wanted.len() && !crate::text::is_ascii_text(#[trigger] wanted[j])) {
        let j = choose|j: int|
            0 <= j < wanted.len() && crate::text::begins_with(
                name,
                encoded(#[trigger] wanted[j]),
            );
        let e = encoded(wanted[j]);
        let rest = name.skip(e.len() as int);
        assert(e + rest =~= name);
    }
}

// ---------------------------------------------------------------------------
// Places and ids
// ---------------------------------------------------------------------------

/// The state directory is the configured one, without the white space around it;
/// where none is configured, or only white space, it is the named one below the
/// home directory, and without a home there is none.
pub proof fn a_configured_state_directory_wins(
    configured: Seq<char>,
    home: Option<Seq<PartView>>,
    dir_name: Seq<char>,
)
    ensures
        crate::text::trim(configured).len() > 0 ==> state_root(Some(configured), home, dir_name)
            == Some(crate::path::path_parts(crate::text::trim(configured))),
        crate::text::trim(configured).len() == 0 ==> state_root(Some(configured), home, dir_name)
            == state_root(None, home, dir_name),
        home matches Some(h) ==> state_root(None, home, dir_name) == Some(
            h + seq![PartView::Name(dir_name)],
        ),
        home is None ==> state_root(None, home, dir_name) is None,
{
    if let Some(h) = home {
        assert(h + seq![PartView::Name(dir_name)] =~= h.push(PartView::Name(dir_name)));
    }
}

/// A session id is accepted exactly where it is a plain name: of at most a hundred
/// and twenty-eight ASCII letters, digits, hyphens, underscores and dots, with no
/// dot at its beginning and no two dots next to each other.
pub proof fn a_session_id_is_a_plain_name(s: Seq<char>)
    ensures
        valid_session_id(s) <==> {
            &&& 0 < s.len() <= 128
            &&& s[0] != '.'
            &&& forall|i: int|
                0 <= i < s.len() ==> 'a' <= #[trigger] s[i] <= 'z' || 'A' <= s[i] <= 'Z' || '0'
                    <= s[i] <= '9' || s[i] == '-' || s[i] == '_' || s[i] == '.'
            &&& forall|i: int| 0 < i < s.len() && s[i - 1] == '.' ==> #[trigger] s[i] != '.'
        },
{
    if valid_session_id(s) {
        assert forall|i: int| 0 < i < s.len() && s[i - 1] == '.' implies #[trigger] s[i] != '.' by {
            let j = i - 1;
            assert(!(s[j] == '.' && s[i] == '.'));
        }
        assert forall|i: int| 0 <= i < s.len() implies 'a' <= #[trigger] s[i] <= 'z' || 'A' <= s[i]
            <= 'Z' || '0' <= s[i] <= '9' || s[i] == '-' || s[i] == '_' || s[i] == '.' by {
            assert(crate::sessions::session_id_char(s[i]));
        }
    }
}

} // verus!
