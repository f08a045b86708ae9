//! Making foreign text safe to print.
//!
//! Transcript text was written by another program and fed by third parties.
//! Printed as it is, an escape sequence in it can repaint a line, hide a
//! command or write the clipboard, and an invisible character can keep a
//! literal matcher from seeing what a reader sees.

use crate::text::{
    is_run, is_white, is_whitespace, join, join_texts, lemma_runs, runs, split_runs, to_chars,
};
use std::borrow::Cow;
use vstd::prelude::*;

verus! {

broadcast use vstd::string::group_string_axioms;

/// The mark that takes the place of an active character.
pub const REPLACEMENT: char = '\u{fffd}';

// ---------------------------------------------------------------------------
// Character sets
// ---------------------------------------------------------------------------

/// Characters that render as nothing: Unicode's default-ignorable code points
/// without the bidirectional controls, and a few more that show as blank.
pub open spec fn invisible(c: char) -> bool {
    ||| c == '\u{00ad}'
    ||| c == '\u{034f}'
    ||| '\u{115f}' <= c <= '\u{1160}'
    ||| '\u{17b4}' <= c <= '\u{17b5}'
    ||| '\u{180b}' <= c <= '\u{180f}'
    ||| '\u{200b}' <= c <= '\u{200d}'
    ||| '\u{2060}' <= c <= '\u{2065}'
    ||| '\u{206a}' <= c <= '\u{206f}'
    ||| c == '\u{2800}'
    ||| c == '\u{3164}'
    ||| '\u{fe00}' <= c <= '\u{fe0f}'
    ||| c == '\u{feff}'
    ||| c == '\u{ffa0}'
    ||| '\u{fff0}' <= c <= '\u{fff8}'
    ||| '\u{0600}' <= c <= '\u{0605}'
    ||| c == '\u{06dd}'
    ||| c == '\u{070f}'
    ||| c == '\u{08e2}'
    ||| '\u{0890}' <= c <= '\u{0891}'
    ||| c == '\u{110bd}'
    ||| c == '\u{110cd}'
    ||| '\u{13430}' <= c <= '\u{1343f}'
    ||| '\u{1bca0}' <= c <= '\u{1bca3}'
    ||| '\u{1d173}' <= c <= '\u{1d17a}'
    ||| '\u{e0000}' <= c <= '\u{e0fff}'
}

/// Bidirectional embeddings, overrides, isolates and marks: they make text
/// show in an order that can invert what it says.
pub open spec fn bidi_control(c: char) -> bool {
    ||| '\u{202a}' <= c <= '\u{202e}'
    ||| '\u{2066}' <= c <= '\u{2069}'
    ||| c == '\u{200e}'
    ||| c == '\u{200f}'
    ||| c == '\u{061c}'
}

/// Characters that do something a reader would not sanction: the control
/// characters but for newline and tab, the bidirectional controls, and the
/// Unicode line and paragraph separators.
pub open spec fn active(c: char) -> bool {
    ||| c <= '\u{1f}' && c != '\n' && c != '\t'
    ||| '\u{7f}' <= c <= '\u{9f}'
    ||| bidi_control(c)
    ||| c == '\u{2028}'
    ||| c == '\u{2029}'
}

/// Whether `c` renders as nothing at all.
pub fn is_invisible_format(c: char) -> (r: bool)
    ensures
        r == invisible(c),
{
    c == '\u{00ad}' || c == '\u{034f}' || ('\u{115f}' <= c && c <= '\u{1160}')
        || ('\u{17b4}' <= c && c <= '\u{17b5}') || ('\u{180b}' <= c && c <= '\u{180f}')
        || ('\u{200b}' <= c && c <= '\u{200d}') || ('\u{2060}' <= c && c <= '\u{2065}')
        || ('\u{206a}' <= c && c <= '\u{206f}') || c == '\u{2800}' || c == '\u{3164}'
        || ('\u{fe00}' <= c && c <= '\u{fe0f}') || c == '\u{feff}' || c == '\u{ffa0}'
        || ('\u{fff0}' <= c && c <= '\u{fff8}') || ('\u{0600}' <= c && c <= '\u{0605}')
        || c == '\u{06dd}' || c == '\u{070f}' || c == '\u{08e2}'
        || ('\u{0890}' <= c && c <= '\u{0891}') || c == '\u{110bd}' || c == '\u{110cd}'
        || ('\u{13430}' <= c && c <= '\u{1343f}') || ('\u{1bca0}' <= c && c <= '\u{1bca3}')
        || ('\u{1d173}' <= c && c <= '\u{1d17a}') || ('\u{e0000}' <= c && c <= '\u{e0fff}')
}

/// Whether `c` does something a reader would not sanction.
fn is_active(c: char) -> (r: bool)
    ensures
        r == active(c),
{
    (c <= '\u{1f}' && c != '\n' && c != '\t') || ('\u{7f}' <= c && c <= '\u{9f}')
        || ('\u{202a}' <= c && c <= '\u{202e}') || ('\u{2066}' <= c && c <= '\u{2069}')
        || c == '\u{200e}' || c == '\u{200f}' || c == '\u{061c}' || c == '\u{2028}'
        || c == '\u{2029}'
}

// ---------------------------------------------------------------------------
// What sanitizing does
// ---------------------------------------------------------------------------

/// A text that holds neither an active nor an invisible character.
pub open spec fn is_clean(s: Seq<char>) -> bool {
    forall|i: int| 0 <= i < s.len() ==> !active(#[trigger] s[i]) && !invisible(s[i])
}

/// What becomes of the character at `i`: an invisible one goes, as does the
/// carriage return of a CRLF line ending; an active one leaves a mark; any
/// other stays.
pub open spec fn disposition(s: Seq<char>, i: int) -> Seq<char> {
    if invisible(s[i]) {
        Seq::empty()
    } else if s[i] == '\r' && i + 1 < s.len() && s[i + 1] == '\n' {
        Seq::empty()
    } else if active(s[i]) {
        seq![REPLACEMENT]
    } else {
        seq![s[i]]
    }
}

/// What becomes of the first `n` characters.
pub open spec fn sanitized_prefix(s: Seq<char>, n: int) -> Seq<char>
    decreases n,
{
    if n <= 0 {
        Seq::empty()
    } else {
        sanitized_prefix(s, n - 1) + disposition(s, n - 1)
    }
}

/// The text with its active characters marked and its invisible ones gone.
pub open spec fn sanitized(s: Seq<char>) -> Seq<char> {
    sanitized_prefix(s, s.len() as int)
}

/// Whether the text breaks or tabulates a line.
pub open spec fn has_layout(s: Seq<char>) -> bool {
    s.contains('\n') || s.contains('\t')
}

/// The sanitized text on one line: where it holds a newline or a tab, its
/// words with one space between them.
pub open spec fn one_line(s: Seq<char>) -> Seq<char> {
    let t = sanitized(s);
    if has_layout(t) {
        join(runs(t, |c: char| !is_white(c)), seq![' '])
    } else {
        t
    }
}

proof fn lemma_sanitized_prefix_clean(s: Seq<char>, n: int)
    requires
        0 <= n <= s.len(),
    ensures
        is_clean(sanitized_prefix(s, n)),
    decreases n,
{
    if n > 0 {
        lemma_sanitized_prefix_clean(s, n - 1);
        let t = sanitized_prefix(s, n);
        let before = sanitized_prefix(s, n - 1);
        assert forall|i: int| 0 <= i < t.len() implies !active(#[trigger] t[i]) && !invisible(
            t[i],
        ) by {
            if i < before.len() {
                assert(t[i] == before[i]);
            } else {
                assert(t[i] == disposition(s, n - 1)[i - before.len()]);
            }
        }
    }
}

proof fn lemma_sanitized_prefix_of_clean(s: Seq<char>, n: int)
    requires
        0 <= n <= s.len(),
        is_clean(s),
    ensures
        sanitized_prefix(s, n) == s.take(n),
    decreases n,
{
    if n > 0 {
        lemma_sanitized_prefix_of_clean(s, n - 1);
        assert(s.take(n) =~= s.take(n - 1) + seq![s[n - 1]]);
    } else {
        assert(s.take(n) =~= Seq::empty());
    }
}

/// No active and no invisible character survives sanitizing.
pub proof fn sanitizing_leaves_clean_text(s: Seq<char>)
    ensures
        is_clean(sanitized(s)),
{
    lemma_sanitized_prefix_clean(s, s.len() as int);
}

/// Sanitizing changes nothing in a text that is clean.
pub proof fn sanitizing_keeps_clean_text(s: Seq<char>)
    requires
        is_clean(s),
    ensures
        sanitized(s) == s,
{
    lemma_sanitized_prefix_of_clean(s, s.len() as int);
    assert(s.take(s.len() as int) =~= s);
}

/// Sanitizing twice is sanitizing once.
pub proof fn sanitizing_is_idempotent(s: Seq<char>)
    ensures
        sanitized(sanitized(s)) == sanitized(s),
{
    sanitizing_leaves_clean_text(s);
    sanitizing_keeps_clean_text(sanitized(s));
}

/// Every character of the joined runs is a space or one of the runs' own.
proof fn lemma_join_chars(parts: Seq<Seq<char>>, ok: spec_fn(char) -> bool)
    requires
        forall|i: int| 0 <= i < parts.len() ==> is_run(#[trigger] parts[i], ok),
        ok(' '),
    ensures
        forall|i: int|
            0 <= i < join(parts, seq![' ']).len() ==> ok(#[trigger] join(parts, seq![' '])[i]),
    decreases parts.len(),
{
    if parts.len() > 1 {
        lemma_join_chars(parts.drop_last(), ok);
        let head = join(parts.drop_last(), seq![' ']);
        let t = join(parts, seq![' ']);
        assert forall|i: int| 0 <= i < t.len() implies ok(#[trigger] t[i]) by {
            if i < head.len() {
                assert(t[i] == head[i]);
            } else if i == head.len() {
                assert(t[i] == ' ');
            } else {
                assert(is_run(parts.last(), ok));
                assert(t[i] == parts.last()[i - head.len() - 1]);
            }
        }
    } else if parts.len() == 1 {
        assert(is_run(parts[0], ok));
    }
}

/// The runs of a text hold only characters of that text.
proof fn lemma_runs_chars(s: Seq<char>, keep: spec_fn(char) -> bool, ok: spec_fn(char) -> bool)
    requires
        forall|i: int| 0 <= i < s.len() ==> ok(#[trigger] s[i]),
    ensures
        forall|i: int| 0 <= i < runs(s, keep).len() ==> is_run(#[trigger] runs(s, keep)[i], ok),
    decreases s.len(),
{
    if s.len() > 0 {
        lemma_runs_chars(s.drop_last(), keep, ok);
        lemma_runs(s.drop_last(), keep);
        let before = runs(s.drop_last(), keep);
        assert(ok(s.last()));
        assert forall|i: int| 0 <= i < runs(s, keep).len() implies is_run(
            #[trigger] runs(s, keep)[i],
            ok,
        ) by {
            if i < before.len() {
                assert(is_run(before[i], ok));
            }
        }
    }
}

/// A character that may stand in one line of clean text.
pub open spec fn plain(c: char) -> bool {
    !active(c) && !invisible(c) && c != '\n' && c != '\t'
}

/// The flattened text is one line of clean text: no newline, no tab, nothing
/// active and nothing invisible.
pub proof fn one_line_is_plain(s: Seq<char>)
    ensures
        forall|i: int| 0 <= i < one_line(s).len() ==> plain(#[trigger] one_line(s)[i]),
{
    let t = sanitized(s);
    sanitizing_leaves_clean_text(s);
    if has_layout(t) {
        let keep = |c: char| !is_white(c);
        let ok = |c: char| !active(c) && !invisible(c);
        let both = |c: char| plain(c);
        lemma_runs_chars(t, keep, ok);
        lemma_runs(t, keep);
        let ws = runs(t, keep);
        assert forall|i: int| 0 <= i < ws.len() implies is_run(#[trigger] ws[i], both) by {
            assert(is_run(ws[i], keep));
            assert(is_run(ws[i], ok));
            assert forall|j: int| 0 <= j < ws[i].len() implies both(#[trigger] ws[i][j]) by {
                assert(keep(ws[i][j]));
                assert(ok(ws[i][j]));
            }
        }
        lemma_join_chars(ws, both);
        let u = one_line(s);
        assert(u == join(ws, seq![' ']));
        assert forall|i: int| 0 <= i < u.len() implies plain(#[trigger] u[i]) by {
            assert(both(u[i]));
        }
    } else {
        assert forall|i: int| 0 <= i < t.len() implies plain(#[trigger] t[i]) by {
            assert(t.contains(t[i]));
        }
    }
}

/// Flattening twice is flattening once.
pub proof fn one_line_is_idempotent(s: Seq<char>)
    ensures
        one_line(one_line(s)) == one_line(s),
{
    let u = one_line(s);
    one_line_is_plain(s);
    assert(is_clean(u)) by {
        assert forall|i: int| 0 <= i < u.len() implies !active(#[trigger] u[i]) && !invisible(
            u[i],
        ) by {
            assert(plain(u[i]));
        }
    }
    sanitizing_keeps_clean_text(u);
    assert(!has_layout(u)) by {
        if u.contains('\n') {
            let i = choose|i: int| 0 <= i < u.len() && u[i] == '\n';
            assert(plain(u[i]));
        }
        if u.contains('\t') {
            let i = choose|i: int| 0 <= i < u.len() && u[i] == '\t';
            assert(plain(u[i]));
        }
    }
}

// ---------------------------------------------------------------------------
// Sanitizing
// ---------------------------------------------------------------------------

/// Neutralizes what a terminal would execute, or a matcher would miss.
///
/// Active characters become U+FFFD, a visible mark: stripped in silence they
/// would make tampered text look clean. Invisible ones are deleted, so that
/// the matchers downstream see the text a reader sees. Clean text, which is
/// nearly all of it, is handed back borrowed.
pub fn sanitize_for_terminal(text: &str) -> (r: Cow<'_, str>)
    ensures
        r@ == sanitized(text@),
        r is Borrowed <==> is_clean(text@),
{
    let cs = to_chars(text);
    let mut clean = true;
    let mut i: usize = 0;
    while i < cs.len()
        invariant
            i <= cs.len(),
            cs@ == text@,
            clean <==> (forall|j: int|
                0 <= j < i ==> !active(#[trigger] cs@[j]) && !invisible(cs@[j])),
        decreases cs.len() - i,
    {
        if is_active(cs[i]) || is_invisible_format(cs[i]) {
            clean = false;
        }
        i += 1;
    }
    if clean {
        proof {
            sanitizing_keeps_clean_text(text@);
        }
        return Cow::Borrowed(text);
    }
    let mut out = String::new();
    let mut i: usize = 0;
    while i < cs.len()
        invariant
            i <= cs.len(),
            cs@ == text@,
            out@ == sanitized_prefix(text@, i as int),
        decreases cs.len() - i,
    {
        let c = cs[i];
        let ghost before = out@;
        if is_invisible_format(c) {
            assert(before + disposition(text@, i as int) =~= before);
        } else if c == '\r' && i + 1 < cs.len() && cs[i + 1] == '\n' {
            assert(before + disposition(text@, i as int) =~= before);
        } else if is_active(c) {
            out.push(REPLACEMENT);
            assert(out@ =~= before + seq![REPLACEMENT]);
        } else {
            out.push(c);
            assert(out@ =~= before + seq![c]);
        }
        i += 1;
    }
    Cow::Owned(out)
}

/// Sanitizes, then flattens to a single line.
///
/// For values that are shown inside one structural line, where a newline would
/// forge an entire extra row.
pub fn sanitize_one_line(text: &str) -> (r: Cow<'_, str>)
    ensures
        r@ == one_line(text@),
        r is Borrowed <==> is_clean(text@) && !has_layout(text@),
{
    let cleaned = sanitize_for_terminal(text);
    let cs = match &cleaned {
        Cow::Borrowed(b) => to_chars(b),
        Cow::Owned(o) => to_chars(o.as_str()),
    };
    let mut found = false;
    let mut i: usize = 0;
    while i < cs.len()
        invariant
            i <= cs.len(),
            found <==> (exists|j: int|
                0 <= j < i && ((#[trigger] cs@[j]) == '\n' || cs@[j] == '\t')),
        decreases cs.len() - i,
    {
        if cs[i] == '\n' || cs[i] == '\t' {
            found = true;
        }
        i += 1;
    }
    proof {
        if has_layout(cs@) {
            let c = if cs@.contains('\n') { '\n' } else { '\t' };
            let j = choose|j: int| 0 <= j < cs@.len() && cs@[j] == c;
            assert(cs@[j] == '\n' || cs@[j] == '\t');
        }
        if is_clean(text@) {
            sanitizing_keeps_clean_text(text@);
        }
    }
    if !found {
        return cleaned;
    }
    let keep = |c: char| -> (b: bool)
        ensures
            b == !is_white(c),
        { !is_whitespace(c) };
    let words = split_runs(&cs, keep, Ghost(|c: char| !is_white(c)));
    let joined = join_texts(&words, " ");
    proof {
        reveal_strlit(" ");
        assert(" "@ =~= seq![' ']);
    }
    Cow::Owned(joined)
}

} // verus!
