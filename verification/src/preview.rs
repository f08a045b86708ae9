//! What a transcript's texts are reduced to: previews, the target of a tool
//! call, the text of its result, and the test for machine-made prompts.

use crate::json::Json;
use crate::terminal::is_invisible_format;
use crate::text::{
    blank, from_char_range, is_whitespace, join_texts, starts_with, to_chars, to_lowercase,
    trim_bounds, trimmed_end, trimmed_start,
};
use vstd::prelude::*;

verus! {

broadcast use vstd::string::group_string_axioms;

/// Length kept of a tool call's target.
pub const TARGET_CHARS: usize = 120;

// ---------------------------------------------------------------------------
// Previews
// ---------------------------------------------------------------------------

/// The trimmed text; where it is longer than `max` characters, its first `max`
/// ones without trailing white space, and an ellipsis.
pub open spec fn shortened(s: Seq<char>, max: int) -> Seq<char> {
    let t = crate::text::trim(s);
    if t.len() <= max {
        t
    } else {
        crate::text::trim_end(t.take(max)).push('\u{2026}')
    }
}

/// Truncates on a character boundary, with an ellipsis where it shortens.
pub fn truncate_chars(s: &str, max: usize) -> (r: String)
    ensures
        r@ == shortened(s@, max as int),
{
    let cs = to_chars(s);
    let (a, b) = trim_bounds(&cs);
    if b - a <= max {
        return from_char_range(&cs, a, b);
    }
    let cut = from_char_range(&cs, a, a + max);
    assert(cut@ =~= crate::text::trim(s@).take(max as int));
    let cut_chars = to_chars(cut.as_str());
    let mut out = trimmed_end(&cut_chars);
    out.push('\u{2026}');
    out
}

/// A shortened text is no longer than the limit and its ellipsis.
pub proof fn shortened_is_bounded(s: Seq<char>, max: int)
    requires
        max >= 0,
    ensures
        shortened(s, max).len() <= max + 1,
{
    let t = crate::text::trim(s);
    if t.len() > max {
        lemma_trim_end_len(t.take(max));
    }
}

proof fn lemma_trim_end_len(s: Seq<char>)
    ensures
        crate::text::trim_end(s).len() <= s.len(),
    decreases s.len(),
{
    if s.len() > 0 && crate::text::is_white(s.last()) {
        lemma_trim_end_len(s.drop_last());
    }
}

/// The position of the first newline at or after `from`, or the end.
pub open spec fn line_end(s: Seq<char>, from: int) -> int
    decreases s.len() - from,
{
    if from >= s.len() {
        s.len() as int
    } else if s[from] == '\n' {
        from
    } else {
        line_end(s, from + 1)
    }
}

/// The first line at or after `from` that is not blank.
pub open spec fn nonblank_line(s: Seq<char>, from: int) -> Option<Seq<char>>
    decreases s.len() + 1 - from,
    when 0 <= from
    via nonblank_line_decreases
{
    if from >= s.len() {
        None
    } else {
        let end = line_end(s, from);
        let line = s.subrange(from, end);
        if crate::text::is_blank(line) {
            nonblank_line(s, end + 1)
        } else {
            Some(line)
        }
    }
}

#[via_fn]
proof fn nonblank_line_decreases(s: Seq<char>, from: int) {
    if from <= s.len() {
        lemma_line_end(s, from);
    }
}

proof fn lemma_line_end(s: Seq<char>, from: int)
    requires
        0 <= from <= s.len(),
    ensures
        from <= line_end(s, from) <= s.len(),
        forall|i: int| from <= i < line_end(s, from) ==> s[i] != '\n',
        line_end(s, from) < s.len() ==> s[line_end(s, from)] == '\n',
    decreases s.len() - from,
{
    if from < s.len() && s[from] != '\n' {
        lemma_line_end(s, from + 1);
    }
}

/// The shortened first line that is not blank.
pub open spec fn line_preview(s: Seq<char>, max: int) -> Option<Seq<char>> {
    match nonblank_line(s, 0) {
        Some(line) => Some(shortened(line, max)),
        None => None,
    }
}

/// Reduces a text to a preview of its first line that is not blank.
pub fn first_line_preview(s: &str, max: usize) -> (r: Option<String>)
    ensures
        crate::text::opt_text(r) == line_preview(s@, max as int),
{
    let cs = to_chars(s);
    let mut from: usize = 0;
    while from < cs.len()
        invariant
            cs@ == s@,
            0 <= from,
            nonblank_line(s@, 0) == nonblank_line(s@, from as int),
        decreases cs.len() - from,
    {
        let mut end: usize = from;
        let mut only_white = true;
        while end < cs.len() && cs[end] != '\n'
            invariant
                cs@ == s@,
                from <= end <= cs.len(),
                line_end(s@, from as int) == line_end(s@, end as int),
                only_white <==> (forall|i: int|
                    from <= i < end ==> crate::text::is_white(#[trigger] s@[i])),
            decreases cs.len() - end,
        {
            if !is_whitespace(cs[end]) {
                only_white = false;
            }
            end += 1;
        }
        let ghost line = s@.subrange(from as int, end as int);
        assert(line_end(s@, from as int) == end);
        proof {
            if only_white {
                assert(crate::text::is_blank(line));
            } else {
                let i = choose|i: int|
                    from <= i < end && !crate::text::is_white(#[trigger] s@[i]);
                assert(line[i - from] == s@[i]);
            }
        }
        if !only_white {
            let text = from_char_range(&cs, from, end);
            return Some(truncate_chars(text.as_str(), max));
        }
        assert(nonblank_line(s@, from as int) == nonblank_line(s@, end + 1));
        if end >= cs.len() {
            return None;
        }
        from = end + 1;
    }
    None
}

// ---------------------------------------------------------------------------
// Tool calls
// ---------------------------------------------------------------------------

/// The arguments that can name a tool call's target, the most specific first.
pub open spec fn target_keys() -> Seq<Seq<char>> {
    seq![
        "file_path"@,
        "command"@,
        "pattern"@,
        "path"@,
        "url"@,
        "notebook_path"@,
        "description"@,
    ]
}

/// The target that the first usable one of the keys gives: a string that is
/// not blank, shortened.
pub open spec fn target_among(
    input: crate::json::JsonView,
    keys: Seq<Seq<char>>,
) -> Option<Seq<char>>
    decreases keys.len(),
{
    if keys.len() == 0 {
        None
    } else {
        match input.member_text(keys[0]) {
            Some(v) if !crate::text::is_blank(v) => Some(shortened(v, TARGET_CHARS as int)),
            _ => target_among(input, keys.drop_first()),
        }
    }
}

/// A short target for a tool call with the given arguments; none for a tool
/// that has no argument of a known kind.
pub fn tool_target(input: &Json) -> (r: Option<String>)
    ensures
        crate::text::opt_text(r) == target_among(input.view(), target_keys()),
{
    let keys: [&str; 7] = [
        "file_path",
        "command",
        "pattern",
        "path",
        "url",
        "notebook_path",
        "description",
    ];
    let ghost all = target_keys();
    let mut i: usize = 0;
    assert(all.skip(0) =~= all);
    while i < 7
        invariant
            i <= 7,
            all == target_keys(),
            all.len() == 7,
            forall|j: int| 0 <= j < 7 ==> #[trigger] all[j] == keys@[j]@,
            target_among(input.view(), all) == target_among(input.view(), all.skip(i as int)),
        decreases 7 - i,
    {
        let ghost left = all.skip(i as int);
        assert(left[0] == all[i as int]);
        assert(left.drop_first() =~= all.skip(i + 1));
        if let Some(v) = input.get_str(keys[i]) {
            if !blank(v) {
                return Some(truncate_chars(v, TARGET_CHARS));
            }
        }
        i += 1;
    }
    assert(all.skip(7).len() == 0);
    None
}

/// The texts of the blocks that have one.
pub open spec fn block_texts(items: Seq<crate::json::JsonView>) -> Seq<Seq<char>>
    decreases items.len(),
{
    if items.len() == 0 {
        Seq::empty()
    } else {
        let before = block_texts(items.drop_last());
        match items.last().member_text("text"@) {
            Some(t) => before.push(t),
            None => before,
        }
    }
}

/// The text of a tool result, whose content is a string or an array of blocks.
pub open spec fn result_text(block: crate::json::JsonView) -> Option<Seq<char>> {
    match block.member("content"@) {
        Some(crate::json::JsonView::Text(s)) => Some(s),
        Some(crate::json::JsonView::Array(items)) => {
            let ts = block_texts(items);
            if ts.len() == 0 {
                None
            } else {
                Some(crate::text::join(ts, "\n"@))
            }
        },
        _ => None,
    }
}

/// The text of a tool result.
pub fn tool_result_text(block: &Json) -> (r: Option<String>)
    ensures
        crate::text::opt_text(r) == result_text(block.view()),
{
    match block.get("content") {
        Some(Json::Text(s)) => Some(s.clone()),
        Some(Json::Array(items)) => {
            let ghost all = Json::Array(*items).view()->Array_0;
            let mut out: Vec<String> = Vec::new();
            let mut i: usize = 0;
            assert(all.take(0) =~= Seq::empty());
            while i < items.len()
                invariant
                    i <= items.len(),
                    all.len() == items.len(),
                    forall|j: int| 0 <= j < all.len() ==> #[trigger] all[j] == items@[j].view(),
                    crate::text::texts(out@) == block_texts(all.take(i as int)),
                decreases items.len() - i,
            {
                let ghost after = all.take(i + 1);
                assert(after.drop_last() =~= all.take(i as int));
                assert(after.last() == items@[i as int].view());
                if let Some(t) = items[i].get_str("text") {
                    let ghost before = crate::text::texts(out@);
                    out.push(t.to_owned());
                    assert(crate::text::texts(out@) =~= before.push(t@));
                }
                i += 1;
            }
            assert(all.take(i as int) =~= all);
            if out.len() == 0 {
                None
            } else {
                Some(join_texts(&out, "\n"))
            }
        },
        _ => None,
    }
}

// ---------------------------------------------------------------------------
// Machine-made prompts
// ---------------------------------------------------------------------------

/// Characters that can stand inside a tag without being seen: the invisible
/// ones, and the bidirectional isolates.
pub open spec fn unseen(c: char) -> bool {
    crate::terminal::invisible(c) || '\u{2066}' <= c <= '\u{2069}'
}

/// The text without the characters that are not seen.
pub open spec fn visible_text(s: Seq<char>) -> Seq<char> {
    s.filter(|c: char| !unseen(c))
}

/// Whether the text begins with an opening or closing tag whose name begins
/// with `name`.
pub open spec fn begins_tag(s: Seq<char>, name: Seq<char>) -> bool {
    crate::text::begins_with(s, "<"@ + name) || crate::text::begins_with(s, "</"@ + name)
}

/// Whether a lowercase text begins with one of the harness's tags.
pub open spec fn begins_harness_tag(low: Seq<char>) -> bool {
    ||| begins_tag(low, "system-reminder"@)
    ||| begins_tag(low, "command-name"@)
    ||| begins_tag(low, "local-command-stdout"@)
    ||| begins_tag(low, "user-prompt-submit-hook"@)
}

/// Whether a text opens with one of the harness's tags, in any case and
/// whatever unseen characters stand in it.
pub open spec fn opens_with_tag(s: Seq<char>) -> bool {
    begins_harness_tag(crate::text::lowercase(crate::text::trim_start(visible_text(s))))
}

/// A prompt that the harness made: one that opens with one of its tags or
/// begins with one of its fixed phrases.
pub open spec fn synthetic(s: Seq<char>) -> bool {
    ||| opens_with_tag(s)
    ||| crate::text::begins_with(s, "Caveat: The messages below were generated"@)
    ||| crate::text::begins_with(s, "[Request interrupted"@)
}

fn starts_with_tag(s: &str, name: &str) -> (r: bool)
    ensures
        r == begins_tag(s@, name@),
{
    let mut opening = "<".to_owned();
    opening.append(name);
    let mut closing = "</".to_owned();
    closing.append(name);
    starts_with(s, opening.as_str()) || starts_with(s, closing.as_str())
}

/// The text without the characters that are not seen.
fn without_unseen(s: &str) -> (r: String)
    ensures
        r@ == visible_text(s@),
{
    let cs = to_chars(s);
    let ghost keep = |c: char| !unseen(c);
    let mut out = String::new();
    let mut i: usize = 0;
    proof {
        reveal(Seq::filter);
        assert(cs@.take(0).filter(keep) =~= Seq::empty());
    }
    while i < cs.len()
        invariant
            i <= cs.len(),
            keep == (|c: char| !unseen(c)),
            out@ == cs@.take(i as int).filter(keep),
        decreases cs.len() - i,
    {
        let ghost after = cs@.take(i + 1);
        proof {
            reveal(Seq::filter);
            assert(after.drop_last() =~= cs@.take(i as int));
            assert(after.last() == cs@[i as int]);
        }
        if !is_invisible_format(cs[i]) && !('\u{2066}' <= cs[i] && cs[i] <= '\u{2069}') {
            out.push(cs[i]);
        }
        i += 1;
    }
    assert(cs@.take(i as int) =~= cs@);
    out
}

/// Whether a user turn was made by the harness and not by a human.
///
/// Only the beginning of the turn counts: a turn that merely mentions a tag is
/// a real question.
pub fn is_synthetic_prompt(text: &str) -> (r: bool)
    ensures
        r == synthetic(text@),
{
    let cleaned = without_unseen(text);
    let cleaned_chars = to_chars(cleaned.as_str());
    let start = trimmed_start(&cleaned_chars);
    let lowered = to_lowercase(start.as_str());
    let low = lowered.as_str();
    starts_with_tag(low, "system-reminder") || starts_with_tag(low, "command-name")
        || starts_with_tag(low, "local-command-stdout") || starts_with_tag(
        low,
        "user-prompt-submit-hook",
    ) || starts_with(text, "Caveat: The messages below were generated") || starts_with(
        text,
        "[Request interrupted",
    )
}

proof fn lemma_trim_start_lowercase(s: Seq<char>)
    requires
        crate::text::is_ascii_text(s),
    ensures
        crate::text::is_ascii_text(crate::text::trim_start(s)),
        crate::text::ascii_lowercase(crate::text::trim_start(s)) == crate::text::trim_start(
            crate::text::ascii_lowercase(s),
        ),
    decreases s.len(),
{
    let low = crate::text::ascii_lowercase(s);
    if s.len() > 0 && crate::text::is_white(s[0]) {
        let rest = s.drop_first();
        assert forall|i: int| 0 <= i < rest.len() implies crate::text::is_ascii_char(
            #[trigger] rest[i],
        ) by {
            assert(rest[i] == s[i + 1]);
        }
        lemma_trim_start_lowercase(rest);
        assert(low.drop_first() =~= crate::text::ascii_lowercase(rest));
        assert(low[0] == s[0]);
    } else if s.len() > 0 {
        assert(low[0] == crate::text::ascii_lower(s[0]));
        assert(!crate::text::is_white(low[0]));
    }
}

/// Neither case nor characters that are not seen hide a tag: two texts whose
/// visible characters are ASCII and differ in case alone both open with a tag,
/// or neither does.
pub proof fn neither_case_nor_unseen_characters_hide_a_tag(s: Seq<char>, t: Seq<char>)
    requires
        crate::text::is_ascii_text(visible_text(s)),
        crate::text::is_ascii_text(visible_text(t)),
        crate::text::ascii_lowercase(visible_text(s)) == crate::text::ascii_lowercase(
            visible_text(t),
        ),
    ensures
        opens_with_tag(s) == opens_with_tag(t),
        opens_with_tag(s) == begins_harness_tag(
            crate::text::trim_start(crate::text::ascii_lowercase(visible_text(s))),
        ),
{
    lemma_trim_start_lowercase(visible_text(s));
    lemma_trim_start_lowercase(visible_text(t));
}

} // verus!
