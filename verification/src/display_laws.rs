//! What previews keep of a text, and what a terminal is shown of it.

use crate::json::JsonView;
use crate::preview::{
    block_texts, line_end, line_preview, nonblank_line, result_text, shortened, synthetic,
    target_among, target_keys, unseen, visible_text,
};
use crate::terminal::{active, disposition, invisible, one_line, sanitized, sanitized_prefix};
use crate::text::{is_blank, is_white, join, runs, trim, trim_end};
use vstd::prelude::*;

verus! {

// ---------------------------------------------------------------------------
// Previews
// ---------------------------------------------------------------------------

/// A preview is the text without the white space around it where that is short
/// enough. Else it is a beginning of it, as long as can be without white space at
/// its end, and an ellipsis.
pub proof fn a_preview_is_a_beginning(s: Seq<char>, max: int)
    requires
        max >= 0,
    ensures
        trim(s).len() <= max ==> shortened(s, max) == trim(s),
        trim(s).len() > max ==> {
            let r = shortened(s, max);
            let k = r.len() - 1;
            &&& 0 <= k <= max
            &&& r[k] == '\u{2026}'
            &&& r.take(k) == trim(s).take(k)
            &&& k > 0 ==> !is_white(trim(s)[k - 1])
            &&& forall|i: int| k <= i < max ==> is_white(#[trigger] trim(s)[i])
        },
{
    let t = trim(s);
    if t.len() > max {
        let cut = t.take(max);
        let k = lemma_trim_end_at(cut);
        let r = shortened(s, max);
        assert(trim_end(cut) == cut.take(k));
        assert(r.take(k) =~= t.take(k));
        assert forall|i: int| k <= i < max implies is_white(#[trigger] t[i]) by {
            assert(cut[i] == t[i]);
        }
        if k > 0 {
            assert(cut[k - 1] == t[k - 1]);
        }
    }
}

proof fn lemma_trim_end_at(s: Seq<char>) -> (k: int)
    ensures
        0 <= k <= s.len(),
        trim_end(s) == s.take(k),
        k > 0 ==> !is_white(s[k - 1]),
        forall|i: int| k <= i < s.len() ==> is_white(#[trigger] s[i]),
    decreases s.len(),
{
    if s.len() > 0 && is_white(s.last()) {
        let t = s.drop_last();
        let k = lemma_trim_end_at(t);
        assert(t.take(k) =~= s.take(k));
        if k > 0 {
            assert(t[k - 1] == s[k - 1]);
        }
        assert forall|i: int| k <= i < s.len() implies is_white(#[trigger] s[i]) by {
            if i < t.len() {
                assert(t[i] == s[i]);
            }
        }
        k
    } else {
        assert(s.take(s.len() as int) =~= s);
        s.len() as int
    }
}

proof fn lemma_line_end_shift(head: Seq<char>, rest: Seq<char>, from: int)
    requires
        0 <= from,
    ensures
        line_end(head + rest, head.len() + from) == head.len() + line_end(rest, from) || from
            > rest.len(),
    decreases rest.len() - from,
{
    let s = head + rest;
    if from < rest.len() {
        assert(s[head.len() + from] == rest[from]);
        if rest[from] != '\n' {
            lemma_line_end_shift(head, rest, from + 1);
        }
    }
}

proof fn lemma_line_end_in(s: Seq<char>, from: int)
    requires
        0 <= from <= s.len(),
    ensures
        from <= line_end(s, from) <= s.len(),
    decreases s.len() - from,
{
    if from < s.len() && s[from] != '\n' {
        lemma_line_end_in(s, from + 1);
    }
}

proof fn lemma_nonblank_shift(head: Seq<char>, rest: Seq<char>, from: int)
    requires
        0 <= from,
    ensures
        nonblank_line(head + rest, head.len() + from) == nonblank_line(rest, from),
    decreases rest.len() + 1 - from,
{
    let s = head + rest;
    if from < rest.len() {
        lemma_line_end_shift(head, rest, from);
        lemma_line_end_in(rest, from);
        let end = line_end(rest, from);
        assert(s.subrange(head.len() + from, head.len() + end) =~= rest.subrange(from, end));
        lemma_nonblank_shift(head, rest, end + 1);
        assert(head.len() + end + 1 == head.len() + (end + 1));
    }
}

proof fn lemma_line_end_at(line: Seq<char>, rest: Seq<char>, from: int)
    requires
        0 <= from <= line.len(),
        forall|i: int| 0 <= i < line.len() ==> #[trigger] line[i] != '\n',
    ensures
        line_end(line + seq!['\n'] + rest, from) == line.len(),
        line_end(line, from) == line.len(),
    decreases line.len() - from,
{
    let s = line + seq!['\n'] + rest;
    if from < line.len() {
        assert(s[from] == line[from]);
        lemma_line_end_at(line, rest, from + 1);
    } else {
        assert(s[from] == '\n');
    }
}

/// The preview of a text is that of its first line that is not blank: of a text of
/// one line it is that line's, and of one with more lines it is the first line's
/// unless that is blank, and then that of the rest. A blank text has none.
pub proof fn the_first_line_with_something_on_it_is_shown(
    line: Seq<char>,
    rest: Seq<char>,
    max: int,
)
    requires
        forall|i: int| 0 <= i < line.len() ==> #[trigger] line[i] != '\n',
    ensures
        is_blank(line) ==> line_preview(line, max) is None,
        !is_blank(line) ==> line_preview(line, max) == Some(shortened(line, max)),
        is_blank(line) ==> line_preview(line + seq!['\n'] + rest, max) == line_preview(rest, max),
        !is_blank(line) ==> line_preview(line + seq!['\n'] + rest, max) == Some(
            shortened(line, max),
        ),
{
    let s = line + seq!['\n'] + rest;
    let n = line.len() as int;
    lemma_line_end_at(line, rest, 0);
    assert(s.subrange(0, n) =~= line);
    assert(line.subrange(0, n) =~= line);
    let head = line + seq!['\n'];
    assert(head + rest =~= s);
    lemma_nonblank_shift(head, rest, 0);
    assert(nonblank_line(s, n + 1) == nonblank_line(rest, 0));
    assert(nonblank_line(line, n + 1) is None);
    assert(nonblank_line(s, 0) == (if is_blank(line) {
        nonblank_line(s, n + 1)
    } else {
        Some(line)
    }));
    if n > 0 {
        assert(nonblank_line(line, 0) == (if is_blank(line) {
            nonblank_line(line, n + 1)
        } else {
            Some(line)
        }));
    }
}

/// The target of a tool call is its first argument that is a text and not blank, of
/// the file path, the command, the pattern, the path, the address, the notebook and
/// the description, in this order; shortened. Without such an argument it has none.
pub proof fn a_target_is_the_first_usable_argument(input: JsonView, k: int, text: Seq<char>)
    ensures
        ({
            let keys = seq![
                "file_path"@,
                "command"@,
                "pattern"@,
                "path"@,
                "url"@,
                "notebook_path"@,
                "description"@,
            ];
            let usable = |j: int|
                input.member(keys[j]) is Some && input.member(keys[j])->0 is Text && !is_blank(
                    input.member(keys[j])->0->Text_0,
                );
            &&& 0 <= k < 7 && input.member(keys[k]) == Some(JsonView::Text(text)) && !is_blank(text)
                && (forall|j: int| 0 <= j < k ==> !#[trigger] usable(j)) ==> target_among(
                input,
                target_keys(),
            ) == Some(shortened(text, 120))
            &&& (forall|j: int| 0 <= j < 7 ==> !#[trigger] usable(j)) ==> target_among(
                input,
                target_keys(),
            ) is None
        }),
{
    let keys = target_keys();
    let usable = |j: int|
        input.member(keys[j]) is Some && input.member(keys[j])->0 is Text && !is_blank(
            input.member(keys[j])->0->Text_0,
        );
    if 0 <= k < 7 && input.member(keys[k]) == Some(JsonView::Text(text)) && !is_blank(text) && (
    forall|j: int| 0 <= j < k ==> !#[trigger] usable(j)) {
        assert forall|j: int| 0 <= j < k implies !usable_key(input, #[trigger] keys[j]) by {
            assert(!usable(j));
        }
        lemma_target_at(input, keys, k, text);
    }
    if forall|j: int| 0 <= j < 7 ==> !#[trigger] usable(j) {
        assert forall|j: int| 0 <= j < keys.len() implies !usable_key(input, #[trigger] keys[j]) by {
            assert(!usable(j));
        }
        lemma_no_target(input, keys);
    }
}

spec fn usable_key(input: JsonView, key: Seq<char>) -> bool {
    input.member_text(key) is Some && !is_blank(input.member_text(key)->0)
}

proof fn lemma_target_at(input: JsonView, keys: Seq<Seq<char>>, k: int, text: Seq<char>)
    requires
        0 <= k < keys.len(),
        input.member(keys[k]) == Some(JsonView::Text(text)),
        !is_blank(text),
        forall|j: int| 0 <= j < k ==> !usable_key(input, #[trigger] keys[j]),
    ensures
        target_among(input, keys) == Some(shortened(text, 120)),
    decreases keys.len(),
{
    if k > 0 {
        let rest = keys.drop_first();
        assert(!usable_key(input, keys[0]));
        assert(rest[k - 1] == keys[k]);
        assert forall|j: int| 0 <= j < k - 1 implies !usable_key(input, #[trigger] rest[j]) by {
            assert(rest[j] == keys[j + 1]);
        }
        lemma_target_at(input, rest, k - 1, text);
    }
}

proof fn lemma_no_target(input: JsonView, keys: Seq<Seq<char>>)
    requires
        forall|j: int| 0 <= j < keys.len() ==> !usable_key(input, #[trigger] keys[j]),
    ensures
        target_among(input, keys) is None,
    decreases keys.len(),
{
    if keys.len() > 0 {
        let rest = keys.drop_first();
        assert(!usable_key(input, keys[0]));
        assert forall|j: int| 0 <= j < rest.len() implies !usable_key(input, #[trigger] rest[j]) by {
            assert(rest[j] == keys[j + 1]);
        }
        lemma_no_target(input, rest);
    }
}

/// The text of a tool result is its content where that is a text, and where it is a
/// list the texts of its items, each on lines of its own. Without any text it has
/// none.
pub proof fn a_result_is_read_with_all_its_texts(
    block: JsonView,
    text: Seq<char>,
    items: Seq<JsonView>,
    more: Seq<JsonView>,
    item: JsonView,
)
    ensures
        block.member("content"@) == Some(JsonView::Text(text)) ==> result_text(block) == Some(text),
        block.member("content"@) is None ==> result_text(block) is None,
        block.member("content"@) == Some(JsonView::Array(items)) && block_texts(items).len() == 0
            ==> result_text(block) is None,
        block.member("content"@) == Some(JsonView::Array(items)) && block_texts(items).len() > 0
            ==> result_text(block) == Some(join(block_texts(items), seq!['\n'])),
        item.member("text"@) == Some(JsonView::Text(text)) ==> block_texts(seq![item]) == seq![text],
        !(item.member("text"@) matches Some(JsonView::Text(_))) ==> block_texts(seq![item]).len()
            == 0,
        block_texts(items + more) == block_texts(items) + block_texts(more),
        block_texts(Seq::empty()).len() == 0,
{
    reveal_strlit("\n");
    assert("\n"@ =~= seq!['\n']);
    let one = seq![item];
    assert(one.drop_last() =~= Seq::empty());
    assert(block_texts(one.drop_last()) =~= Seq::empty());
    assert(item.member("text"@) == Some(JsonView::Text(text)) ==> block_texts(one) =~= seq![text]);
    lemma_block_texts_add(items, more);
}

proof fn lemma_block_texts_add(a: Seq<JsonView>, b: Seq<JsonView>)
    ensures
        block_texts(a + b) == block_texts(a) + block_texts(b),
    decreases b.len(),
{
    if b.len() == 0 {
        assert(a + b =~= a);
        assert(block_texts(a) + block_texts(b) =~= block_texts(a));
    } else {
        assert((a + b).drop_last() =~= a + b.drop_last());
        assert((a + b).last() == b.last());
        lemma_block_texts_add(a, b.drop_last());
        assert(block_texts(a + b) =~= block_texts(a) + block_texts(b));
    }
}

// ---------------------------------------------------------------------------
// Machine-made prompts
// ---------------------------------------------------------------------------

/// Characters that are not seen do not matter to what is read: text with one of
/// them in it reads as the text without it, and text without any reads as it is.
pub proof fn unseen_characters_do_not_matter(a: Seq<char>, c: char, b: Seq<char>)
    ensures
        unseen(c) ==> visible_text(a + seq![c] + b) == visible_text(a + b),
        !unseen(c) ==> visible_text(a + seq![c] + b) == visible_text(a) + seq![c] + visible_text(b),
        visible_text(a + b) == visible_text(a) + visible_text(b),
        invisible(c) ==> unseen(c),
        '\u{2066}' <= c <= '\u{2069}' ==> unseen(c),
        (c as u32) < 0x80 ==> !unseen(c),
{
    let keep = |c: char| !unseen(c);
    let one = seq![c];
    crate::seqs::lemma_filter_ends(one, keep);
    crate::seqs::lemma_filter_take(one, 0, keep);
    assert(one.filter(keep) =~= (if keep(c) {
        one
    } else {
        Seq::empty()
    }));
    Seq::filter_distributes_over_add(a + one, b, keep);
    Seq::filter_distributes_over_add(a, one, keep);
    Seq::filter_distributes_over_add(a, b, keep);
    if unseen(c) {
        assert(visible_text(a + one + b) =~= visible_text(a + b));
    }
}

/// A text of the harness is one that opens, whatever the case, with one of its four
/// tags or the end of one, or that begins with one of its two phrases as they are;
/// nothing else is. This is said of ASCII texts without white space before them.
pub proof fn only_tags_and_phrases_mark_the_harness(s: Seq<char>)
    requires
        forall|i: int| 0 <= i < s.len() ==> (#[trigger] s[i] as u32) < 0x80,
        s.len() > 0 ==> !is_white(s[0]),
    ensures
        ({
            let low = Seq::new(
                s.len(),
                |i: int|
                    if 'A' <= s[i] <= 'Z' {
                        (s[i] as u32 + 32) as char
                    } else {
                        s[i]
                    },
            );
            let opens = |tag: Seq<char>| tag.is_prefix_of(low);
            synthetic(s) <==> opens("<"@ + "system-reminder"@) || opens("</"@ + "system-reminder"@)
                || opens("<"@ + "command-name"@) || opens("</"@ + "command-name"@) || opens(
                "<"@ + "local-command-stdout"@,
            ) || opens("</"@ + "local-command-stdout"@) || opens("<"@ + "user-prompt-submit-hook"@)
                || opens("</"@ + "user-prompt-submit-hook"@)
                || "Caveat: The messages below were generated"@.is_prefix_of(s)
                || "[Request interrupted"@.is_prefix_of(s)
        }),
{
    let keep = |c: char| !unseen(c);
    assert forall|i: int| 0 <= i < s.len() implies keep(#[trigger] s[i]) by {
        unseen_characters_do_not_matter(s, s[i], s);
    }
    crate::seqs::lemma_filter_all(s, keep);
    assert(visible_text(s) == s);
    assert(crate::text::trim_start(s) == s);
    assert(crate::text::is_ascii_text(s));
    let low = Seq::new(
        s.len(),
        |i: int|
            if 'A' <= s[i] <= 'Z' {
                (s[i] as u32 + 32) as char
            } else {
                s[i]
            },
    );
    assert(crate::text::lowercase(s) =~= low);
}

// ---------------------------------------------------------------------------
// Terminals
// ---------------------------------------------------------------------------

/// Which characters do something to a terminal: controls but for newline and tab,
/// what turns the direction of text, and the separators of lines and paragraphs.
/// None of them is invisible.
pub proof fn what_acts_on_a_terminal_is_no_plain_character(c: char)
    ensures
        (c as u32) < 0x80 ==> (active(c) <==> ((c as u32) < 0x20 && c != '\n' && c != '\t') || c
            == '\u{7f}'),
        (c as u32) < 0x80 ==> !invisible(c),
        '\u{80}' <= c <= '\u{9f}' ==> active(c),
        '\u{202a}' <= c <= '\u{202e}' ==> active(c),
        '\u{2066}' <= c <= '\u{2069}' ==> active(c),
        c == '\u{200e}' || c == '\u{200f}' || c == '\u{061c}' ==> active(c),
        c == '\u{2028}' || c == '\u{2029}' ==> active(c),
        '\u{200b}' <= c <= '\u{200d}' ==> invisible(c),
        '\u{2060}' <= c <= '\u{2065}' || '\u{206a}' <= c <= '\u{206f}' ==> invisible(c),
        '\u{fe00}' <= c <= '\u{fe0f}' || '\u{e0000}' <= c <= '\u{e0fff}' ==> invisible(c),
        c == '\u{ad}' || c == '\u{34f}' || c == '\u{feff}' || c == '\u{2800}' || c == '\u{3164}'
            || c == '\u{ffa0}' ==> invisible(c),
        '\u{115f}' <= c <= '\u{1160}' || '\u{17b4}' <= c <= '\u{17b5}' || '\u{180b}' <= c
            <= '\u{180f}' || '\u{fff0}' <= c <= '\u{fff8}' ==> invisible(c),
        '\u{600}' <= c <= '\u{605}' || c == '\u{6dd}' || c == '\u{70f}' || c == '\u{8e2}'
            || '\u{890}' <= c <= '\u{891}' ==> invisible(c),
        c == '\u{110bd}' || c == '\u{110cd}' || '\u{13430}' <= c <= '\u{1343f}' || '\u{1bca0}'
            <= c <= '\u{1bca3}' || '\u{1d173}' <= c <= '\u{1d17a}' ==> invisible(c),
        !(active(c) && invisible(c)),
        '\u{a0}' <= c <= '\u{24f}' && c != '\u{ad}' ==> !active(c) && !invisible(c),
        '\u{370}' <= c <= '\u{5ff}' ==> !active(c) && !invisible(c),
        '\u{4e00}' <= c <= '\u{9fff}' ==> !active(c) && !invisible(c),
{
}

proof fn lemma_sanitized_tail(a: Seq<char>, b: Seq<char>, n: int)
    requires
        0 <= n <= b.len(),
        !(a.len() > 0 && b.len() > 0 && a.last() == '\r' && b[0] == '\n'),
    ensures
        sanitized_prefix(a + b, a.len() + n) == sanitized(a) + sanitized_prefix(b, n),
    decreases n,
{
    let s = a + b;
    if n == 0 {
        lemma_sanitized_head(a, b, a.len() as int);
        assert(sanitized(a) + sanitized_prefix(b, 0) =~= sanitized(a));
    } else {
        lemma_sanitized_tail(a, b, n - 1);
        let i = n - 1;
        assert(s[a.len() + i] == b[i]);
        assert(i + 1 < b.len() ==> s[a.len() + i + 1] == b[i + 1]);
        assert(disposition(s, a.len() + i) == disposition(b, i));
        assert(sanitized(a) + (sanitized_prefix(b, n - 1) + disposition(b, i)) =~= (sanitized(a)
            + sanitized_prefix(b, n - 1)) + disposition(b, i));
    }
}

proof fn lemma_sanitized_head(a: Seq<char>, b: Seq<char>, n: int)
    requires
        0 <= n <= a.len(),
        !(a.len() > 0 && b.len() > 0 && a.last() == '\r' && b[0] == '\n'),
    ensures
        sanitized_prefix(a + b, n) == sanitized_prefix(a, n),
    decreases n,
{
    let s = a + b;
    if n > 0 {
        lemma_sanitized_head(a, b, n - 1);
        let i = n - 1;
        assert(s[i] == a[i]);
        if i + 1 < a.len() {
            assert(s[i + 1] == a[i + 1]);
        } else if b.len() > 0 {
            assert(s[i + 1] == b[0]);
        }
        assert(disposition(s, i) == disposition(a, i));
    }
}

/// A text is made safe character by character: what is invisible goes, what acts
/// on a terminal becomes a replacement character, and all else stays. The one
/// exception is a carriage return before a newline, which goes.
pub proof fn a_text_is_made_safe_character_by_character(a: Seq<char>, b: Seq<char>, c: char)
    ensures
        sanitized(Seq::empty()).len() == 0,
        invisible(c) ==> sanitized(seq![c]).len() == 0,
        !invisible(c) && active(c) ==> sanitized(seq![c]) == seq!['\u{fffd}'],
        !invisible(c) && !active(c) ==> sanitized(seq![c]) == seq![c],
        !(a.len() > 0 && b.len() > 0 && a.last() == '\r' && b[0] == '\n') ==> sanitized(a + b)
            == sanitized(a) + sanitized(b),
        sanitized(a + seq!['\r', '\n'] + b) == sanitized(a + seq!['\n'] + b) || (a.len() > 0
            && a.last() == '\r'),
{
    let one = seq![c];
    assert(sanitized_prefix(one, 0) =~= Seq::empty());
    assert(sanitized(one) == sanitized_prefix(one, 0) + disposition(one, 0));
    assert(sanitized(one) =~= disposition(one, 0));
    if !(a.len() > 0 && b.len() > 0 && a.last() == '\r' && b[0] == '\n') {
        lemma_sanitized_tail(a, b, b.len() as int);
    }
    if !(a.len() > 0 && a.last() == '\r') {
        let crlf = seq!['\r', '\n'];
        let lf = seq!['\n'];
        lemma_sanitized_tail(a, crlf + b, (crlf + b).len() as int);
        lemma_sanitized_tail(a, lf + b, (lf + b).len() as int);
        lemma_sanitized_tail(crlf, b, b.len() as int);
        lemma_sanitized_tail(lf, b, b.len() as int);
        assert(sanitized_prefix(crlf, 0) =~= Seq::empty());
        assert(sanitized_prefix(crlf, 1) == sanitized_prefix(crlf, 0) + disposition(crlf, 0));
        assert(sanitized_prefix(crlf, 2) == sanitized_prefix(crlf, 1) + disposition(crlf, 1));
        assert(sanitized_prefix(lf, 0) =~= Seq::empty());
        assert(sanitized_prefix(lf, 1) == sanitized_prefix(lf, 0) + disposition(lf, 0));
        assert(sanitized(crlf) =~= lf);
        assert(sanitized(lf) =~= lf);
        assert(a + crlf + b =~= a + (crlf + b));
        assert(a + lf + b =~= a + (lf + b));
    }
}

/// On one line a text is shown as it is made safe where it has neither newline nor
/// tab then; else its words are shown with one space between them.
pub proof fn a_line_has_its_words_with_single_spaces(s: Seq<char>)
    ensures
        !sanitized(s).contains('\n') && !sanitized(s).contains('\t') ==> one_line(s) == sanitized(s),
        sanitized(s).contains('\n') || sanitized(s).contains('\t') ==> one_line(s) == join(
            runs(sanitized(s), |c: char| !is_white(c)),
            seq![' '],
        ),
{
}

} // verus!
