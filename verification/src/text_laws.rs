//! What trimming, splitting, joining, ordering and counting do to texts.

use crate::order::{lex_less, text_less};
use crate::path::{file_name, is_markdown_path, part_less, path_less, path_parts, PartView};
use crate::text::{
    begins_with, decimal, is_ascii_text, is_blank, is_letter_or_digit, is_white, join, lowercase,
    runs, trim, trim_end, trim_end_char, trim_start,
};
use crate::time::Timestamp;
use vstd::prelude::*;

verus! {

// ---------------------------------------------------------------------------
// Characters
// ---------------------------------------------------------------------------

/// Which characters are white space: among the ASCII ones the space and those from
/// the tab to the carriage return, and none that is a letter, a digit or a sign.
pub proof fn white_space_is_what_unicode_calls_so(c: char)
    ensures
        (c as u32) < 0x80 ==> (is_white(c) <==> c == ' ' || c == '\t' || c == '\n' || c == '\r'
            || c == '\u{b}' || c == '\u{c}'),
        (c as u32) >= 0x80 ==> (is_white(c) <==> c == '\u{85}' || c == '\u{a0}' || c == '\u{1680}'
            || ('\u{2000}' <= c && c <= '\u{200a}') || c == '\u{2028}' || c == '\u{2029}' || c
            == '\u{202f}' || c == '\u{205f}' || c == '\u{3000}'),
{
}

/// An ASCII text in lowercase has its capitals made small, one for one, and all
/// else as it was; and of the ASCII characters the letters and digits alone belong
/// to words.
pub proof fn lowercase_makes_ascii_capitals_small(s: Seq<char>, i: int, c: char)
    requires
        forall|j: int| 0 <= j < s.len() ==> (#[trigger] s[j] as u32) < 0x80,
        0 <= i < s.len(),
    ensures
        lowercase(s).len() == s.len(),
        'A' <= s[i] <= 'Z' ==> lowercase(s)[i] as u32 == s[i] as u32 + 32,
        !('A' <= s[i] <= 'Z') ==> lowercase(s)[i] == s[i],
        (c as u32) < 0x80 ==> (is_letter_or_digit(c) <==> 'a' <= c <= 'z' || 'A' <= c <= 'Z' || '0'
            <= c <= '9'),
{
    assert(is_ascii_text(s));
}

// ---------------------------------------------------------------------------
// Trimming
// ---------------------------------------------------------------------------

/// Trimming takes off exactly the white space around a text.
pub proof fn trimming_takes_off_what_is_around(
    before: Seq<char>,
    core: Seq<char>,
    after: Seq<char>,
)
    requires
        forall|i: int| 0 <= i < before.len() ==> is_white(#[trigger] before[i]),
        forall|i: int| 0 <= i < after.len() ==> is_white(#[trigger] after[i]),
        core.len() > 0 ==> !is_white(core[0]) && !is_white(core.last()),
    ensures
        trim(before + core + after) == core,
        core.len() > 0 ==> trim_start(before + core + after) == core + after,
        core.len() > 0 ==> trim_end(before + core + after) == before + core,
{
    let s = before + core + after;
    let b = before.len() as int;
    let n = core.len() as int;
    if n == 0 {
        assert forall|i: int| 0 <= i < s.len() implies is_white(s[i]) by {
            if i < b {
                assert(s[i] == before[i]);
            } else {
                assert(s[i] == after[i - b]);
            }
        }
        crate::text::lemma_trim_start(s, s.len() as int);
        assert(trim_start(s) =~= Seq::empty());
        crate::text::lemma_trim_end(trim_start(s), 0);
        assert(trim(s) =~= core);
    } else {
        assert forall|i: int| 0 <= i < b implies is_white(s[i]) by {
            assert(s[i] == before[i]);
        }
        assert(s[b] == core[0]);
        crate::text::lemma_trim_start(s, b);
        let t = core + after;
        assert(s.subrange(b, s.len() as int) =~= t);
        assert forall|i: int| n <= i < t.len() implies is_white(t[i]) by {
            assert(t[i] == after[i - n]);
        }
        assert(t[n - 1] == core.last());
        crate::text::lemma_trim_end(t, n);
        assert(t.subrange(0, n) =~= core);
        assert forall|i: int| b + n <= i < s.len() implies is_white(s[i]) by {
            assert(s[i] == after[i - b - n]);
        }
        assert(s[b + n - 1] == core.last());
        crate::text::lemma_trim_end(s, b + n);
        assert(s.subrange(0, b + n) =~= before + core);
    }
}

/// A text is blank where nothing is left of it after trimming, that is where all of
/// it is white space; and it begins with another where it is that one and more.
pub proof fn a_blank_text_has_nothing_but_white_space(s: Seq<char>, prefix: Seq<char>)
    ensures
        is_blank(s) <==> (forall|i: int| 0 <= i < s.len() ==> is_white(#[trigger] s[i])),
        is_blank(s) <==> trim(s).len() == 0,
        begins_with(prefix + s, prefix),
        begins_with(s, prefix) <==> exists|rest: Seq<char>| s == #[trigger] (prefix + rest),
{
    crate::text::lemma_trimmed(s);
    assert((prefix + s).subrange(0, prefix.len() as int) =~= prefix);
    if begins_with(s, prefix) {
        let rest = s.skip(prefix.len() as int);
        assert(s =~= prefix + rest);
    }
    if exists|rest: Seq<char>| s == #[trigger] (prefix + rest) {
        let rest = choose|rest: Seq<char>| s == #[trigger] (prefix + rest);
        assert((prefix + rest).subrange(0, prefix.len() as int) =~= prefix);
    }
}

/// Taking a character off the end of a text takes off all of it there, and nothing
/// else.
pub proof fn a_character_is_taken_off_the_end(s: Seq<char>, c: char)
    requires
        s.len() > 0 ==> s.last() != c,
    ensures
        trim_end_char(s, c) == s,
        trim_end_char(s.push(c), c) == s,
        trim_end_char(s.push(c).push(c), c) == s,
{
    let one = s.push(c);
    let two = one.push(c);
    assert(one.drop_last() =~= s);
    assert(two.drop_last() =~= one);
    assert(trim_end_char(one, c) == trim_end_char(s, c));
    assert(trim_end_char(two, c) == trim_end_char(one, c));
}

// ---------------------------------------------------------------------------
// Splitting and joining
// ---------------------------------------------------------------------------

/// A text is split into the runs of wanted characters that stand in it: none of an
/// empty text, itself of a text of wanted characters, and of a text with an unwanted
/// one those before it and those behind it.
pub proof fn a_text_is_split_at_unwanted_characters(
    word: Seq<char>,
    x: Seq<char>,
    c: char,
    y: Seq<char>,
    keep: spec_fn(char) -> bool,
)
    ensures
        runs(Seq::empty(), keep).len() == 0,
        word.len() > 0 && (forall|i: int| 0 <= i < word.len() ==> keep(#[trigger] word[i])) ==> runs(
            word,
            keep,
        ) == seq![word],
        !keep(c) ==> runs(x + seq![c] + y, keep) == runs(x, keep) + runs(y, keep),
{
    if word.len() > 0 && (forall|i: int| 0 <= i < word.len() ==> keep(#[trigger] word[i])) {
        lemma_one_run(word, keep);
    }
    if !keep(c) {
        crate::text::lemma_runs_apart(x, c, y, keep);
        assert(x.push(c) + y =~= x + seq![c] + y);
    }
}

proof fn lemma_one_run(word: Seq<char>, keep: spec_fn(char) -> bool)
    requires
        word.len() > 0,
        forall|i: int| 0 <= i < word.len() ==> keep(#[trigger] word[i]),
    ensures
        runs(word, keep) == seq![word],
    decreases word.len(),
{
    let before = word.drop_last();
    assert(keep(word[word.len() - 1]));
    if before.len() == 0 {
        assert(runs(before, keep) =~= Seq::empty());
        assert(runs(word, keep) =~= seq![word]) by {
            assert(seq![word.last()] =~= word);
        }
    } else {
        assert forall|i: int| 0 <= i < before.len() implies keep(#[trigger] before[i]) by {
            assert(before[i] == word[i]);
        }
        lemma_one_run(before, keep);
        assert(keep(word[word.len() - 2]));
        assert(before.push(word.last()) =~= word);
        assert(runs(word, keep) =~= seq![word]);
    }
}

/// Joining puts the separator between texts and nowhere else: two lists joined
/// apart, with the separator between them, are the two lists joined.
pub proof fn joining_puts_the_separator_between(
    a: Seq<Seq<char>>,
    b: Seq<Seq<char>>,
    text: Seq<char>,
    sep: Seq<char>,
)
    ensures
        join(Seq::empty(), sep).len() == 0,
        join(seq![text], sep) == text,
        a.len() > 0 && b.len() > 0 ==> join(a + b, sep) == join(a, sep) + sep + join(b, sep),
    decreases b.len(),
{
    if a.len() > 0 && b.len() > 0 {
        let all = a + b;
        assert(all.last() == b.last());
        if b.len() == 1 {
            assert(all.drop_last() =~= a);
        } else {
            assert(all.drop_last() =~= a + b.drop_last());
            joining_puts_the_separator_between(a, b.drop_last(), text, sep);
            assert(join(all, sep) =~= join(a, sep) + sep + join(b, sep));
        }
    }
}

// ---------------------------------------------------------------------------
// Numbers
// ---------------------------------------------------------------------------

/// The number that decimal digits denote.
pub open spec fn number_of(digits: Seq<char>) -> nat
    decreases digits.len(),
{
    if digits.len() == 0 {
        0
    } else {
        (number_of(digits.drop_last()) * 10 + (digits.last() as int - 48)) as nat
    }
}

/// A number is written in the decimal digits that denote it, without a zero before
/// them.
pub proof fn a_number_is_written_in_decimal_digits(n: nat)
    ensures
        decimal(n).len() > 0,
        forall|i: int| 0 <= i < decimal(n).len() ==> '0' <= #[trigger] decimal(n)[i] <= '9',
        number_of(decimal(n)) == n,
        n > 0 ==> decimal(n)[0] != '0',
        n == 0 ==> decimal(n).len() == 1,
    decreases n,
{
    let digits = decimal(n);
    if n < 10 {
        assert(digits.drop_last() =~= Seq::empty());
        assert(number_of(digits.drop_last()) == 0);
    } else {
        a_number_is_written_in_decimal_digits(n / 10);
        assert(digits.drop_last() =~= decimal(n / 10));
        assert(digits[0] == decimal(n / 10)[0]);
        assert forall|i: int| 0 <= i < digits.len() implies '0' <= #[trigger] digits[i] <= '9' by {
            if i < decimal(n / 10).len() {
                assert(digits[i] == decimal(n / 10)[i]);
            }
        }
    }
}

// ---------------------------------------------------------------------------
// Orders
// ---------------------------------------------------------------------------

/// The first character in which two texts differ decides which comes first, by its
/// code; a text comes before every longer one that begins with it.
pub proof fn texts_are_ordered_by_their_first_difference(
    p: Seq<char>,
    c: char,
    x: Seq<char>,
    d: char,
    y: Seq<char>,
)
    ensures
        text_less(p + seq![c] + x, p + seq![d] + y) <==> (c as u32) < (d as u32) || (c == d
            && text_less(x, y)),
        text_less(p, p + seq![c] + x),
        !text_less(p + seq![c] + x, p),
        !text_less(p, p),
    decreases p.len(),
{
    let a = p + seq![c] + x;
    let b = p + seq![d] + y;
    if p.len() == 0 {
        assert(a[0] == c && b[0] == d);
        assert(a.drop_first() =~= x);
        assert(b.drop_first() =~= y);
    } else {
        let q = p.drop_first();
        assert(a.drop_first() =~= q + seq![c] + x);
        assert(b.drop_first() =~= q + seq![d] + y);
        assert(a[0] == p[0] && b[0] == p[0]);
        texts_are_ordered_by_their_first_difference(q, c, x, d, y);
    }
}

/// The first part in which two paths differ decides which comes first: the root,
/// then the current directory, the one above, and names in the order of texts. A
/// path comes before everything below it.
pub proof fn paths_are_ordered_by_their_first_difference(
    p: Seq<PartView>,
    c: PartView,
    x: Seq<PartView>,
    d: PartView,
    y: Seq<PartView>,
)
    ensures
        c != d ==> (path_less(p + seq![c] + x, p + seq![d] + y) <==> (c is Root && !(d is Root))
            || (c is Current && (d is Parent || d is Name)) || (c is Parent && d is Name) || (
        c is Name && d is Name && text_less(c->Name_0, d->Name_0))),
        c == d ==> (path_less(p + seq![c] + x, p + seq![d] + y) <==> path_less(x, y)),
        path_less(p, p + seq![c] + x),
        !path_less(p + seq![c] + x, p),
    decreases p.len(),
{
    let a = p + seq![c] + x;
    let b = p + seq![d] + y;
    let lt = |p: PartView, q: PartView| part_less(p, q);
    if p.len() == 0 {
        assert(a[0] == c && b[0] == d);
        assert(a.drop_first() =~= x);
        assert(b.drop_first() =~= y);
        assert(lex_less(a, b, lt) == (if c == d {
            lex_less(x, y, lt)
        } else {
            lt(c, d)
        }));
    } else {
        let q = p.drop_first();
        assert(a.drop_first() =~= q + seq![c] + x);
        assert(b.drop_first() =~= q + seq![d] + y);
        assert(a[0] == p[0] && b[0] == p[0]);
        paths_are_ordered_by_their_first_difference(q, c, x, d, y);
        assert(lex_less(a, b, lt) == lex_less(a.drop_first(), b.drop_first(), lt));
        assert(lex_less(p, a, lt) == lex_less(q, a.drop_first(), lt));
        assert(lex_less(a, p, lt) == lex_less(a.drop_first(), q, lt));
    }
}

/// Times are ordered by their seconds and then by their fractions, and so many
/// seconds before a time are so many seconds before it.
pub proof fn times_are_ordered_by_their_seconds(a: Timestamp, b: Timestamp, n: int)
    ensures
        a.before(b) <==> a.secs < b.secs || (a.secs == b.secs && a.nanos < b.nanos),
        i64::MIN <= a.secs - n <= i64::MAX ==> a.minus(n).secs == a.secs - n && a.minus(n).nanos
            == a.nanos,
{
}

// ---------------------------------------------------------------------------
// Paths
// ---------------------------------------------------------------------------

/// A path is Markdown where its last part is a name that ends in `.md` and is more
/// than that, whatever stands before.
pub proof fn a_markdown_path_ends_in_md(dir: Seq<PartView>, stem: Seq<char>, name: Seq<char>)
    ensures
        stem.len() > 0 ==> is_markdown_path(dir.push(PartView::Name(stem + ".md"@))),
        !is_markdown_path(dir.push(PartView::Name(".md"@))),
        !is_markdown_path(dir.push(PartView::Parent)),
        !is_markdown_path(dir.push(PartView::Root)),
        !is_markdown_path(dir.push(PartView::Current)),
        is_markdown_path(dir.push(PartView::Name(name))) ==> name.len() > 3 && name == name.take(
            name.len() - 3,
        ) + ".md"@,
        file_name(dir.push(PartView::Name(name))) == Some(name),
        !is_markdown_path(Seq::empty()),
{
    reveal_strlit(".md");
    let full = stem + ".md"@;
    assert(full.subrange(full.len() - 3, full.len() as int) =~= ".md"@);
    if is_markdown_path(dir.push(PartView::Name(name))) {
        assert(name =~= name.take(name.len() - 3) + ".md"@);
    }
}

/// A path is read part by part: it begins at the root where it begins with a
/// slash, each name between slashes is a part of it, and `..` goes up.
pub proof fn a_path_is_read_part_by_part(head: Seq<char>, name: Seq<char>)
    requires
        name.len() > 0,
        forall|i: int| 0 <= i < name.len() ==> #[trigger] name[i] != '/',
    ensures
        path_parts(Seq::empty()).len() == 0,
        path_parts(seq!['/']) == seq![PartView::Root],
        head.len() > 0 && name != "."@ && name != ".."@ ==> path_parts(head + seq!['/'] + name)
            == path_parts(head).push(PartView::Name(name)),
        head.len() > 0 && name == ".."@ ==> path_parts(head + seq!['/'] + name) == path_parts(
            head,
        ).push(PartView::Parent),
        head.len() > 0 && head[0] == '/' && name == "."@ ==> path_parts(head + seq!['/'] + name)
            == path_parts(head),
        head.len() > 0 ==> path_parts(head + seq!['/']) == path_parts(head),
        name != "."@ && name != ".."@ ==> path_parts(name) == seq![PartView::Name(name)],
{
    let keep = |c: char| c != '/';
    let slash = seq!['/'];
    assert(runs(Seq::empty(), keep) =~= Seq::empty());
    assert(crate::path::segment_parts(Seq::empty(), false) =~= Seq::empty());
    a_text_is_split_at_unwanted_characters(name, Seq::empty(), '/', Seq::empty(), keep);
    assert(Seq::<char>::empty() + slash + Seq::<char>::empty() =~= slash);
    assert(runs(slash, keep) =~= Seq::empty());
    let whole = head + slash + name;
    a_text_is_split_at_unwanted_characters(name, head, '/', name, keep);
    let before = runs(head, keep);
    assert(runs(whole, keep) =~= before.push(name));
    assert(before.push(name).drop_last() =~= before);
    assert(head.len() > 0 ==> whole[0] == head[0]);
    a_text_is_split_at_unwanted_characters(name, head, '/', Seq::empty(), keep);
    assert(head + slash + Seq::<char>::empty() =~= head + slash);
    assert(runs(head + slash, keep) =~= before);
    assert(head.len() > 0 ==> (head + slash)[0] == head[0]);
    reveal_strlit(".");
    reveal_strlit("..");
    assert("."@.len() != ".."@.len());
    let one = seq![name];
    assert(one.drop_last() =~= Seq::empty());
    assert(name[0] != '/');
    if name != "."@ && name != ".."@ {
        assert(path_parts(name) =~= seq![PartView::Name(name)]);
    }
}

} // verus!
