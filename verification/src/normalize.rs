//! Reducing text to the terms that keyword search compares.
//!
//! The text is lowercased, split into alphanumeric runs, stripped of English
//! function words and stemmed. Queries and documents go through the same steps
//! or the comparison means nothing.

use crate::text::{
    contains_text, is_alphanumeric, same_text, split_runs, to_chars, to_lowercase,
};
use vstd::hash_map::StringHashMap;
use vstd::hash_set::StringHashSet;
use vstd::prelude::*;

verus! {

broadcast use vstd::string::group_string_axioms;

/// Names the exact behaviour of this module. Stored stems are comparable only
/// with stems made under the same stamp, so it changes whenever the terms do.
pub const NORMALIZER_STAMP: &'static str = "snowball-en+stop-v1";

/// Longest word that the stemmer can take, in bytes: it computes with byte
/// offsets in 32 bits, with a sign.
pub const MAX_STEM_BYTES: usize = 0x7fff_ffff;

// ---------------------------------------------------------------------------
// Terms
// ---------------------------------------------------------------------------

/// What the English stemmer of `rust_stemmers` makes of a word.
pub uninterp spec fn english_stem(word: Seq<char>) -> Seq<char>;

/// `rust_stemmers::Stemmer::stem` with `Algorithm::English`. The stemmer computes
/// with byte offsets in 32 bits, so the word is of limited length.
#[verifier::external_body]
fn stem(word: &str) -> (r: String)
    requires
        vstd::utf8::encode_utf8(word@).len() <= MAX_STEM_BYTES,
    ensures
        r@ == english_stem(word@),
{
    rust_stemmers::Stemmer::create(rust_stemmers::Algorithm::English).stem(word).into_owned()
}

/// English function words, which carry no retrieval signal.
pub open spec fn stop_words() -> Seq<Seq<char>> {
    seq![
        "a"@, "about"@, "an"@, "and"@, "are"@, "as"@, "at"@, "be"@, "been"@, "but"@, "by"@,
        "can"@, "did"@, "do"@, "does"@, "for"@, "from"@, "had"@, "has"@, "have"@, "he"@, "her"@,
        "his"@, "how"@, "i"@, "if"@, "in"@, "into"@, "is"@, "it"@, "its"@, "me"@, "my"@, "no"@,
        "not"@, "of"@, "on"@, "or"@, "our"@, "out"@, "over"@, "she"@, "should"@, "so"@, "some"@,
        "such"@, "than"@, "that"@, "the"@, "their"@, "them"@, "then"@, "there"@, "these"@,
        "they"@, "this"@, "those"@, "to"@, "too"@, "up"@, "us"@, "was"@, "we"@, "were"@, "what"@,
        "when"@, "where"@, "which"@, "while"@, "who"@, "why"@, "will"@, "with"@, "would"@,
        "you"@, "your"@,
    ]
}

/// Whether a lowercase word is a function word.
pub open spec fn is_stop_word(word: Seq<char>) -> bool {
    stop_words().contains(word)
}

/// The alphanumeric runs of a lowercase text.
pub open spec fn tokens(low: Seq<char>) -> Seq<Seq<char>> {
    crate::text::runs(low, |c: char| crate::text::is_letter_or_digit(c))
}

/// The term that a word stands for: its stem. A run of characters too long for
/// the stemmer stands for itself.
pub open spec fn term_of(word: Seq<char>) -> Seq<char> {
    if vstd::utf8::encode_utf8(word).len() <= MAX_STEM_BYTES {
        english_stem(word)
    } else {
        word
    }
}

/// The terms of the words that are no function words, in order.
pub open spec fn terms_of(words: Seq<Seq<char>>) -> Seq<Seq<char>>
    decreases words.len(),
{
    if words.len() == 0 {
        Seq::empty()
    } else {
        let before = terms_of(words.drop_last());
        if is_stop_word(words.last()) {
            before
        } else {
            before.push(term_of(words.last()))
        }
    }
}

/// The terms of a text, with repetitions.
pub open spec fn all_terms(text: Seq<char>) -> Seq<Seq<char>> {
    terms_of(tokens(crate::text::lowercase(text)))
}

/// The elements in the order of their first occurrence, each once.
pub open spec fn distinct(s: Seq<Seq<char>>) -> Seq<Seq<char>>
    decreases s.len(),
{
    if s.len() == 0 {
        Seq::empty()
    } else {
        let before = distinct(s.drop_last());
        if before.contains(s.last()) {
            before
        } else {
            before.push(s.last())
        }
    }
}

/// How often an element occurs.
pub open spec fn occurrences(s: Seq<Seq<char>>, x: Seq<char>) -> nat
    decreases s.len(),
{
    if s.len() == 0 {
        0
    } else {
        occurrences(s.drop_last(), x) + (if s.last() == x {
            1nat
        } else {
            0nat
        })
    }
}

/// What is distinct occurs once, and it is what occurred.
pub proof fn lemma_distinct(s: Seq<Seq<char>>)
    ensures
        distinct(s).no_duplicates(),
        forall|x: Seq<char>| #[trigger] distinct(s).contains(x) <==> s.contains(x),
        distinct(s).len() <= s.len(),
    decreases s.len(),
{
    if s.len() > 0 {
        let before = s.drop_last();
        lemma_distinct(before);
        let d = distinct(before);
        assert forall|x: Seq<char>| #[trigger] distinct(s).contains(x) <==> s.contains(x) by {
            if s.contains(x) {
                let i = choose|i: int| 0 <= i < s.len() && s[i] == x;
                if i < before.len() {
                    assert(before[i] == x);
                    assert(d.contains(x));
                    let j = choose|j: int| 0 <= j < d.len() && d[j] == x;
                    assert(distinct(s)[j] == x);
                } else if !d.contains(x) {
                    assert(distinct(s)[d.len() as int] == x);
                } else {
                    let j = choose|j: int| 0 <= j < d.len() && d[j] == x;
                    assert(distinct(s)[j] == x);
                }
            }
            if distinct(s).contains(x) {
                let j = choose|j: int| 0 <= j < distinct(s).len() && distinct(s)[j] == x;
                if j < d.len() {
                    assert(d[j] == x);
                    assert(d.contains(x));
                    let i = choose|i: int| 0 <= i < before.len() && before[i] == x;
                    assert(s[i] == x);
                } else {
                    assert(s[s.len() - 1] == x);
                }
            }
        }
    } else {
        assert(distinct(s) =~= s);
    }
}

/// A term occurs in the counts exactly if it is one of the distinct terms.
proof fn lemma_occurrences(s: Seq<Seq<char>>, x: Seq<char>)
    ensures
        occurrences(s, x) > 0 <==> s.contains(x),
        occurrences(s, x) <= s.len(),
    decreases s.len(),
{
    if s.len() > 0 {
        let before = s.drop_last();
        lemma_occurrences(before, x);
        if s.contains(x) && s.last() != x {
            let i = choose|i: int| 0 <= i < s.len() && s[i] == x;
            assert(before[i] == x);
        }
        if before.contains(x) {
            let i = choose|i: int| 0 <= i < before.len() && before[i] == x;
            assert(s[i] == x);
        }
        if s.last() == x {
            assert(s[s.len() - 1] == x);
        }
    }
}

/// The function words as a set.
fn stopwords() -> (r: StringHashSet)
    ensures
        forall|w: Seq<char>| #[trigger] r@.contains(w) <==> is_stop_word(w),
{
    let words: [&str; 76] = [
        "a", "about", "an", "and", "are", "as", "at", "be", "been", "but", "by", "can", "did",
        "do", "does", "for", "from", "had", "has", "have", "he", "her", "his", "how", "i", "if",
        "in", "into", "is", "it", "its", "me", "my", "no", "not", "of", "on", "or", "our", "out",
        "over", "she", "should", "so", "some", "such", "than", "that", "the", "their", "them",
        "then", "there", "these", "they", "this", "those", "to", "too", "up", "us", "was", "we",
        "were", "what", "when", "where", "which", "while", "who", "why", "will", "with", "would",
        "you", "your",
    ];
    let ghost all = stop_words();
    let mut set = StringHashSet::new();
    let mut i: usize = 0;
    while i < 76
        invariant
            i <= 76,
            all == stop_words(),
            all.len() == 76,
            forall|j: int| 0 <= j < 76 ==> #[trigger] all[j] == words@[j]@,
            forall|w: Seq<char>| #[trigger]
                set@.contains(w) <==> exists|j: int| 0 <= j < i && all[j] == w,
        decreases 76 - i,
    {
        set.insert(words[i].to_owned());
        assert(all[i as int] == words@[i as int]@);
        i += 1;
    }
    assert forall|w: Seq<char>| #[trigger] set@.contains(w) <==> is_stop_word(w) by {
        if is_stop_word(w) {
            let j = choose|j: int| 0 <= j < all.len() && all[j] == w;
            assert(all[j] == w);
        }
    }
    set
}

/// Whether a lowercase word is a function word.
pub fn is_stopword(word: &str) -> (r: bool)
    ensures
        r == is_stop_word(word@),
{
    stopwords().contains(word)
}

/// The alphanumeric runs of a lowercase text.
pub fn split_tokens(lowered: &str) -> (r: Vec<String>)
    ensures
        crate::text::texts(r@) == tokens(lowered@),
{
    let cs = to_chars(lowered);
    let keep = |c: char| -> (b: bool)
        ensures
            b == crate::text::is_letter_or_digit(c),
        { is_alphanumeric(c) };
    split_runs(&cs, keep, Ghost(|c: char| crate::text::is_letter_or_digit(c)))
}

/// The term that a word stands for.
fn term(word: &str) -> (r: String)
    ensures
        r@ == term_of(word@),
{
    if word.as_bytes().len() <= MAX_STEM_BYTES {
        stem(word)
    } else {
        word.to_owned()
    }
}

/// The terms of the words that are no function words, in order.
pub fn word_terms(words: &[String]) -> (r: Vec<String>)
    ensures
        crate::text::texts(r@) == terms_of(crate::text::texts(words@)),
{
    let stop = stopwords();
    let ghost all = crate::text::texts(words@);
    let mut out: Vec<String> = Vec::new();
    let mut i: usize = 0;
    assert(all.take(0) =~= Seq::empty());
    while i < words.len()
        invariant
            i <= words.len(),
            all == crate::text::texts(words@),
            forall|w: Seq<char>| #[trigger] stop@.contains(w) <==> is_stop_word(w),
            crate::text::texts(out@) == terms_of(all.take(i as int)),
        decreases words.len() - i,
    {
        let ghost after = all.take(i + 1);
        assert(after.drop_last() =~= all.take(i as int));
        assert(after.last() == words@[i as int]@);
        if !stop.contains(words[i].as_str()) {
            let ghost before = crate::text::texts(out@);
            let t = term(words[i].as_str());
            out.push(t);
            assert(crate::text::texts(out@) =~= before.push(t@));
        }
        i += 1;
    }
    assert(all.take(i as int) =~= all);
    out
}

/// The strings in the order of their first occurrence, each once.
pub fn dedup(list: Vec<String>) -> (r: Vec<String>)
    ensures
        crate::text::texts(r@) == distinct(crate::text::texts(list@)),
{
    let ghost all = crate::text::texts(list@);
    let mut seen = StringHashSet::new();
    let mut out: Vec<String> = Vec::new();
    let mut i: usize = 0;
    assert(all.take(0) =~= Seq::empty());
    while i < list.len()
        invariant
            i <= list.len(),
            all == crate::text::texts(list@),
            crate::text::texts(out@) == distinct(all.take(i as int)),
            forall|w: Seq<char>| #[trigger]
                seen@.contains(w) <==> crate::text::texts(out@).contains(w),
        decreases list.len() - i,
    {
        let ghost after = all.take(i + 1);
        let ghost before = crate::text::texts(out@);
        assert(after.drop_last() =~= all.take(i as int));
        assert(after.last() == list@[i as int]@);
        if seen.insert(list[i].clone()) {
            out.push(list[i].clone());
            proof {
                let x = list@[i as int]@;
                let now = crate::text::texts(out@);
                assert(now =~= before.push(x));
                assert forall|w: Seq<char>| #[trigger]
                    seen@.contains(w) <==> now.contains(w) by {
                    if now.contains(w) {
                        let j = choose|j: int| 0 <= j < now.len() && now[j] == w;
                        if j < before.len() {
                            assert(before[j] == w);
                        }
                    }
                    if before.contains(w) {
                        let j = choose|j: int| 0 <= j < before.len() && before[j] == w;
                        assert(now[j] == w);
                    }
                    if w == x {
                        assert(now[before.len() as int] == w);
                    }
                }
            }
        } else {
            assert(seen@ =~= seen@.insert(list@[i as int]@));
        }
        i += 1;
    }
    assert(all.take(i as int) =~= all);
    out
}

/// The distinct terms of a text, in the order of their first occurrence.
pub fn normalize(text: &str) -> (r: Vec<String>)
    ensures
        crate::text::texts(r@) == distinct(all_terms(text@)),
{
    let lowered = to_lowercase(text);
    let words = split_tokens(lowered.as_str());
    dedup(word_terms(&words))
}

/// The distinct terms of a text, for asking whether one is among them.
pub fn normalize_set(text: &str) -> (r: Vec<String>)
    ensures
        crate::text::texts(r@).no_duplicates(),
        forall|w: Seq<char>| #[trigger]
            crate::text::texts(r@).contains(w) <==> all_terms(text@).contains(w),
{
    proof {
        lemma_distinct(all_terms(text@));
    }
    normalize(text)
}

/// A count as far as 32 bits can hold it.
pub open spec fn capped(n: nat) -> u32 {
    if n <= u32::MAX {
        n as u32
    } else {
        u32::MAX
    }
}

/// The words of a list of counts.
pub open spec fn counted(v: Seq<(String, u32)>) -> Seq<Seq<char>> {
    Seq::new(v.len(), |i: int| v[i].0@)
}

/// Whether a list counts the given terms: each distinct term once, in the
/// order of first occurrence, with the number of its occurrences.
pub open spec fn counts_terms(v: Seq<(String, u32)>, terms: Seq<Seq<char>>) -> bool {
    &&& counted(v) == distinct(terms)
    &&& forall|i: int|
        0 <= i < v.len() ==> (#[trigger] v[i]).1 == capped(occurrences(terms, v[i].0@))
}

/// Counts the given terms.
pub fn count_terms(terms: Vec<String>) -> (r: Vec<(String, u32)>)
    ensures
        counts_terms(r@, crate::text::texts(terms@)),
{
    let ghost all = crate::text::texts(terms@);
    let mut at: StringHashMap<usize> = StringHashMap::new();
    let mut out: Vec<(String, u32)> = Vec::new();
    let mut i: usize = 0;
    assert(all.take(0) =~= Seq::empty());
    assert(counted(out@) =~= distinct(all.take(0)));
    while i < terms.len()
        invariant
            i <= terms.len(),
            all == crate::text::texts(terms@),
            counts_terms(out@, all.take(i as int)),
            forall|w: Seq<char>| #[trigger]
                at@.contains_key(w) <==> counted(out@).contains(w),
            forall|w: Seq<char>| #[trigger]
                at@.contains_key(w) ==> at@[w] < out@.len() && out@[at@[w] as int].0@ == w,
        decreases terms.len() - i,
    {
        let ghost now = all.take(i as int);
        let ghost after = all.take(i + 1);
        let ghost x = terms@[i as int]@;
        let ghost before = out@;
        proof {
            assert(after.drop_last() =~= now);
            assert(after.last() == x);
            lemma_distinct(now);
            lemma_occurrences(now, x);
        }
        let found: Option<usize> = match at.get(terms[i].as_str()) {
            Some(k) => Some(*k),
            None => None,
        };
        match found {
            Some(k) => {
                let word = out[k].0.clone();
                let old_count: u32 = out[k].1;
                let new_count: u32 = if old_count < u32::MAX {
                    old_count + 1
                } else {
                    old_count
                };
                out.set(k, (word, new_count));
                proof {
                    assert(counted(out@) =~= counted(before));
                    assert forall|j: int| 0 <= j < out@.len() implies (#[trigger] out@[j]).1
                        == capped(occurrences(after, out@[j].0@)) by {
                        assert(before[j].1 == capped(occurrences(now, before[j].0@)));
                        if j != k && before[j].0@ == x {
                            assert(distinct(now)[j] == distinct(now)[k as int]);
                        }
                    }
                }
            },
            None => {
                let n: usize = out.len();
                at.insert(terms[i].clone(), n);
                out.push((terms[i].clone(), 1));
                proof {
                    assert(counted(out@) =~= counted(before).push(x));
                    assert(!now.contains(x));
                    assert forall|j: int| 0 <= j < out@.len() implies (#[trigger] out@[j]).1
                        == capped(occurrences(after, out@[j].0@)) by {
                        if j < before.len() {
                            assert(before[j].1 == capped(occurrences(now, before[j].0@)));
                            assert(counted(before)[j] != x) by {
                                if counted(before)[j] == x {
                                    assert(counted(before).contains(x));
                                }
                            }
                        }
                    }
                    assert forall|w: Seq<char>| #[trigger]
                        at@.contains_key(w) <==> counted(out@).contains(w) by {
                        let c = counted(out@);
                        let b = counted(before);
                        if c.contains(w) {
                            let j = choose|j: int| 0 <= j < c.len() && c[j] == w;
                            if j < b.len() {
                                assert(b[j] == w);
                            }
                        }
                        if b.contains(w) {
                            let j = choose|j: int| 0 <= j < b.len() && b[j] == w;
                            assert(c[j] == w);
                        }
                        if w == x {
                            assert(c[b.len() as int] == w);
                        }
                    }
                }
            },
        }
        i += 1;
    }
    assert(all.take(i as int) =~= all);
    out
}

/// The terms of a text with their numbers of occurrences, and how many terms
/// the text has in all: repetitions counted, function words not.
pub fn normalize_counts(text: &str) -> (r: (Vec<(String, u32)>, usize))
    ensures
        counts_terms(r.0@, all_terms(text@)),
        r.1 == all_terms(text@).len(),
{
    let lowered = to_lowercase(text);
    let words = split_tokens(lowered.as_str());
    let terms = word_terms(&words);
    let total: usize = terms.len();
    (count_terms(terms), total)
}

// ---------------------------------------------------------------------------
// The terms of a memory
// ---------------------------------------------------------------------------

/// A memory reduced to the terms that keyword search compares, field by field.
#[derive(Debug, Clone, PartialEq)]
pub struct KeywordStems {
    /// Distinct terms of the summary.
    pub summary: Vec<String>,
    /// Distinct terms of all tags.
    pub tags: Vec<String>,
    /// Terms of the content with their numbers of occurrences.
    pub content: Vec<(String, u32)>,
    /// Number of terms of the content, repetitions counted.
    pub content_len: usize,
}

impl Default for KeywordStems {
    fn default() -> (r: Self)
        ensures
            r.summary@.len() == 0,
            r.tags@.len() == 0,
            r.content@.len() == 0,
            r.content_len == 0,
    {
        KeywordStems {
            summary: Vec::new(),
            tags: Vec::new(),
            content: Vec::new(),
            content_len: 0,
        }
    }
}

/// The distinct terms of each tag, one tag after another.
pub open spec fn tag_terms(tags: Seq<Seq<char>>) -> Seq<Seq<char>>
    decreases tags.len(),
{
    if tags.len() == 0 {
        Seq::empty()
    } else {
        tag_terms(tags.drop_last()) + distinct(all_terms(tags.last()))
    }
}

/// The number of occurrences that a list of counts gives for a term.
pub open spec fn count_in(v: Seq<(String, u32)>, term: Seq<char>) -> u32
    decreases v.len(),
{
    if v.len() == 0 {
        0
    } else if v[0].0@ == term {
        v[0].1
    } else {
        count_in(v.drop_first(), term)
    }
}

impl KeywordStems {
    /// The terms of a memory's three fields.
    pub fn compute(summary: &str, tags: &[String], content: &str) -> (r: KeywordStems)
        ensures
            crate::text::texts(r.summary@) == distinct(all_terms(summary@)),
            crate::text::texts(r.tags@) == distinct(tag_terms(crate::text::texts(tags@))),
            counts_terms(r.content@, all_terms(content@)),
            r.content_len == all_terms(content@).len(),
    {
        let ghost all = crate::text::texts(tags@);
        let mut collected: Vec<String> = Vec::new();
        let mut i: usize = 0;
        assert(all.take(0) =~= Seq::empty());
        while i < tags.len()
            invariant
                i <= tags.len(),
                all == crate::text::texts(tags@),
                crate::text::texts(collected@) == tag_terms(all.take(i as int)),
            decreases tags.len() - i,
        {
            let ghost after = all.take(i + 1);
            let ghost before = collected@;
            assert(after.drop_last() =~= all.take(i as int));
            assert(after.last() == tags@[i as int]@);
            let mut more = normalize(tags[i].as_str());
            let ghost added = more@;
            collected.append(&mut more);
            assert(crate::text::texts(collected@) =~= crate::text::texts(before)
                + crate::text::texts(added));
            i += 1;
        }
        assert(all.take(i as int) =~= all);
        let (counts, total) = normalize_counts(content);
        KeywordStems {
            summary: normalize(summary),
            tags: dedup(collected),
            content: counts,
            content_len: total,
        }
    }

    /// Whether the term appears in the summary.
    pub fn in_summary(&self, term: &str) -> (r: bool)
        ensures
            r == crate::text::texts(self.summary@).contains(term@),
    {
        contains_text(&self.summary, term)
    }

    /// Whether the term appears in the tags.
    pub fn in_tags(&self, term: &str) -> (r: bool)
        ensures
            r == crate::text::texts(self.tags@).contains(term@),
    {
        contains_text(&self.tags, term)
    }

    fn find_content(&self, term: &str) -> (r: Option<u32>)
        ensures
            r is Some <==> counted(self.content@).contains(term@),
            r matches Some(n) ==> n == count_in(self.content@, term@),
            r is None ==> count_in(self.content@, term@) == 0,
    {
        let ghost all = self.content@;
        let mut i: usize = 0;
        assert(all.skip(0) =~= all);
        while i < self.content.len()
            invariant
                i <= self.content.len(),
                all == self.content@,
                count_in(all, term@) == count_in(all.skip(i as int), term@),
                forall|j: int| 0 <= j < i ==> (#[trigger] all[j]).0@ != term@,
            decreases self.content.len() - i,
        {
            assert(all.skip(i as int)[0] == all[i as int]);
            assert(all.skip(i as int).drop_first() =~= all.skip(i + 1));
            if same_text(self.content[i].0.as_str(), term) {
                assert(counted(all)[i as int] == term@);
                return Some(self.content[i].1);
            }
            i += 1;
        }
        None
    }

    /// Whether the term appears in any field.
    pub fn contains(&self, term: &str) -> (r: bool)
        ensures
            r == (crate::text::texts(self.summary@).contains(term@) || crate::text::texts(
                self.tags@,
            ).contains(term@) || counted(self.content@).contains(term@)),
    {
        self.in_summary(term) || self.in_tags(term) || self.find_content(term).is_some()
    }

    /// Occurrences of the term in the content; zero where it is absent.
    pub fn content_freq(&self, term: &str) -> (r: u32)
        ensures
            r == count_in(self.content@, term@),
    {
        match self.find_content(term) {
            Some(n) => n,
            None => 0,
        }
    }
}

/// The count that is read for a term is the number of its occurrences in the
/// content.
pub proof fn content_frequency_is_the_number_of_occurrences(
    v: Seq<(String, u32)>,
    terms: Seq<Seq<char>>,
    term: Seq<char>,
)
    requires
        counts_terms(v, terms),
    ensures
        count_in(v, term) == capped(occurrences(terms, term)),
{
    lemma_distinct(terms);
    lemma_occurrences(terms, term);
    if counted(v).contains(term) {
        let i = choose|i: int| 0 <= i < counted(v).len() && counted(v)[i] == term;
        lemma_count_in_at(v, i, term);
    } else {
        assert(!distinct(terms).contains(term));
        lemma_count_in_absent(v, term);
    }
}

proof fn lemma_count_in_at(v: Seq<(String, u32)>, i: int, term: Seq<char>)
    requires
        0 <= i < v.len(),
        v[i].0@ == term,
        counted(v).no_duplicates(),
    ensures
        count_in(v, term) == v[i].1,
    decreases v.len(),
{
    if i > 0 {
        assert(counted(v)[0] != counted(v)[i]);
        let rest = v.drop_first();
        assert forall|j: int, k: int|
            0 <= j < k < counted(rest).len() implies counted(rest)[j] != counted(rest)[k] by {
            assert(counted(v)[j + 1] != counted(v)[k + 1]);
        }
        lemma_count_in_at(rest, i - 1, term);
    }
}

proof fn lemma_count_in_absent(v: Seq<(String, u32)>, term: Seq<char>)
    requires
        !counted(v).contains(term),
    ensures
        count_in(v, term) == 0,
    decreases v.len(),
{
    if v.len() > 0 {
        assert(counted(v)[0] == v[0].0@);
        let rest = v.drop_first();
        assert(!counted(rest).contains(term)) by {
            if counted(rest).contains(term) {
                let j = choose|j: int| 0 <= j < counted(rest).len() && counted(rest)[j] == term;
                assert(counted(v)[j + 1] == term);
            }
        }
        lemma_count_in_absent(rest, term);
    }
}

/// The terms of a text are each given once, and repeating a text adds no term.
pub proof fn normalizing_gives_each_term_once(text: Seq<char>)
    ensures
        distinct(all_terms(text)).no_duplicates(),
        forall|w: Seq<char>| #[trigger]
            distinct(all_terms(text)).contains(w) <==> all_terms(text).contains(w),
        distinct(all_terms(text) + all_terms(text)) == distinct(all_terms(text)),
{
    lemma_distinct(all_terms(text));
    lemma_distinct_absorbs(all_terms(text), all_terms(text));
}

proof fn lemma_distinct_absorbs(s: Seq<Seq<char>>, t: Seq<Seq<char>>)
    requires
        forall|i: int| 0 <= i < t.len() ==> s.contains(#[trigger] t[i]),
    ensures
        distinct(s + t) == distinct(s),
    decreases t.len(),
{
    if t.len() == 0 {
        assert(s + t =~= s);
    } else {
        lemma_distinct_absorbs(s, t.drop_last());
        lemma_distinct(s);
        assert((s + t).drop_last() =~= s + t.drop_last());
        assert(s.contains(t[t.len() - 1]));
    }
}

/// A text of function words alone has no terms.
pub proof fn function_words_leave_nothing(words: Seq<Seq<char>>)
    requires
        forall|i: int| 0 <= i < words.len() ==> is_stop_word(#[trigger] words[i]),
    ensures
        terms_of(words).len() == 0,
    decreases words.len(),
{
    if words.len() > 0 {
        assert(is_stop_word(words[words.len() - 1]));
        function_words_leave_nothing(words.drop_last());
    }
}

// ---------------------------------------------------------------------------
// Several texts
// ---------------------------------------------------------------------------

/// The terms of `more` that are not among those of `first`.
pub open spec fn new_terms(first: Seq<Seq<char>>, more: Seq<Seq<char>>) -> Seq<Seq<char>> {
    more.filter(|w: Seq<char>| !first.contains(w))
}

proof fn lemma_terms_of_add(a: Seq<Seq<char>>, b: Seq<Seq<char>>)
    ensures
        terms_of(a + b) == terms_of(a) + terms_of(b),
    decreases b.len(),
{
    if b.len() == 0 {
        assert(a + b =~= a);
        assert(terms_of(a) + terms_of(b) =~= terms_of(a));
    } else {
        lemma_terms_of_add(a, b.drop_last());
        assert((a + b).drop_last() =~= a + b.drop_last());
        assert(terms_of(a + b) =~= terms_of(a) + terms_of(b));
    }
}

proof fn lemma_distinct_add(s: Seq<Seq<char>>, t: Seq<Seq<char>>)
    ensures
        distinct(s + t) == distinct(s) + new_terms(distinct(s), distinct(t)),
    decreases t.len(),
{
    let d = distinct(s);
    let fresh = |w: Seq<char>| !d.contains(w);
    reveal(Seq::filter);
    if t.len() == 0 {
        assert(s + t =~= s);
        assert(distinct(s) + new_terms(distinct(s), distinct(t)) =~= distinct(s));
    } else {
        let before = t.drop_last();
        let e = distinct(before);
        let x = t.last();
        lemma_distinct_add(s, before);
        assert((s + t).drop_last() =~= s + before);
        assert((s + t).last() == x);
        assert(e.push(x).drop_last() =~= e);
        let all = d + e.filter(fresh);
        assert(all.contains(x) <==> d.contains(x) || e.contains(x)) by {
            crate::seqs::lemma_filter_contains(e, fresh, x);
            if d.contains(x) {
                let i = choose|i: int| 0 <= i < d.len() && d[i] == x;
                assert(all[i] == x);
            } else if e.contains(x) {
                let f = e.filter(fresh);
                let i = choose|i: int| 0 <= i < f.len() && f[i] == x;
                assert(all[d.len() + i] == x);
            }
            if all.contains(x) && !d.contains(x) {
                let i = choose|i: int| 0 <= i < all.len() && all[i] == x;
                assert(e.filter(fresh)[i - d.len()] == x);
            }
        }
        assert(distinct(s + t) =~= d + new_terms(d, distinct(t)));
    }
}

proof fn lemma_distinct_of_distinct(s: Seq<Seq<char>>)
    requires
        s.no_duplicates(),
    ensures
        distinct(s) == s,
    decreases s.len(),
{
    if s.len() > 0 {
        let before = s.drop_last();
        lemma_distinct_of_distinct(before);
        if before.contains(s.last()) {
            let i = choose|i: int| 0 <= i < before.len() && before[i] == s.last();
            assert(s[i] == s[s.len() - 1]);
        }
        assert(distinct(s) =~= s);
    } else {
        assert(distinct(s) =~= s);
    }
}

/// The words of two lowercase texts with a space between them are those of the
/// first and then those of the second. So are the terms; and of the distinct
/// terms of the second, those that are new are added to those of the first.
pub proof fn lowercase_texts_normalize_one_after_another(x: Seq<char>, y: Seq<char>)
    ensures
        tokens(x + " "@ + y) == tokens(x) + tokens(y),
        terms_of(tokens(x + " "@ + y)) == terms_of(tokens(x)) + terms_of(tokens(y)),
        distinct(terms_of(tokens(x + " "@ + y))) == distinct(terms_of(tokens(x))) + new_terms(
            distinct(terms_of(tokens(x))),
            distinct(terms_of(tokens(y))),
        ),
{
    let keep = |c: char| crate::text::is_letter_or_digit(c);
    reveal_strlit(" ");
    assert(x + " "@ + y =~= x.push(' ') + y);
    crate::text::lemma_runs_apart(x, ' ', y, keep);
    lemma_terms_of_add(tokens(x), tokens(y));
    lemma_distinct_add(terms_of(tokens(x)), terms_of(tokens(y)));
}

proof fn lemma_lowercase_apart(a: Seq<char>, b: Seq<char>)
    requires
        crate::text::is_ascii_text(a),
        crate::text::is_ascii_text(b),
    ensures
        crate::text::is_ascii_text(a + " "@ + b),
        crate::text::lowercase(a + " "@ + b) == crate::text::lowercase(a) + " "@
            + crate::text::lowercase(b),
{
    reveal_strlit(" ");
    let s = a + " "@ + b;
    assert forall|i: int| 0 <= i < s.len() implies crate::text::is_ascii_char(#[trigger] s[i]) by {
        if i < a.len() {
            assert(s[i] == a[i]);
        } else if i > a.len() {
            assert(s[i] == b[i - a.len() - 1]);
        } else {
            assert(s[i] == ' ');
        }
    }
    assert(crate::text::lowercase(s) =~= crate::text::lowercase(a) + " "@
        + crate::text::lowercase(b));
}

/// Normalizing two texts with a space between them gives the terms of the first
/// and then those of the second that are new; given that the space keeps their
/// letters apart when they are put into lowercase, as it does for ASCII texts.
pub proof fn texts_normalize_one_after_another(a: Seq<char>, b: Seq<char>)
    ensures
        crate::text::is_ascii_text(a) && crate::text::is_ascii_text(b) ==> crate::text::lowercase(
            a + " "@ + b,
        ) == crate::text::lowercase(a) + " "@ + crate::text::lowercase(b),
        crate::text::lowercase(a + " "@ + b) == crate::text::lowercase(a) + " "@
            + crate::text::lowercase(b) ==> distinct(all_terms(a + " "@ + b)) == distinct(
            all_terms(a),
        ) + new_terms(distinct(all_terms(a)), distinct(all_terms(b))),
{
    if crate::text::is_ascii_text(a) && crate::text::is_ascii_text(b) {
        lemma_lowercase_apart(a, b);
    }
    lowercase_texts_normalize_one_after_another(
        crate::text::lowercase(a),
        crate::text::lowercase(b),
    );
}

/// The lowercase forms of texts.
pub open spec fn lowercases(tags: Seq<Seq<char>>) -> Seq<Seq<char>> {
    tags.map_values(|t: Seq<char>| crate::text::lowercase(t))
}

proof fn lemma_lowercase_joined(tags: Seq<Seq<char>>)
    requires
        forall|i: int| 0 <= i < tags.len() ==> crate::text::is_ascii_text(#[trigger] tags[i]),
    ensures
        crate::text::is_ascii_text(crate::text::join(tags, " "@)),
        crate::text::lowercase(crate::text::join(tags, " "@)) == crate::text::join(
            lowercases(tags),
            " "@,
        ),
    decreases tags.len(),
{
    let lows = lowercases(tags);
    if tags.len() == 0 {
        assert(crate::text::lowercase(crate::text::join(tags, " "@)) =~= crate::text::join(
            lows,
            " "@,
        ));
    } else if tags.len() == 1 {
        assert(crate::text::is_ascii_text(tags[0]));
        assert(lows[0] == crate::text::lowercase(tags[0]));
    } else {
        let before = tags.drop_last();
        assert forall|i: int| 0 <= i < before.len() implies crate::text::is_ascii_text(
            #[trigger] before[i],
        ) by {
            assert(before[i] == tags[i]);
        }
        lemma_lowercase_joined(before);
        assert(crate::text::is_ascii_text(tags[tags.len() - 1]));
        lemma_lowercase_apart(crate::text::join(before, " "@), tags.last());
        assert(lows.drop_last() =~= lowercases(before));
        assert(lows.last() == crate::text::lowercase(tags.last()));
    }
}

/// The terms of a memory's tags are those of the tags joined with spaces, in the
/// order of their first occurrence. This is stated of the lowercase tags, and of
/// the tags themselves where they are ASCII.
pub proof fn tag_terms_are_those_of_the_joined_tags(tags: Seq<Seq<char>>)
    ensures
        distinct(tag_terms(tags)) == distinct(
            terms_of(tokens(crate::text::join(lowercases(tags), " "@))),
        ),
        (forall|i: int| 0 <= i < tags.len() ==> crate::text::is_ascii_text(#[trigger] tags[i]))
            ==> distinct(tag_terms(tags)) == distinct(
            all_terms(crate::text::join(tags, " "@)),
        ),
    decreases tags.len(),
{
    let lows = lowercases(tags);
    let joined = terms_of(tokens(crate::text::join(lows, " "@)));
    if tags.len() == 0 {
        assert(joined =~= Seq::empty());
    } else {
        let before = tags.drop_last();
        let last = all_terms(tags.last());
        tag_terms_are_those_of_the_joined_tags(before);
        assert(lows.drop_last() =~= lowercases(before));
        assert(lows.last() == crate::text::lowercase(tags.last()));
        let head = terms_of(tokens(crate::text::join(lowercases(before), " "@)));
        if tags.len() == 1 {
            assert(lows[0] == lows.last());
            assert(head =~= Seq::empty());
            assert(joined =~= head + last);
        } else {
            lowercase_texts_normalize_one_after_another(
                crate::text::join(lowercases(before), " "@),
                lows.last(),
            );
            assert(joined == head + last);
        }
        lemma_distinct(last);
        lemma_distinct_of_distinct(distinct(last));
        lemma_distinct_add(tag_terms(before), distinct(last));
        lemma_distinct_add(head, last);
    }
    if forall|i: int| 0 <= i < tags.len() ==> crate::text::is_ascii_text(#[trigger] tags[i]) {
        lemma_lowercase_joined(tags);
    }
}

} // verus!
