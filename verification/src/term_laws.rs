//! What holds of the terms that texts are searched by.
use vstd::prelude::*;

use crate::normalize::{
    all_terms, count_in, counted, counts_terms, distinct, english_stem, is_stop_word,
    lemma_distinct, occurrences, stop_words, tag_terms, terms_of, tokens,
};
use crate::text::{ascii_lowercase, is_ascii_text};

verus! {

broadcast use vstd::string::group_string_axioms;

/// That a word is one of the English function words, which say nothing of what a
/// text is about.
pub open spec fn is_function_word(word: Seq<char>) -> bool {
    word == "a"@ || word == "about"@ || word == "an"@ || word == "and"@
    || word == "are"@ || word == "as"@ || word == "at"@ || word == "be"@
    || word == "been"@ || word == "but"@ || word == "by"@ || word == "can"@
    || word == "did"@ || word == "do"@ || word == "does"@ || word == "for"@
    || word == "from"@ || word == "had"@ || word == "has"@ || word == "have"@
    || word == "he"@ || word == "her"@ || word == "his"@ || word == "how"@
    || word == "i"@ || word == "if"@ || word == "in"@ || word == "into"@
    || word == "is"@ || word == "it"@ || word == "its"@ || word == "me"@
    || word == "my"@ || word == "no"@ || word == "not"@ || word == "of"@
    || word == "on"@ || word == "or"@ || word == "our"@ || word == "out"@
    || word == "over"@ || word == "she"@ || word == "should"@ || word == "so"@
    || word == "some"@ || word == "such"@ || word == "than"@ || word == "that"@
    || word == "the"@ || word == "their"@ || word == "them"@ || word == "then"@
    || word == "there"@ || word == "these"@ || word == "they"@ || word == "this"@
    || word == "those"@ || word == "to"@ || word == "too"@ || word == "up"@
    || word == "us"@ || word == "was"@ || word == "we"@ || word == "were"@
    || word == "what"@ || word == "when"@ || word == "where"@ || word == "which"@
    || word == "while"@ || word == "who"@ || word == "why"@ || word == "will"@
    || word == "with"@ || word == "would"@ || word == "you"@ || word == "your"@
}

/// Exactly the function words are left out of the terms.
pub proof fn exactly_the_function_words_are_left_out(word: Seq<char>)
    ensures
        is_stop_word(word) <==> is_function_word(word),
{
    assert(stop_words()[0] == "a"@);
    assert(stop_words()[1] == "about"@);
    assert(stop_words()[2] == "an"@);
    assert(stop_words()[3] == "and"@);
    assert(stop_words()[4] == "are"@);
    assert(stop_words()[5] == "as"@);
    assert(stop_words()[6] == "at"@);
    assert(stop_words()[7] == "be"@);
    assert(stop_words()[8] == "been"@);
    assert(stop_words()[9] == "but"@);
    assert(stop_words()[10] == "by"@);
    assert(stop_words()[11] == "can"@);
    assert(stop_words()[12] == "did"@);
    assert(stop_words()[13] == "do"@);
    assert(stop_words()[14] == "does"@);
    assert(stop_words()[15] == "for"@);
    assert(stop_words()[16] == "from"@);
    assert(stop_words()[17] == "had"@);
    assert(stop_words()[18] == "has"@);
    assert(stop_words()[19] == "have"@);
    assert(stop_words()[20] == "he"@);
    assert(stop_words()[21] == "her"@);
    assert(stop_words()[22] == "his"@);
    assert(stop_words()[23] == "how"@);
    assert(stop_words()[24] == "i"@);
    assert(stop_words()[25] == "if"@);
    assert(stop_words()[26] == "in"@);
    assert(stop_words()[27] == "into"@);
    assert(stop_words()[28] == "is"@);
    assert(stop_words()[29] == "it"@);
    assert(stop_words()[30] == "its"@);
    assert(stop_words()[31] == "me"@);
    assert(stop_words()[32] == "my"@);
    assert(stop_words()[33] == "no"@);
    assert(stop_words()[34] == "not"@);
    assert(stop_words()[35] == "of"@);
    assert(stop_words()[36] == "on"@);
    assert(stop_words()[37] == "or"@);
    assert(stop_words()[38] == "our"@);
    assert(stop_words()[39] == "out"@);
    assert(stop_words()[40] == "over"@);
    assert(stop_words()[41] == "she"@);
    assert(stop_words()[42] == "should"@);
    assert(stop_words()[43] == "so"@);
    assert(stop_words()[44] == "some"@);
    assert(stop_words()[45] == "such"@);
    assert(stop_words()[46] == "than"@);
    assert(stop_words()[47] == "that"@);
    assert(stop_words()[48] == "the"@);
    assert(stop_words()[49] == "their"@);
    assert(stop_words()[50] == "them"@);
    assert(stop_words()[51] == "then"@);
    assert(stop_words()[52] == "there"@);
    assert(stop_words()[53] == "these"@);
    assert(stop_words()[54] == "they"@);
    assert(stop_words()[55] == "this"@);
    assert(stop_words()[56] == "those"@);
    assert(stop_words()[57] == "to"@);
    assert(stop_words()[58] == "too"@);
    assert(stop_words()[59] == "up"@);
    assert(stop_words()[60] == "us"@);
    assert(stop_words()[61] == "was"@);
    assert(stop_words()[62] == "we"@);
    assert(stop_words()[63] == "were"@);
    assert(stop_words()[64] == "what"@);
    assert(stop_words()[65] == "when"@);
    assert(stop_words()[66] == "where"@);
    assert(stop_words()[67] == "which"@);
    assert(stop_words()[68] == "while"@);
    assert(stop_words()[69] == "who"@);
    assert(stop_words()[70] == "why"@);
    assert(stop_words()[71] == "will"@);
    assert(stop_words()[72] == "with"@);
    assert(stop_words()[73] == "would"@);
    assert(stop_words()[74] == "you"@);
    assert(stop_words()[75] == "your"@);
    if is_stop_word(word) {
        let k = choose|k: int| 0 <= k < stop_words().len() && stop_words()[k] == word;
        assert(stop_words()[k] == word);
    }
}

/// Words become terms one by one and in their order: a function word none, any
/// other word its stem, and a word too long for the stemmer itself.
pub proof fn words_become_terms_one_by_one(words: Seq<Seq<char>>, word: Seq<char>)
    ensures
        terms_of(Seq::empty()).len() == 0,
        is_function_word(word) ==> terms_of(words.push(word)) == terms_of(words),
        !is_function_word(word) && vstd::utf8::encode_utf8(word).len() < 0x8000_0000 ==> terms_of(
            words.push(word),
        ) == terms_of(words).push(english_stem(word)),
        !is_function_word(word) && vstd::utf8::encode_utf8(word).len() >= 0x8000_0000 ==> terms_of(
            words.push(word),
        ) == terms_of(words).push(word),
{
    exactly_the_function_words_are_left_out(word);
    assert(words.push(word).drop_last() =~= words);
}

/// Whether a character is an ASCII letter or digit.
pub open spec fn is_plain(c: char) -> bool {
    'a' <= c <= 'z' || 'A' <= c <= 'Z' || '0' <= c <= '9'
}

/// Any ASCII character but a letter or a digit parts two words, and nothing of
/// either side is lost.
pub proof fn a_text_is_read_word_by_word(x: Seq<char>, c: char, y: Seq<char>)
    requires
        c as u32 <= 0x7f,
        !is_plain(c),
    ensures
        tokens(Seq::empty()).len() == 0,
        tokens(x + seq![c] + y) == tokens(x) + tokens(y),
{
    let keep = |d: char| crate::text::is_letter_or_digit(d);
    crate::text_laws::a_text_is_split_at_unwanted_characters(x, x, c, y, keep);
    assert(!keep(c));
}

/// A single word gives the stem of its lowercase form, or nothing where that is a
/// function word.
pub proof fn a_word_is_reduced_to_its_stem(word: Seq<char>)
    requires
        word.len() > 0,
        forall|i: int| 0 <= i < word.len() ==> is_plain(#[trigger] word[i]),
        vstd::utf8::encode_utf8(ascii_lowercase(word)).len() < 0x8000_0000,
    ensures
        tokens(word) == seq![word],
        !is_function_word(ascii_lowercase(word)) ==> all_terms(word) == seq![
            english_stem(ascii_lowercase(word)),
        ],
        is_function_word(ascii_lowercase(word)) ==> all_terms(word).len() == 0,
{
    let low = ascii_lowercase(word);
    let keep = |d: char| crate::text::is_letter_or_digit(d);
    assert forall|i: int| 0 <= i < word.len() implies keep(#[trigger] word[i]) by {
        assert(is_plain(word[i]));
    }
    assert forall|i: int| 0 <= i < low.len() implies keep(#[trigger] low[i]) by {
        assert(is_plain(word[i]));
    }
    assert(is_ascii_text(word)) by {
        assert forall|i: int| 0 <= i < word.len() implies crate::text::is_ascii_char(
            #[trigger] word[i],
        ) by {
            assert(is_plain(word[i]));
        }
    }
    crate::text_laws::a_text_is_split_at_unwanted_characters(word, word, ' ', word, keep);
    crate::text_laws::a_text_is_split_at_unwanted_characters(low, low, ' ', low, keep);
    assert(tokens(low) == seq![low]);
    words_become_terms_one_by_one(Seq::empty(), low);
    assert(Seq::empty().push(low) =~= seq![low]);
    assert(terms_of(Seq::empty()) =~= Seq::empty());
}

/// Capitals make no difference to the terms of an ASCII text.
pub proof fn capitals_make_no_difference(text: Seq<char>)
    requires
        is_ascii_text(text),
    ensures
        all_terms(ascii_lowercase(text)) == all_terms(text),
{
    let low = ascii_lowercase(text);
    assert forall|i: int| 0 <= i < low.len() implies crate::text::is_ascii_char(
        #[trigger] low[i],
    ) by {
        assert(crate::text::is_ascii_char(text[i]));
    }
    assert(is_ascii_text(low));
    assert(ascii_lowercase(low) =~= low);
}

/// Of several equal terms the first is kept, in its place, and no other term is
/// lost.
pub proof fn a_term_is_kept_where_it_first_stands(terms: Seq<Seq<char>>, term: Seq<char>)
    ensures
        distinct(Seq::empty()).len() == 0,
        terms.contains(term) ==> distinct(terms.push(term)) == distinct(terms),
        !terms.contains(term) ==> distinct(terms.push(term)) == distinct(terms).push(term),
{
    lemma_distinct(terms);
    assert(terms.push(term).drop_last() =~= terms);
}

/// A term occurs as often as it stands among the terms.
pub proof fn a_term_is_counted_wherever_it_stands(terms: Seq<Seq<char>>, term: Seq<char>)
    ensures
        occurrences(terms, term) == terms.to_multiset().count(term),
    decreases terms.len(),
{
    terms.to_multiset_ensures();
    if terms.len() > 0 {
        let before = terms.drop_last();
        a_term_is_counted_wherever_it_stands(before, term);
        before.to_multiset_ensures();
        assert(before.push(terms.last()) =~= terms);
        assert(terms.to_multiset() == before.to_multiset().insert(terms.last()));
    } else {
        assert(terms.to_multiset().count(term) == 0) by {
            if terms.to_multiset().count(term) > 0 {
                assert(terms.contains(term));
            }
        }
    }
}

/// The terms of a content are counted in full: each is listed once, where it
/// first stands, with the number of times it occurs, and no other is listed.
pub proof fn every_term_of_a_content_is_counted(
    v: Seq<(String, u32)>,
    terms: Seq<Seq<char>>,
    term: Seq<char>,
)
    requires
        counts_terms(v, terms),
        terms.len() < 0x1_0000_0000,
    ensures
        counted(v) == distinct(terms),
        counted(v).contains(term) <==> terms.contains(term),
        count_in(v, term) == terms.to_multiset().count(term),
        forall|i: int|
            0 <= i < v.len() ==> (#[trigger] v[i]).1 == terms.to_multiset().count(v[i].0@),
{
    lemma_distinct(terms);
    lemma_occurs_at_most(terms, term);
    a_term_is_counted_wherever_it_stands(terms, term);
    crate::normalize::content_frequency_is_the_number_of_occurrences(v, terms, term);
    assert forall|i: int| 0 <= i < v.len() implies (#[trigger] v[i]).1
        == terms.to_multiset().count(v[i].0@) by {
        lemma_occurs_at_most(terms, v[i].0@);
        a_term_is_counted_wherever_it_stands(terms, v[i].0@);
    }
}

proof fn lemma_occurs_at_most(terms: Seq<Seq<char>>, term: Seq<char>)
    ensures
        occurrences(terms, term) <= terms.len(),
    decreases terms.len(),
{
    if terms.len() > 0 {
        lemma_occurs_at_most(terms.drop_last(), term);
    }
}

/// Every tag adds its own terms, each once, behind those of the tags before it.
pub proof fn every_tag_adds_its_terms(tags: Seq<Seq<char>>, tag: Seq<char>)
    ensures
        tag_terms(Seq::empty()).len() == 0,
        tag_terms(tags.push(tag)) == tag_terms(tags) + distinct(all_terms(tag)),
{
    assert(tags.push(tag).drop_last() =~= tags);
}

} // verus!
