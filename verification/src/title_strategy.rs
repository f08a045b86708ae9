//! How titles are made.

use crate::text::{concat3, same_text, to_lowercase};
use vstd::prelude::*;

verus! {

broadcast use vstd::string::group_string_axioms;

/// How the title of a memory is made.
#[derive(Debug, Clone, Copy, PartialEq, Eq, Structural)]
pub enum TitleStrategy {
    /// Keyword extraction; needs no model.
    Keyword,
    /// A small summarization model.
    T5,
    /// No titles are made.
    Off,
}

impl Default for TitleStrategy {
    fn default() -> (r: Self)
        ensures
            r == TitleStrategy::Keyword,
    {
        TitleStrategy::Keyword
    }
}

impl TitleStrategy {
    /// Whether a lowercase text is one of the spellings of this value.
    pub open spec fn spelled(self, low: Seq<char>) -> bool {
        match self {
            TitleStrategy::Keyword => low == "keyword"@ || low == "keywords"@ || low == "rake"@,
            TitleStrategy::T5 => low == "t5"@ || low == "t5-small"@ || low == "model"@,
            TitleStrategy::Off => low == "none"@ || low == "off"@ || low == "disabled"@,
        }
    }

    /// What reading `s` gives, with `low` for the text in lowercase: the value
    /// that it spells, or a message with the text as it was given.
    pub open spec fn reads(s: Seq<char>, low: Seq<char>, r: Result<TitleStrategy, String>) -> bool {
        match r {
            Ok(v) => v.spelled(low),
            Err(m) => (forall|v: TitleStrategy| !(#[trigger] v.spelled(low))) && m@
                == "Invalid title strategy '"@ + s + "'. Valid options: keyword, t5, none"@,
        }
    }

    /// Reads a value, in any case and under any of its spellings.
    pub fn parse(s: &str) -> (r: Result<TitleStrategy, String>)
        ensures
            TitleStrategy::reads(s@, crate::text::unicode_lowercase(s@), r),
            crate::text::is_ascii_text(s@) ==> TitleStrategy::reads(
                s@,
                crate::text::ascii_lowercase(s@),
                r,
            ),
    {
        let lowered = to_lowercase(s);
        let low = lowered.as_str();
        if same_text(low, "keyword") || same_text(low, "keywords") || same_text(low, "rake") {
            Ok(TitleStrategy::Keyword)
        } else if same_text(low, "t5") || same_text(low, "t5-small") || same_text(low, "model") {
            Ok(TitleStrategy::T5)
        } else if same_text(low, "none") || same_text(low, "off") || same_text(low, "disabled") {
            Ok(TitleStrategy::Off)
        } else {
            Err(concat3("Invalid title strategy '", s, "'. Valid options: keyword, t5, none"))
        }
    }
}

/// No text spells two values.
pub proof fn title_spellings_are_unambiguous(a: TitleStrategy, b: TitleStrategy, low: Seq<char>)
    requires
        a.spelled(low),
        b.spelled(low),
    ensures
        a == b,
{
    reveal_strlit("keyword");
    assert("keyword"@.len() == 7);
    reveal_strlit("keywords");
    assert("keywords"@.len() == 8);
    reveal_strlit("rake");
    assert("rake"@.len() == 4);
    reveal_strlit("t5");
    assert("t5"@.len() == 2);
    reveal_strlit("t5-small");
    assert("t5-small"@.len() == 8);
    reveal_strlit("model");
    assert("model"@.len() == 5);
    reveal_strlit("none");
    assert("none"@.len() == 4);
    reveal_strlit("off");
    assert("off"@.len() == 3);
    reveal_strlit("disabled");
    assert("disabled"@.len() == 8);
    assert("keywords"@[0] != "t5-small"@[0]);
    assert("keywords"@[0] != "disabled"@[0]);
    assert("rake"@[0] != "none"@[0]);
    assert("t5-small"@[0] != "disabled"@[0]);
}

} // verus!
