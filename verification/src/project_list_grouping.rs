//! How a list of projects is grouped by directory.

use crate::text::{concat3, same_text, to_lowercase};
use vstd::prelude::*;

verus! {

broadcast use vstd::string::group_string_axioms;

/// How a list of projects is grouped under directory headers. Worktrees are
/// nested under their parent in every mode.
#[derive(Debug, Clone, Copy, PartialEq, Eq, Structural)]
pub enum ProjectListGrouping {
    /// A header above every project.
    Always,
    /// A header only for directories that hold two or more projects.
    Auto,
    /// No headers: a flat list of full paths.
    Off,
}

impl Default for ProjectListGrouping {
    fn default() -> (r: Self)
        ensures
            r == ProjectListGrouping::Auto,
    {
        ProjectListGrouping::Auto
    }
}

impl ProjectListGrouping {
    /// Whether a lowercase text is one of the spellings of this value.
    pub open spec fn spelled(self, low: Seq<char>) -> bool {
        match self {
            ProjectListGrouping::Always => low == "always"@ || low == "all"@ || low == "full"@,
            ProjectListGrouping::Auto => low == "auto"@ || low == "smart"@,
            ProjectListGrouping::Off => low == "none"@ || low == "off"@ || low == "flat"@,
        }
    }

    /// What reading `s` gives, with `low` for the text in lowercase: the value
    /// that it spells, or a message with the text as it was given.
    pub open spec fn reads(
        s: Seq<char>,
        low: Seq<char>,
        r: Result<ProjectListGrouping, String>,
    ) -> bool {
        match r {
            Ok(v) => v.spelled(low),
            Err(m) => (forall|v: ProjectListGrouping| !(#[trigger] v.spelled(low))) && m@
                == "Invalid project list grouping '"@ + s + "'. Valid options: always, auto, none"@,
        }
    }

    /// Reads a value, in any case and under any of its spellings.
    pub fn parse(s: &str) -> (r: Result<ProjectListGrouping, String>)
        ensures
            ProjectListGrouping::reads(s@, crate::text::unicode_lowercase(s@), r),
            crate::text::is_ascii_text(s@) ==> ProjectListGrouping::reads(
                s@,
                crate::text::ascii_lowercase(s@),
                r,
            ),
    {
        let lowered = to_lowercase(s);
        let low = lowered.as_str();
        if same_text(low, "always") || same_text(low, "all") || same_text(low, "full") {
            Ok(ProjectListGrouping::Always)
        } else if same_text(low, "auto") || same_text(low, "smart") {
            Ok(ProjectListGrouping::Auto)
        } else if same_text(low, "none") || same_text(low, "off") || same_text(low, "flat") {
            Ok(ProjectListGrouping::Off)
        } else {
            Err(concat3("Invalid project list grouping '", s, "'. Valid options: always, auto, none"))
        }
    }
}

/// No text spells two values.
pub proof fn grouping_spellings_are_unambiguous(
    a: ProjectListGrouping,
    b: ProjectListGrouping,
    low: Seq<char>,
)
    requires
        a.spelled(low),
        b.spelled(low),
    ensures
        a == b,
{
    reveal_strlit("always");
    assert("always"@.len() == 6);
    reveal_strlit("all");
    assert("all"@.len() == 3);
    reveal_strlit("full");
    assert("full"@.len() == 4);
    reveal_strlit("auto");
    assert("auto"@.len() == 4);
    reveal_strlit("smart");
    assert("smart"@.len() == 5);
    reveal_strlit("none");
    assert("none"@.len() == 4);
    reveal_strlit("off");
    assert("off"@.len() == 3);
    reveal_strlit("flat");
    assert("flat"@.len() == 4);
    assert("full"@[0] != "auto"@[0]);
    assert("all"@[0] != "off"@[0]);
    assert("full"@[0] != "none"@[0]);
    assert("full"@[1] != "flat"@[1]);
    assert("auto"@[0] != "none"@[0]);
    assert("auto"@[0] != "flat"@[0]);
}

} // verus!
