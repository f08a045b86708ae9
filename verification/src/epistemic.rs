//! What kind of claim a memory makes, and what would falsify it.
//!
//! [`Epistemic`] is orthogonal to the type of a memory, which says what it is
//! about. [`Validity`] makes the condition under which a memory stops holding
//! data of its own. [`Situation`] names the context of the agent that asks.

use crate::text::{concat3, same_text, to_lowercase};
use std::str::FromStr;
use vstd::prelude::*;

verus! {

broadcast use vstd::string::group_string_axioms;

// ---------------------------------------------------------------------------
// Epistemic class
// ---------------------------------------------------------------------------

/// What kind of claim a memory makes.
#[derive(Debug, Clone, Copy, PartialEq, Eq, Hash, Structural)]
pub enum Epistemic {
    /// Structural fact about the code or tooling as it is. Flips, rather than
    /// fades, when the code changes.
    Fact,
    /// Empirical observation measured at a point in time.
    Observation,
    /// Normative choice with a rationale; holds while its premise does.
    Decision,
}

impl Default for Epistemic {
    fn default() -> (r: Self)
        ensures
            r == Epistemic::Fact,
    {
        Epistemic::Fact
    }
}

impl Epistemic {
    /// The name of the class.
    pub open spec fn name(self) -> Seq<char> {
        match self {
            Epistemic::Fact => "fact"@,
            Epistemic::Observation => "observation"@,
            Epistemic::Decision => "decision"@,
        }
    }

    /// Stable lowercase name.
    pub fn as_str(&self) -> (r: &'static str)
        ensures
            r@ == self.name(),
    {
        match self {
            Epistemic::Fact => "fact",
            Epistemic::Observation => "observation",
            Epistemic::Decision => "decision",
        }
    }

    /// What reading a name gives, for the name in lowercase: the class of that
    /// name, or a message that lists the names.
    pub open spec fn reads(low: Seq<char>, r: Result<Epistemic, String>) -> bool {
        match r {
            Ok(e) => low == e.name(),
            Err(m) => (forall|e: Epistemic| low != #[trigger] e.name()) && m@
                == "invalid epistemic class '"@ + low
                + "' (expected: fact, observation, decision)"@,
        }
    }

    /// Reads a name, in any case.
    pub fn from_name(s: &str) -> (r: Result<Epistemic, String>)
        ensures
            Epistemic::reads(crate::text::unicode_lowercase(s@), r),
            crate::text::is_ascii_text(s@) ==> Epistemic::reads(
                crate::text::ascii_lowercase(s@),
                r,
            ),
    {
        let lowered = to_lowercase(s);
        let low = lowered.as_str();
        if same_text(low, "fact") {
            Ok(Epistemic::Fact)
        } else if same_text(low, "observation") {
            Ok(Epistemic::Observation)
        } else if same_text(low, "decision") {
            Ok(Epistemic::Decision)
        } else {
            Err(
                concat3(
                    "invalid epistemic class '",
                    low,
                    "' (expected: fact, observation, decision)",
                ),
            )
        }
    }
}

impl FromStr for Epistemic {
    type Err = String;

    /// Reads a name, in any case.
    fn from_str(s: &str) -> (r: Result<Self, Self::Err>)
        ensures
            Epistemic::reads(crate::text::unicode_lowercase(s@), r),
            crate::text::is_ascii_text(s@) ==> Epistemic::reads(
                crate::text::ascii_lowercase(s@),
                r,
            ),
    {
        Epistemic::from_name(s)
    }
}

/// A class is read back from its own name.
pub proof fn epistemic_name_reads_back(e: Epistemic, r: Result<Epistemic, String>)
    requires
        Epistemic::reads(crate::text::ascii_lowercase(e.name()), r),
    ensures
        crate::text::is_ascii_text(e.name()),
        r == Ok::<Epistemic, String>(e),
{
    reveal_strlit("fact");
    reveal_strlit("observation");
    reveal_strlit("decision");
    assert(crate::text::ascii_lowercase(e.name()) =~= e.name());
}

// ---------------------------------------------------------------------------
// Generality
// ---------------------------------------------------------------------------

/// How far beyond its origin a memory is claimed to hold.
#[derive(Debug, Clone, Copy, PartialEq, Eq, Hash, Structural)]
pub enum Generality {
    /// Holds project-wide.
    Project,
    /// Binding only within its origin task.
    Task,
}

impl Default for Generality {
    fn default() -> (r: Self)
        ensures
            r == Generality::Project,
    {
        Generality::Project
    }
}

impl Generality {
    pub open spec fn name(self) -> Seq<char> {
        match self {
            Generality::Project => "project"@,
            Generality::Task => "task"@,
        }
    }

    /// Stable lowercase name.
    pub fn as_str(&self) -> (r: &'static str)
        ensures
            r@ == self.name(),
    {
        match self {
            Generality::Project => "project",
            Generality::Task => "task",
        }
    }

    /// What reading a name gives, for the name in lowercase.
    pub open spec fn reads(low: Seq<char>, r: Result<Generality, String>) -> bool {
        match r {
            Ok(g) => low == g.name(),
            Err(m) => (forall|g: Generality| low != #[trigger] g.name()) && m@
                == "invalid generality '"@ + low + "' (expected: project, task)"@,
        }
    }

    /// Reads a name, in any case.
    pub fn from_name(s: &str) -> (r: Result<Generality, String>)
        ensures
            Generality::reads(crate::text::unicode_lowercase(s@), r),
            crate::text::is_ascii_text(s@) ==> Generality::reads(
                crate::text::ascii_lowercase(s@),
                r,
            ),
    {
        let lowered = to_lowercase(s);
        let low = lowered.as_str();
        if same_text(low, "project") {
            Ok(Generality::Project)
        } else if same_text(low, "task") {
            Ok(Generality::Task)
        } else {
            Err(concat3("invalid generality '", low, "' (expected: project, task)"))
        }
    }
}

impl FromStr for Generality {
    type Err = String;

    /// Reads a name, in any case.
    fn from_str(s: &str) -> (r: Result<Self, Self::Err>)
        ensures
            Generality::reads(crate::text::unicode_lowercase(s@), r),
            crate::text::is_ascii_text(s@) ==> Generality::reads(
                crate::text::ascii_lowercase(s@),
                r,
            ),
    {
        Generality::from_name(s)
    }
}

/// A generality is read back from its own name.
pub proof fn generality_name_reads_back(g: Generality, r: Result<Generality, String>)
    requires
        Generality::reads(crate::text::ascii_lowercase(g.name()), r),
    ensures
        crate::text::is_ascii_text(g.name()),
        r == Ok::<Generality, String>(g),
{
    reveal_strlit("project");
    reveal_strlit("task");
    assert(crate::text::ascii_lowercase(g.name()) =~= g.name());
}

// ---------------------------------------------------------------------------
// Validity
// ---------------------------------------------------------------------------

/// What would falsify a memory.
///
/// An all-empty validity says nothing; a memory has none instead.
#[derive(Debug, Clone, PartialEq)]
pub struct Validity {
    /// Free-text premise that the memory depends on.
    pub premise: Option<String>,
    /// Paths and globs whose modification invalidates the memory.
    pub invalidated_by: Vec<String>,
    /// Task that the memory was created for.
    pub origin_task: Option<String>,
    /// How far beyond its origin the memory is claimed to hold.
    pub generality: Generality,
    /// Ids of the memories that this one was derived from.
    pub derived_from: Vec<String>,
}

/// The mathematical value of a validity.
#[verifier::ext_equal]
pub struct ValidityView {
    pub premise: Option<Seq<char>>,
    pub invalidated_by: Seq<Seq<char>>,
    pub origin_task: Option<Seq<char>>,
    pub generality: Generality,
    pub derived_from: Seq<Seq<char>>,
}

impl ValidityView {
    /// Whether the validity says nothing. The generality alone says nothing.
    pub open spec fn says_nothing(self) -> bool {
        &&& self.premise is None
        &&& self.invalidated_by.len() == 0
        &&& self.origin_task is None
        &&& self.derived_from.len() == 0
    }
}

impl View for Validity {
    type V = ValidityView;

    open spec fn view(&self) -> ValidityView {
        ValidityView {
            premise: crate::text::opt_text(self.premise),
            invalidated_by: crate::text::texts(self.invalidated_by@),
            origin_task: crate::text::opt_text(self.origin_task),
            generality: self.generality,
            derived_from: crate::text::texts(self.derived_from@),
        }
    }
}

impl Default for Validity {
    fn default() -> (r: Self)
        ensures
            r@.says_nothing(),
            r@.generality == Generality::Project,
    {
        Validity {
            premise: None,
            invalidated_by: Vec::new(),
            origin_task: None,
            generality: Generality::Project,
            derived_from: Vec::new(),
        }
    }
}

impl Validity {
    /// Whether every field is unset or empty.
    pub fn is_empty(&self) -> (r: bool)
        ensures
            r == self@.says_nothing(),
    {
        self.premise.is_none() && self.invalidated_by.len() == 0 && self.origin_task.is_none()
            && self.derived_from.len() == 0
    }

    /// A copy of the validity.
    pub fn copied(&self) -> (r: Validity)
        ensures
            r@ == self@,
    {
        Validity {
            premise: crate::transcripts::clone_opt(&self.premise),
            invalidated_by: crate::text::clone_texts(&self.invalidated_by),
            origin_task: crate::transcripts::clone_opt(&self.origin_task),
            generality: self.generality,
            derived_from: crate::text::clone_texts(&self.derived_from),
        }
    }
}

// ---------------------------------------------------------------------------
// Situation
// ---------------------------------------------------------------------------

/// The situation of the agent that asks.
#[derive(Debug, Clone, Copy, PartialEq, Eq, Hash, Structural)]
pub enum Situation {
    /// A session is starting: facts and project-wide decisions matter most.
    SessionStart,
    /// A file is about to be modified: decisions and hazards binding on it
    /// dominate.
    FileEdit,
    /// A failure is being investigated: observations rank highest.
    Debugging,
    /// A design choice is being weighed: prior decisions dominate.
    DesignChoice,
}

impl Situation {
    pub open spec fn name(self) -> Seq<char> {
        match self {
            Situation::SessionStart => "session_start"@,
            Situation::FileEdit => "file_edit"@,
            Situation::Debugging => "debugging"@,
            Situation::DesignChoice => "design_choice"@,
        }
    }

    /// Stable snake-case name.
    pub fn as_str(&self) -> (r: &'static str)
        ensures
            r@ == self.name(),
    {
        match self {
            Situation::SessionStart => "session_start",
            Situation::FileEdit => "file_edit",
            Situation::Debugging => "debugging",
            Situation::DesignChoice => "design_choice",
        }
    }

    /// What reading a name gives, for the name in lowercase.
    pub open spec fn reads(low: Seq<char>, r: Result<Situation, String>) -> bool {
        match r {
            Ok(s) => low == s.name(),
            Err(m) => (forall|s: Situation| low != #[trigger] s.name()) && m@
                == "invalid situation '"@ + low
                + "' (expected: session_start, file_edit, debugging, design_choice)"@,
        }
    }

    /// Reads a name, in any case.
    pub fn from_name(s: &str) -> (r: Result<Situation, String>)
        ensures
            Situation::reads(crate::text::unicode_lowercase(s@), r),
            crate::text::is_ascii_text(s@) ==> Situation::reads(
                crate::text::ascii_lowercase(s@),
                r,
            ),
    {
        let lowered = to_lowercase(s);
        let low = lowered.as_str();
        if same_text(low, "session_start") {
            Ok(Situation::SessionStart)
        } else if same_text(low, "file_edit") {
            Ok(Situation::FileEdit)
        } else if same_text(low, "debugging") {
            Ok(Situation::Debugging)
        } else if same_text(low, "design_choice") {
            Ok(Situation::DesignChoice)
        } else {
            Err(
                concat3(
                    "invalid situation '",
                    low,
                    "' (expected: session_start, file_edit, debugging, design_choice)",
                ),
            )
        }
    }
}

impl FromStr for Situation {
    type Err = String;

    /// Reads a name, in any case.
    fn from_str(s: &str) -> (r: Result<Self, Self::Err>)
        ensures
            Situation::reads(crate::text::unicode_lowercase(s@), r),
            crate::text::is_ascii_text(s@) ==> Situation::reads(
                crate::text::ascii_lowercase(s@),
                r,
            ),
    {
        Situation::from_name(s)
    }
}

/// A situation is read back from its own name.
pub proof fn situation_name_reads_back(s: Situation, r: Result<Situation, String>)
    requires
        Situation::reads(crate::text::ascii_lowercase(s.name()), r),
    ensures
        crate::text::is_ascii_text(s.name()),
        r == Ok::<Situation, String>(s),
{
    reveal_strlit("session_start");
    reveal_strlit("file_edit");
    reveal_strlit("debugging");
    reveal_strlit("design_choice");
    assert("session_start"@[0] != "design_choice"@[0]);
    assert("file_edit"@[0] != "debugging"@[0]);
    assert(crate::text::ascii_lowercase(s.name()) =~= s.name());
}

} // verus!
