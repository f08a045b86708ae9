//! Memories, and partial updates of them.

use crate::binary64::Binary64;
use crate::challenge::{copy_challenges, Challenge};
use crate::decay::{Decay, Span};
use crate::epistemic::{Epistemic, Validity, ValidityView};
use crate::provenance::Provenance;
use crate::text::clone_texts;
use crate::time::{utc_now, Timestamp};
use vstd::prelude::*;

verus! {

broadcast use vstd::string::group_string_axioms;

/// One half.
pub const HALF_BITS: u64 = 0x3fe0_0000_0000_0000;

/// Four fifths, rounded to binary64.
pub const FOUR_FIFTHS_BITS: u64 = 0x3fe9_9999_9999_999a;

/// One fifth, rounded to binary64.
pub const ONE_FIFTH_BITS: u64 = 0x3fc9_9999_9999_999a;

// ---------------------------------------------------------------------------
// Classification
// ---------------------------------------------------------------------------

/// What a memory is about.
#[derive(Debug, Clone, Copy, PartialEq, Eq, Hash, Structural)]
pub enum MemoryType {
    /// Architectural or design decision.
    Decision,
    /// Coding convention or pattern.
    Convention,
    /// Known bug, footgun or warning.
    Hazard,
    /// Background context about the codebase.
    Context,
    /// In-flight refactor or planned change.
    Intent,
    /// Relationship between components.
    Relationship,
    /// Debugging note or investigation result.
    Debug,
    /// User or agent preference.
    Preference,
}

impl MemoryType {
    /// The epistemic class of a memory of this type whose author names none.
    pub open spec fn epistemic_class(self) -> Epistemic {
        match self {
            MemoryType::Context => Epistemic::Fact,
            MemoryType::Convention => Epistemic::Fact,
            MemoryType::Relationship => Epistemic::Fact,
            MemoryType::Hazard => Epistemic::Fact,
            MemoryType::Debug => Epistemic::Observation,
            MemoryType::Decision => Epistemic::Decision,
            MemoryType::Intent => Epistemic::Decision,
            MemoryType::Preference => Epistemic::Decision,
        }
    }

    /// The decay of a memory of this type: none, but for hazards with a floor
    /// of one half, and for intents and debugging notes a half-life of
    /// fourteen and thirty days.
    pub open spec fn type_decay(self) -> Decay {
        let zero = Binary64 { bits: 0 };
        match self {
            MemoryType::Hazard => Decay::lasting(Binary64 { bits: HALF_BITS }),
            MemoryType::Intent => Decay::halving(Span::of_days(14), zero),
            MemoryType::Debug => Decay::halving(Span::of_days(30), zero),
            _ => Decay::lasting(zero),
        }
    }

    /// The decay of a memory of this type.
    pub fn default_decay(&self) -> (r: Option<Decay>)
        ensures
            r == Some(self.type_decay()),
    {
        match self {
            MemoryType::Decision => Some(Decay::none()),
            MemoryType::Convention => Some(Decay::none()),
            MemoryType::Context => Some(Decay::none()),
            MemoryType::Relationship => Some(Decay::none()),
            MemoryType::Preference => Some(Decay::none()),
            MemoryType::Hazard => Some(Decay::none_with_floor(Binary64 { bits: HALF_BITS })),
            MemoryType::Intent => Some(Decay::exponential(Span::days(14))),
            MemoryType::Debug => Some(Decay::exponential(Span::days(30))),
        }
    }

    /// The epistemic class of a memory of this type whose author names none.
    ///
    /// Stored memories that name no class have exactly these, so the mapping
    /// is frozen.
    pub fn default_epistemic(&self) -> (r: Epistemic)
        ensures
            r == self.epistemic_class(),
    {
        match self {
            MemoryType::Context => Epistemic::Fact,
            MemoryType::Convention => Epistemic::Fact,
            MemoryType::Relationship => Epistemic::Fact,
            MemoryType::Hazard => Epistemic::Fact,
            MemoryType::Debug => Epistemic::Observation,
            MemoryType::Decision => Epistemic::Decision,
            MemoryType::Intent => Epistemic::Decision,
            MemoryType::Preference => Epistemic::Decision,
        }
    }
}

/// The decay of a memory of the given type and class. A class other than the
/// type's own wins: an observation fades with a half-life of ninety days to a
/// floor of one fifth, a fact does not fade, a decision fades as its type.
pub open spec fn decay_of(type_: MemoryType, epistemic: Epistemic) -> Decay {
    if epistemic == type_.epistemic_class() {
        type_.type_decay()
    } else {
        match epistemic {
            Epistemic::Observation => Decay::halving(
                Span::of_days(90),
                Binary64 { bits: ONE_FIFTH_BITS },
            ),
            Epistemic::Fact => Decay::lasting(Binary64 { bits: 0 }),
            Epistemic::Decision => type_.type_decay(),
        }
    }
}

/// The decay of a memory of the given type and class.
pub fn default_decay(type_: MemoryType, epistemic: Epistemic) -> (r: Option<Decay>)
    ensures
        r == Some(decay_of(type_, epistemic)),
{
    if epistemic == type_.default_epistemic() {
        return type_.default_decay();
    }
    match epistemic {
        Epistemic::Observation => Some(
            Decay::exponential(Span::days(90)).with_floor(Binary64 { bits: ONE_FIFTH_BITS }),
        ),
        Epistemic::Fact => Some(Decay::none()),
        Epistemic::Decision => type_.default_decay(),
    }
}

/// A memory whose class is that of its type decays exactly as its type does.
pub proof fn decay_agrees_on_the_diagonal(type_: MemoryType)
    ensures
        decay_of(type_, type_.epistemic_class()) == type_.type_decay(),
{
}

/// Status of a memory.
#[derive(Debug, Clone, Copy, PartialEq, Eq, Hash, Structural)]
pub enum Status {
    /// Active and valid.
    Active,
    /// In need of human review.
    NeedsReview,
    /// Challenged.
    Challenged,
}

/// Who sees a memory.
#[derive(Debug, Clone, Copy, PartialEq, Eq, Structural)]
pub enum Visibility {
    /// All agents and sessions.
    Shared,
    /// One agent or session.
    Personal,
}

// ---------------------------------------------------------------------------
// Memories
// ---------------------------------------------------------------------------

/// The value of an optional validity.
pub open spec fn opt_validity(v: Option<Validity>) -> Option<ValidityView> {
    match v {
        Some(v) => Some(v@),
        None => None,
    }
}

/// A single piece of knowledge.
#[derive(Debug, Clone)]
pub struct Memory {
    /// Unique identifier: a version 7 UUID.
    pub id: String,
    /// What the memory is about.
    pub type_: MemoryType,
    /// What kind of claim it makes.
    pub epistemic: Epistemic,
    /// What would falsify it; `None` where nothing was declared.
    pub valid_while: Option<Validity>,
    /// When the claim became true; `None` for when it was created.
    pub valid_from: Option<Timestamp>,
    /// When the claim stopped holding; `None` while it holds.
    pub invalidated_at: Option<Timestamp>,
    /// Id of the memory that superseded this one.
    pub superseded_by: Option<String>,
    /// Brief summary.
    pub summary: String,
    /// Short title for the file name.
    pub title: Option<String>,
    /// Main content.
    pub content: String,
    /// Extended details.
    pub details: Option<String>,
    /// Physical scope: file paths or globs.
    pub physical: Vec<String>,
    /// Logical scope: dotted domains.
    pub logical: Vec<String>,
    /// Searchable tags.
    pub tags: Vec<String>,
    /// Criticality, from zero to one.
    pub criticality: Binary64,
    /// How its relevance fades.
    pub decay: Option<Decay>,
    /// Where it comes from.
    pub provenance: Provenance,
    /// Confidence, from zero to one.
    pub confidence: Binary64,
    /// Ids of the memories that this one supersedes.
    pub supersedes: Vec<String>,
    /// Current status.
    pub status: Status,
    /// Who sees it.
    pub visibility: Visibility,
    /// Challenges to its validity.
    pub challenges: Vec<Challenge>,
    /// When it was last verified.
    pub verified_at: Option<Timestamp>,
    /// When it was created.
    pub created_at: Timestamp,
    /// When it was last updated.
    pub updated_at: Timestamp,
    /// When it was last accessed.
    pub accessed_at: Timestamp,
    /// When it expires.
    pub expires_at: Option<Timestamp>,
}

/// The mathematical value of a memory.
#[verifier::ext_equal]
pub struct MemoryView {
    pub id: Seq<char>,
    pub type_: MemoryType,
    pub epistemic: Epistemic,
    pub valid_while: Option<ValidityView>,
    pub valid_from: Option<Timestamp>,
    pub invalidated_at: Option<Timestamp>,
    pub superseded_by: Option<Seq<char>>,
    pub summary: Seq<char>,
    pub title: Option<Seq<char>>,
    pub content: Seq<char>,
    pub details: Option<Seq<char>>,
    pub physical: Seq<Seq<char>>,
    pub logical: Seq<Seq<char>>,
    pub tags: Seq<Seq<char>>,
    pub criticality: Binary64,
    pub decay: Option<Decay>,
    pub provenance: Provenance,
    pub confidence: Binary64,
    pub supersedes: Seq<Seq<char>>,
    pub status: Status,
    pub visibility: Visibility,
    pub challenges: Seq<Challenge>,
    pub verified_at: Option<Timestamp>,
    pub created_at: Timestamp,
    pub updated_at: Timestamp,
    pub accessed_at: Timestamp,
    pub expires_at: Option<Timestamp>,
}

impl View for Memory {
    type V = MemoryView;

    open spec fn view(&self) -> MemoryView {
        MemoryView {
            id: self.id@,
            type_: self.type_,
            epistemic: self.epistemic,
            valid_while: opt_validity(self.valid_while),
            valid_from: self.valid_from,
            invalidated_at: self.invalidated_at,
            superseded_by: crate::text::opt_text(self.superseded_by),
            summary: self.summary@,
            title: crate::text::opt_text(self.title),
            content: self.content@,
            details: crate::text::opt_text(self.details),
            physical: crate::text::texts(self.physical@),
            logical: crate::text::texts(self.logical@),
            tags: crate::text::texts(self.tags@),
            criticality: self.criticality,
            decay: self.decay,
            provenance: self.provenance,
            confidence: self.confidence,
            supersedes: crate::text::texts(self.supersedes@),
            status: self.status,
            visibility: self.visibility,
            challenges: self.challenges@,
            verified_at: self.verified_at,
            created_at: self.created_at,
            updated_at: self.updated_at,
            accessed_at: self.accessed_at,
            expires_at: self.expires_at,
        }
    }
}

/// A memory as it is created: with the defaults of its type, the root as its
/// physical scope, and everything else unset.
pub open spec fn fresh_memory(
    id: Seq<char>,
    type_: MemoryType,
    summary: Seq<char>,
    content: Seq<char>,
    provenance: Provenance,
    now: Timestamp,
) -> MemoryView {
    MemoryView {
        id,
        type_,
        epistemic: type_.epistemic_class(),
        valid_while: None,
        valid_from: None,
        invalidated_at: None,
        superseded_by: None,
        summary,
        title: None,
        content,
        details: None,
        physical: seq!["/"@],
        logical: Seq::empty(),
        tags: Seq::empty(),
        criticality: Binary64 { bits: HALF_BITS },
        decay: Some(type_.type_decay()),
        provenance,
        confidence: Binary64 { bits: FOUR_FIFTHS_BITS },
        supersedes: Seq::empty(),
        status: Status::Active,
        visibility: Visibility::Shared,
        challenges: Seq::empty(),
        verified_at: None,
        created_at: now,
        updated_at: now,
        accessed_at: now,
        expires_at: None,
    }
}

/// The shape of a hyphenated lowercase UUID of version 7.
pub open spec fn is_uuid_v7_text(s: Seq<char>) -> bool {
    &&& s.len() == 36
    &&& s[8] == '-' && s[13] == '-' && s[18] == '-' && s[23] == '-'
    &&& s[14] == '7'
    &&& forall|i: int|
        0 <= i < 36 && i != 8 && i != 13 && i != 18 && i != 23 ==> {
            ||| '0' <= #[trigger] s[i] <= '9'
            ||| 'a' <= s[i] <= 'f'
        }
}

/// A new id, from `uuid::Uuid::now_v7`. Which one it is depends on time and
/// chance; its shape does not.
#[verifier::external_body]
fn new_id() -> (r: String)
    ensures
        is_uuid_v7_text(r@),
{
    uuid::Uuid::now_v7().to_string()
}

impl MemoryView {
    /// Whether the memory has expired.
    pub open spec fn expired(self, now: Timestamp) -> bool {
        self.expires_at matches Some(t) && t.before(now)
    }

    /// Whether the memory's validity has ended. One that is set to end later
    /// has not.
    pub open spec fn invalidated(self, now: Timestamp) -> bool {
        self.invalidated_at matches Some(t) && !now.before(t)
    }

    /// Whether the memory is in force.
    pub open spec fn active(self, now: Timestamp) -> bool {
        !self.expired(now) && !self.invalidated(now) && self.status == Status::Active
    }

    /// The memory with one more challenge.
    pub open spec fn challenged(self, challenge: Challenge, now: Timestamp) -> MemoryView {
        MemoryView {
            challenges: self.challenges.push(challenge),
            status: Status::Challenged,
            updated_at: now,
            ..self
        }
    }
}

impl Memory {
    /// Creates a memory with the given id at the given time.
    pub fn new_at(
        id: String,
        type_: MemoryType,
        summary: &str,
        content: &str,
        provenance: Provenance,
        now: Timestamp,
    ) -> (r: Memory)
        ensures
            r@ == fresh_memory(id@, type_, summary@, content@, provenance, now),
    {
        let mut physical: Vec<String> = Vec::new();
        physical.push("/".to_owned());
        let r = Memory {
            id,
            type_,
            epistemic: type_.default_epistemic(),
            valid_while: None,
            valid_from: None,
            invalidated_at: None,
            superseded_by: None,
            summary: summary.to_owned(),
            title: None,
            content: content.to_owned(),
            details: None,
            physical,
            logical: Vec::new(),
            tags: Vec::new(),
            criticality: Binary64 { bits: HALF_BITS },
            decay: type_.default_decay(),
            provenance,
            confidence: Binary64 { bits: FOUR_FIFTHS_BITS },
            supersedes: Vec::new(),
            status: Status::Active,
            visibility: Visibility::Shared,
            challenges: Vec::new(),
            verified_at: None,
            created_at: now,
            updated_at: now,
            accessed_at: now,
            expires_at: None,
        };
        assert(r@ =~= fresh_memory(id@, type_, summary@, content@, provenance, now));
        r
    }

    /// Creates a memory now, under a new id.
    pub fn new(type_: MemoryType, summary: &str, content: &str, provenance: Provenance) -> (r:
        Memory)
        ensures
            is_uuid_v7_text(r.id@),
            crate::time::clock_time(r.created_at),
            r@ == fresh_memory(r.id@, type_, summary@, content@, provenance, r.created_at),
    {
        Memory::new_at(new_id(), type_, summary, content, provenance, utc_now())
    }

    /// Records an access at the given time.
    pub fn touch_at(&mut self, now: Timestamp)
        ensures
            final(self)@ == (MemoryView { accessed_at: now, ..old(self)@ }),
    {
        self.accessed_at = now;
    }

    /// Records an access.
    pub fn touch(&mut self)
        ensures
            final(self)@ == (MemoryView { accessed_at: final(self).accessed_at, ..old(self)@ }),
            crate::time::clock_time(final(self).accessed_at),
    {
        self.touch_at(utc_now());
    }

    /// Records an update at the given time.
    pub fn mark_updated_at(&mut self, now: Timestamp)
        ensures
            final(self)@ == (MemoryView { updated_at: now, ..old(self)@ }),
    {
        self.updated_at = now;
    }

    /// Records an update.
    pub fn mark_updated(&mut self)
        ensures
            final(self)@ == (MemoryView { updated_at: final(self).updated_at, ..old(self)@ }),
            crate::time::clock_time(final(self).updated_at),
    {
        self.mark_updated_at(utc_now());
    }

    /// Adds a challenge at the given time.
    pub fn add_challenge_at(&mut self, challenge: Challenge, now: Timestamp)
        ensures
            final(self)@ == old(self)@.challenged(challenge, now),
    {
        self.challenges.push(challenge);
        self.status = Status::Challenged;
        self.mark_updated_at(now);
    }

    /// Adds a challenge.
    pub fn add_challenge(&mut self, challenge: Challenge)
        ensures
            final(self)@ == old(self)@.challenged(challenge, final(self).updated_at),
            crate::time::clock_time(final(self).updated_at),
    {
        self.add_challenge_at(challenge, utc_now());
    }

    /// Whether the memory has expired at the given time.
    pub fn is_expired_at(&self, now: Timestamp) -> (r: bool)
        ensures
            r == self@.expired(now),
    {
        match &self.expires_at {
            Some(t) => t.is_before(&now),
            None => false,
        }
    }

    /// Whether the memory has expired, by the clock.
    pub fn is_expired(&self) -> (r: bool)
        ensures
            exists|now: Timestamp| #[trigger]
                crate::time::clock_time(now) && r == self@.expired(now),
    {
        self.is_expired_at(utc_now())
    }

    /// Whether the memory's validity has ended at the given time.
    pub fn is_invalidated_at(&self, now: Timestamp) -> (r: bool)
        ensures
            r == self@.invalidated(now),
    {
        match &self.invalidated_at {
            Some(t) => !now.is_before(t),
            None => false,
        }
    }

    /// Whether the memory's validity has ended, by the clock.
    pub fn is_invalidated(&self) -> (r: bool)
        ensures
            exists|now: Timestamp| #[trigger]
                crate::time::clock_time(now) && r == self@.invalidated(now),
    {
        self.is_invalidated_at(utc_now())
    }

    /// Whether the memory is in force at the given time.
    pub fn is_active_at(&self, now: Timestamp) -> (r: bool)
        ensures
            r == self@.active(now),
    {
        !self.is_expired_at(now) && !self.is_invalidated_at(now) && self.status == Status::Active
    }

    /// Whether the memory is in force, by the clock.
    pub fn is_active(&self) -> (r: bool)
        ensures
            exists|now: Timestamp| #[trigger]
                crate::time::clock_time(now) && r == self@.active(now),
    {
        self.is_active_at(utc_now())
    }
}

// ---------------------------------------------------------------------------
// Updates
// ---------------------------------------------------------------------------

/// A partial update: what is `None` stays as it is.
#[derive(Debug, Clone)]
pub struct MemoryUpdate {
    pub type_: Option<MemoryType>,
    pub epistemic: Option<Epistemic>,
    /// An all-empty validity clears the memory's.
    pub valid_while: Option<Validity>,
    pub valid_from: Option<Timestamp>,
    pub invalidated_at: Option<Timestamp>,
    pub superseded_by: Option<String>,
    /// Reopens the memory: clears `invalidated_at` and `superseded_by`, after
    /// whatever the update sets them to.
    pub clear_invalidated: bool,
    pub summary: Option<String>,
    pub title: Option<String>,
    pub content: Option<String>,
    pub details: Option<String>,
    pub physical: Option<Vec<String>>,
    pub logical: Option<Vec<String>>,
    pub tags: Option<Vec<String>>,
    pub criticality: Option<Binary64>,
    pub decay: Option<Decay>,
    pub provenance: Option<Provenance>,
    pub confidence: Option<Binary64>,
    pub supersedes: Option<Vec<String>>,
    pub status: Option<Status>,
    pub challenges: Option<Vec<Challenge>>,
    pub visibility: Option<Visibility>,
    pub verified_at: Option<Timestamp>,
    pub expires_at: Option<Timestamp>,
}

/// The mathematical value of an update.
#[verifier::ext_equal]
pub struct MemoryUpdateView {
    pub type_: Option<MemoryType>,
    pub epistemic: Option<Epistemic>,
    pub valid_while: Option<ValidityView>,
    pub valid_from: Option<Timestamp>,
    pub invalidated_at: Option<Timestamp>,
    pub superseded_by: Option<Seq<char>>,
    pub clear_invalidated: bool,
    pub summary: Option<Seq<char>>,
    pub title: Option<Seq<char>>,
    pub content: Option<Seq<char>>,
    pub details: Option<Seq<char>>,
    pub physical: Option<Seq<Seq<char>>>,
    pub logical: Option<Seq<Seq<char>>>,
    pub tags: Option<Seq<Seq<char>>>,
    pub criticality: Option<Binary64>,
    pub decay: Option<Decay>,
    pub provenance: Option<Provenance>,
    pub confidence: Option<Binary64>,
    pub supersedes: Option<Seq<Seq<char>>>,
    pub status: Option<Status>,
    pub challenges: Option<Seq<Challenge>>,
    pub visibility: Option<Visibility>,
    pub verified_at: Option<Timestamp>,
    pub expires_at: Option<Timestamp>,
}

/// The texts of an optional list of strings.
pub open spec fn opt_texts(v: Option<Vec<String>>) -> Option<Seq<Seq<char>>> {
    match v {
        Some(v) => Some(crate::text::texts(v@)),
        None => None,
    }
}

/// The challenges of an optional list of them.
pub open spec fn opt_challenges(v: Option<Vec<Challenge>>) -> Option<Seq<Challenge>> {
    match v {
        Some(v) => Some(v@),
        None => None,
    }
}

impl View for MemoryUpdate {
    type V = MemoryUpdateView;

    open spec fn view(&self) -> MemoryUpdateView {
        MemoryUpdateView {
            type_: self.type_,
            epistemic: self.epistemic,
            valid_while: opt_validity(self.valid_while),
            valid_from: self.valid_from,
            invalidated_at: self.invalidated_at,
            superseded_by: crate::text::opt_text(self.superseded_by),
            clear_invalidated: self.clear_invalidated,
            summary: crate::text::opt_text(self.summary),
            title: crate::text::opt_text(self.title),
            content: crate::text::opt_text(self.content),
            details: crate::text::opt_text(self.details),
            physical: opt_texts(self.physical),
            logical: opt_texts(self.logical),
            tags: opt_texts(self.tags),
            criticality: self.criticality,
            decay: self.decay,
            provenance: self.provenance,
            confidence: self.confidence,
            supersedes: opt_texts(self.supersedes),
            status: self.status,
            challenges: opt_challenges(self.challenges),
            visibility: self.visibility,
            verified_at: self.verified_at,
            expires_at: self.expires_at,
        }
    }
}

/// The update that changes nothing.
pub open spec fn empty_update() -> MemoryUpdateView {
    MemoryUpdateView {
        type_: None,
        epistemic: None,
        valid_while: None,
        valid_from: None,
        invalidated_at: None,
        superseded_by: None,
        clear_invalidated: false,
        summary: None,
        title: None,
        content: None,
        details: None,
        physical: None,
        logical: None,
        tags: None,
        criticality: None,
        decay: None,
        provenance: None,
        confidence: None,
        supersedes: None,
        status: None,
        challenges: None,
        visibility: None,
        verified_at: None,
        expires_at: None,
    }
}

/// The new value where there is one, else the old.
pub open spec fn changed<T>(new: Option<T>, old_value: T) -> T {
    match new {
        Some(v) => v,
        None => old_value,
    }
}

/// The new value where there is one, else the old, which may be none.
pub open spec fn changed_opt<T>(new: Option<T>, old_value: Option<T>) -> Option<T> {
    match new {
        Some(v) => Some(v),
        None => old_value,
    }
}

/// The memory with an update applied at the given time.
pub open spec fn with_update(m: MemoryView, u: MemoryUpdateView, now: Timestamp) -> MemoryView {
    MemoryView {
        id: m.id,
        type_: changed(u.type_, m.type_),
        epistemic: changed(u.epistemic, m.epistemic),
        valid_while: match u.valid_while {
            Some(v) => if v.says_nothing() {
                None
            } else {
                Some(v)
            },
            None => m.valid_while,
        },
        valid_from: changed_opt(u.valid_from, m.valid_from),
        invalidated_at: if u.clear_invalidated {
            None
        } else {
            changed_opt(u.invalidated_at, m.invalidated_at)
        },
        superseded_by: if u.clear_invalidated {
            None
        } else {
            changed_opt(u.superseded_by, m.superseded_by)
        },
        summary: changed(u.summary, m.summary),
        title: changed_opt(u.title, m.title),
        content: changed(u.content, m.content),
        details: changed_opt(u.details, m.details),
        physical: changed(u.physical, m.physical),
        logical: changed(u.logical, m.logical),
        tags: changed(u.tags, m.tags),
        criticality: changed(u.criticality, m.criticality),
        decay: changed_opt(u.decay, m.decay),
        provenance: changed(u.provenance, m.provenance),
        confidence: changed(u.confidence, m.confidence),
        supersedes: changed(u.supersedes, m.supersedes),
        status: changed(u.status, m.status),
        visibility: changed(u.visibility, m.visibility),
        challenges: changed(u.challenges, m.challenges),
        verified_at: changed_opt(u.verified_at, m.verified_at),
        created_at: m.created_at,
        updated_at: now,
        accessed_at: m.accessed_at,
        expires_at: changed_opt(u.expires_at, m.expires_at),
    }
}

impl Default for MemoryUpdate {
    fn default() -> (r: Self)
        ensures
            r@ == empty_update(),
    {
        MemoryUpdate {
            type_: None,
            epistemic: None,
            valid_while: None,
            valid_from: None,
            invalidated_at: None,
            superseded_by: None,
            clear_invalidated: false,
            summary: None,
            title: None,
            content: None,
            details: None,
            physical: None,
            logical: None,
            tags: None,
            criticality: None,
            decay: None,
            provenance: None,
            confidence: None,
            supersedes: None,
            status: None,
            challenges: None,
            visibility: None,
            verified_at: None,
            expires_at: None,
        }
    }
}

impl MemoryUpdate {
    /// The update that changes nothing.
    pub fn new() -> (r: MemoryUpdate)
        ensures
            r@ == empty_update(),
    {
        MemoryUpdate::default()
    }

    /// Applies what the memory claims and until when.
    fn apply_validity(&self, memory: &mut Memory)
        ensures
            final(memory)@ == (MemoryView {
                type_: changed(self@.type_, old(memory)@.type_),
                epistemic: changed(self@.epistemic, old(memory)@.epistemic),
                valid_while: match self@.valid_while {
                    Some(v) => if v.says_nothing() {
                        None
                    } else {
                        Some(v)
                    },
                    None => old(memory)@.valid_while,
                },
                valid_from: changed_opt(self@.valid_from, old(memory)@.valid_from),
                invalidated_at: if self@.clear_invalidated {
                    None
                } else {
                    changed_opt(self@.invalidated_at, old(memory)@.invalidated_at)
                },
                superseded_by: if self@.clear_invalidated {
                    None
                } else {
                    changed_opt(self@.superseded_by, old(memory)@.superseded_by)
                },
                ..old(memory)@
            }),
    {
        if let Some(type_) = &self.type_ {
            memory.type_ = *type_;
        }
        if let Some(epistemic) = &self.epistemic {
            memory.epistemic = *epistemic;
        }
        if let Some(valid_while) = &self.valid_while {
            memory.valid_while = if valid_while.is_empty() {
                None
            } else {
                Some(valid_while.copied())
            };
        }
        if let Some(valid_from) = &self.valid_from {
            memory.valid_from = Some(*valid_from);
        }
        if let Some(invalidated_at) = &self.invalidated_at {
            memory.invalidated_at = Some(*invalidated_at);
        }
        if let Some(superseded_by) = &self.superseded_by {
            memory.superseded_by = Some(superseded_by.clone());
        }
        if self.clear_invalidated {
            memory.invalidated_at = None;
            memory.superseded_by = None;
        }
    }

    /// Applies the texts.
    fn apply_texts(&self, memory: &mut Memory)
        ensures
            final(memory)@ == (MemoryView {
                summary: changed(self@.summary, old(memory)@.summary),
                title: changed_opt(self@.title, old(memory)@.title),
                content: changed(self@.content, old(memory)@.content),
                details: changed_opt(self@.details, old(memory)@.details),
                ..old(memory)@
            }),
    {
        if let Some(summary) = &self.summary {
            memory.summary = summary.clone();
        }
        if let Some(title) = &self.title {
            memory.title = Some(title.clone());
        }
        if let Some(content) = &self.content {
            memory.content = content.clone();
        }
        if let Some(details) = &self.details {
            memory.details = Some(details.clone());
        }
    }

    /// Applies the scopes, tags and links.
    fn apply_lists(&self, memory: &mut Memory)
        ensures
            final(memory)@ == (MemoryView {
                physical: changed(self@.physical, old(memory)@.physical),
                logical: changed(self@.logical, old(memory)@.logical),
                tags: changed(self@.tags, old(memory)@.tags),
                supersedes: changed(self@.supersedes, old(memory)@.supersedes),
                challenges: changed(self@.challenges, old(memory)@.challenges),
                ..old(memory)@
            }),
    {
        if let Some(physical) = &self.physical {
            memory.physical = clone_texts(physical);
        }
        if let Some(logical) = &self.logical {
            memory.logical = clone_texts(logical);
        }
        if let Some(tags) = &self.tags {
            memory.tags = clone_texts(tags);
        }
        if let Some(supersedes) = &self.supersedes {
            memory.supersedes = clone_texts(supersedes);
        }
        if let Some(challenges) = &self.challenges {
            memory.challenges = copy_challenges(challenges);
        }
    }

    /// Applies the scores and marks.
    fn apply_marks(&self, memory: &mut Memory)
        ensures
            final(memory)@ == (MemoryView {
                criticality: changed(self@.criticality, old(memory)@.criticality),
                decay: changed_opt(self@.decay, old(memory)@.decay),
                provenance: changed(self@.provenance, old(memory)@.provenance),
                confidence: changed(self@.confidence, old(memory)@.confidence),
                status: changed(self@.status, old(memory)@.status),
                visibility: changed(self@.visibility, old(memory)@.visibility),
                ..old(memory)@
            }),
    {
        if let Some(criticality) = &self.criticality {
            memory.criticality = *criticality;
        }
        if let Some(decay) = &self.decay {
            memory.decay = Some(*decay);
        }
        if let Some(provenance) = &self.provenance {
            memory.provenance = provenance.copied();
        }
        if let Some(confidence) = &self.confidence {
            memory.confidence = *confidence;
        }
        if let Some(status) = &self.status {
            memory.status = *status;
        }
        if let Some(visibility) = &self.visibility {
            memory.visibility = *visibility;
        }
    }

    /// Applies the times.
    fn apply_times(&self, memory: &mut Memory)
        ensures
            final(memory)@ == (MemoryView {
                verified_at: changed_opt(self@.verified_at, old(memory)@.verified_at),
                expires_at: changed_opt(self@.expires_at, old(memory)@.expires_at),
                ..old(memory)@
            }),
    {
        if let Some(verified_at) = &self.verified_at {
            memory.verified_at = Some(*verified_at);
        }
        if let Some(expires_at) = &self.expires_at {
            memory.expires_at = Some(*expires_at);
        }
    }

    /// Applies the update at the given time.
    pub fn apply_to_at(&self, memory: &mut Memory, now: Timestamp)
        ensures
            final(memory)@ == with_update(old(memory)@, self@, now),
    {
        self.apply_validity(memory);
        self.apply_texts(memory);
        self.apply_lists(memory);
        self.apply_marks(memory);
        self.apply_times(memory);
        memory.mark_updated_at(now);
    }

    /// Applies the update now.
    pub fn apply_to(&self, memory: &mut Memory)
        ensures
            final(memory)@ == with_update(old(memory)@, self@, final(memory).updated_at),
            crate::time::clock_time(final(memory).updated_at),
    {
        self.apply_to_at(memory, utc_now());
    }
}

/// An empty update changes nothing but the time of the last update.
pub proof fn an_empty_update_changes_nothing(m: MemoryView, now: Timestamp)
    ensures
        with_update(m, empty_update(), now) == (MemoryView { updated_at: now, ..m }),
{
    assert(with_update(m, empty_update(), now) =~= (MemoryView { updated_at: now, ..m }));
}

/// Applying an update again changes nothing but the time of the last update.
pub proof fn updating_is_idempotent(
    m: MemoryView,
    u: MemoryUpdateView,
    now: Timestamp,
    later: Timestamp,
)
    ensures
        with_update(with_update(m, u, now), u, later) == with_update(m, u, later),
{
    assert(with_update(with_update(m, u, now), u, later) =~= with_update(m, u, later));
}

/// No update changes a memory's identity, nor when it was created or accessed.
pub proof fn an_update_keeps_the_identity(m: MemoryView, u: MemoryUpdateView, now: Timestamp)
    ensures
        with_update(m, u, now).id == m.id,
        with_update(m, u, now).created_at == m.created_at,
        with_update(m, u, now).accessed_at == m.accessed_at,
{
}

/// Reopening a memory wins over closing it in the same update, and undoes a
/// closing of before.
pub proof fn reopening_wins(m: MemoryView, u: MemoryUpdateView, now: Timestamp, at: Timestamp)
    requires
        u.clear_invalidated,
    ensures
        with_update(m, u, now).invalidated_at is None,
        with_update(m, u, now).superseded_by is None,
        !with_update(m, u, now).invalidated(at),
{
}

/// No update leaves a validity that says nothing.
pub proof fn an_update_leaves_no_empty_validity(
    m: MemoryView,
    u: MemoryUpdateView,
    now: Timestamp,
)
    requires
        m.valid_while matches Some(v) ==> !v.says_nothing(),
    ensures
        with_update(m, u, now).valid_while matches Some(v) ==> !v.says_nothing(),
{
}

/// A new memory is in force from the start, and a challenge takes it out of
/// force.
pub proof fn a_challenge_takes_a_memory_out_of_force(
    m: MemoryView,
    challenge: Challenge,
    now: Timestamp,
    at: Timestamp,
)
    ensures
        !m.challenged(challenge, now).active(at),
        m.challenged(challenge, now).challenges.last() == challenge,
{
}

} // verus!
