//! Configuration: its sections, their defaults, and what makes it valid.
//!
//! Weights and thresholds are binary64 numbers, held as their bits. Nothing
//! here adds two of them: where a check is about a sum, the sum is an argument.

use crate::binary64::Binary64;
use crate::text::{concat3, decimal_text, same_text, to_lowercase};
use crate::title_strategy::TitleStrategy;
use std::str::FromStr;
use vstd::prelude::*;

verus! {

broadcast use vstd::string::group_string_axioms;

/// Repository of the default contradiction-detection model.
pub const DEFAULT_NLI_MODEL_REPO: &'static str = "Xenova/nli-deberta-v3-xsmall";

// ---------------------------------------------------------------------------
// The defaults' numbers, rounded to binary64
// ---------------------------------------------------------------------------

/// Five hundredths.
pub const FIVE_HUNDREDTHS: u64 = 0x3fa9_9999_9999_999a;

/// One tenth.
pub const ONE_TENTH: u64 = 0x3fb9_9999_9999_999a;

/// Fifteen hundredths.
pub const FIFTEEN_HUNDREDTHS: u64 = 0x3fc3_3333_3333_3333;

/// Two tenths.
pub const TWO_TENTHS: u64 = 0x3fc9_9999_9999_999a;

/// One quarter.
pub const ONE_QUARTER: u64 = 0x3fd0_0000_0000_0000;

/// Three tenths.
pub const THREE_TENTHS: u64 = 0x3fd3_3333_3333_3333;

/// Four tenths.
pub const FOUR_TENTHS: u64 = 0x3fd9_9999_9999_999a;

/// Forty-five hundredths.
pub const FORTY_FIVE_HUNDREDTHS: u64 = 0x3fdc_cccc_cccc_cccd;

/// One half.
pub const ONE_HALF: u64 = 0x3fe0_0000_0000_0000;

/// Fifty-five hundredths.
pub const FIFTY_FIVE_HUNDREDTHS: u64 = 0x3fe1_9999_9999_999a;

/// Six tenths.
pub const SIX_TENTHS: u64 = 0x3fe3_3333_3333_3333;

/// Seven tenths.
pub const SEVEN_TENTHS: u64 = 0x3fe6_6666_6666_6666;

/// Eighty-two hundredths.
pub const EIGHTY_TWO_HUNDREDTHS: u64 = 0x3fea_3d70_a3d7_0a3d;

/// Eighty-five hundredths.
pub const EIGHTY_FIVE_HUNDREDTHS: u64 = 0x3feb_3333_3333_3333;

/// One.
pub const ONE: u64 = 0x3ff0_0000_0000_0000;

/// Three.
pub const THREE: u64 = 0x4008_0000_0000_0000;

// ---------------------------------------------------------------------------
// Errors
// ---------------------------------------------------------------------------

/// Why a configuration is not valid. The text has a place for the number that
/// is at fault, where that is a binary64 one.
#[derive(Debug)]
pub struct ConfigError {
    pub before: String,
    pub value: Option<Binary64>,
    pub after: String,
}

/// The mathematical value of an error.
#[verifier::ext_equal]
pub struct Fault {
    pub before: Seq<char>,
    pub value: Option<Binary64>,
    pub after: Seq<char>,
}

impl View for ConfigError {
    type V = Fault;

    open spec fn view(&self) -> Fault {
        Fault { before: self.before@, value: self.value, after: self.after@ }
    }
}

/// A fault without a number.
pub open spec fn plain_fault(text: Seq<char>) -> Option<Fault> {
    Some(Fault { before: text, value: None, after: Seq::empty() })
}

/// A fault about a number, between two texts.
pub open spec fn number_fault(before: Seq<char>, value: Binary64, after: Seq<char>) -> Option<
    Fault,
> {
    Some(Fault { before, value: Some(value), after })
}

/// Whether a check found exactly the given fault, or none.
pub open spec fn finds(r: Result<(), ConfigError>, fault: Option<Fault>) -> bool {
    match r {
        Ok(()) => fault is None,
        Err(e) => fault == Some(e@),
    }
}

/// The first fault of two checks.
pub open spec fn first(a: Option<Fault>, b: Option<Fault>) -> Option<Fault> {
    match a {
        Some(f) => Some(f),
        None => b,
    }
}

impl ConfigError {
    fn plain(text: &str) -> (r: ConfigError)
        ensures
            Some(r@) == plain_fault(text@),
    {
        ConfigError { before: text.to_owned(), value: None, after: String::new() }
    }

    fn number(before: &str, value: Binary64, after: &str) -> (r: ConfigError)
        ensures
            Some(r@) == number_fault(before@, value, after@),
    {
        ConfigError { before: before.to_owned(), value: Some(value), after: after.to_owned() }
    }

    /// The message, with `shown` for the number at fault. Where no binary64
    /// number is at fault, `shown` is not used.
    pub fn message(&self, shown: &str) -> (r: String)
        ensures
            r@ == (if self.value is Some {
                self.before@ + shown@ + self.after@
            } else {
                self.before@
            }),
    {
        if self.value.is_some() {
            concat3(self.before.as_str(), shown, self.after.as_str())
        } else {
            self.before.clone()
        }
    }
}

/// The fault of a number that must lie between zero and one, named in the
/// message with its value.
pub open spec fn unit_fault(before: Seq<char>, value: Binary64) -> Option<Fault> {
    if value.in_unit() {
        None
    } else {
        number_fault(before, value, ") must be in [0.0, 1.0]"@)
    }
}

fn check_unit(before: &str, value: Binary64) -> (r: Result<(), ConfigError>)
    ensures
        finds(r, unit_fault(before@, value)),
{
    if value.is_unit() {
        Ok(())
    } else {
        Err(ConfigError::number(before, value, ") must be in [0.0, 1.0]"))
    }
}

/// The fault of a number that must lie between zero and one, named in the
/// message without its value.
pub open spec fn bare_unit_fault(text: Seq<char>, value: Binary64) -> Option<Fault> {
    if value.in_unit() {
        None
    } else {
        plain_fault(text)
    }
}

fn check_bare_unit(text: &str, value: Binary64) -> (r: Result<(), ConfigError>)
    ensures
        finds(r, bare_unit_fault(text@, value)),
{
    if value.is_unit() {
        Ok(())
    } else {
        Err(ConfigError::plain(text))
    }
}

// ---------------------------------------------------------------------------
// Scoring
// ---------------------------------------------------------------------------

/// Weights of the components of a score. The active ones sum to one.
#[derive(Debug, Clone, Copy, PartialEq, Eq, Structural)]
pub struct ScoringWeights {
    /// Keyword match.
    pub keyword: Option<Binary64>,
    /// Semantic similarity.
    pub semantic: Option<Binary64>,
    /// Relevance.
    pub relevance: Binary64,
}

impl ScoringWeights {
    /// The numbers to add up, in this order: an absent weight counts as zero.
    pub fn summands(&self) -> (r: (Binary64, Binary64, Binary64))
        ensures
            r.0 == (match self.keyword {
                Some(w) => w,
                None => (Binary64 { bits: 0 }),
            }),
            r.1 == (match self.semantic {
                Some(w) => w,
                None => (Binary64 { bits: 0 }),
            }),
            r.2 == self.relevance,
    {
        let zero = Binary64 { bits: 0 };
        (self.keyword.unwrap_or(zero), self.semantic.unwrap_or(zero), self.relevance)
    }

    /// The fault of weights with the given sum: it must be one, up to a
    /// thousandth.
    pub open spec fn fault(mode_name: Seq<char>, sum: Binary64) -> Option<Fault> {
        if sum.near_one() {
            None
        } else {
            number_fault(
                "scoring."@ + mode_name + " weights sum to "@,
                sum,
                " (expected 1.0 \u{b1} 0.001)"@,
            )
        }
    }

    /// Checks that the active weights, whose sum is given, sum to one.
    pub fn validate(&self, mode_name: &str, sum: Binary64) -> (r: Result<(), ConfigError>)
        ensures
            finds(r, ScoringWeights::fault(mode_name@, sum)),
    {
        if sum.is_near_one() {
            Ok(())
        } else {
            let before = concat3("scoring.", mode_name, " weights sum to ");
            Err(ConfigError::number(before.as_str(), sum, " (expected 1.0 \u{b1} 0.001)"))
        }
    }
}

impl ScoringWeights {
    /// Whether every setting has its default value.
    pub open spec fn is_standard(self) -> bool {
        self == (ScoringWeights {
            keyword: None,
            semantic: Some(Binary64 { bits: FIFTY_FIVE_HUNDREDTHS }),
            relevance: Binary64 { bits: FORTY_FIVE_HUNDREDTHS },
        })
    }
}

impl Default for ScoringWeights {
    fn default() -> (r: Self)
        ensures
            r.is_standard(),
    {
        ScoringWeights {
            keyword: None,
            semantic: Some(Binary64 { bits: FIFTY_FIVE_HUNDREDTHS }),
            relevance: Binary64 { bits: FORTY_FIVE_HUNDREDTHS },
        }
    }
}

/// Scoring, by mode of retrieval.
#[derive(Debug, Clone, Copy)]
pub struct ScoringConfig {
    /// Weights when both query and scope are given.
    pub with_query: ScoringWeights,
    /// Weights when keyword search is active.
    pub with_keyword: ScoringWeights,
    /// Weights for retrieval by scope only.
    pub scope_only: ScoringWeights,
    /// Weights without embeddings.
    pub degraded: ScoringWeights,
    /// Base of the scope multiplier under logical context only.
    pub scope_multiplier_floor: Binary64,
    /// Floor of the trust multiplier.
    pub trust_multiplier_floor: Binary64,
    /// Subtracted from the score of a challenged memory.
    pub challenge_penalty: Binary64,
    /// Base of the exponential decay of physical scope with depth.
    pub depth_decay_base: Binary64,
    /// Floor of that decay.
    pub depth_decay_floor: Binary64,
}

impl ScoringConfig {
    /// Whether every setting has its default value.
    pub open spec fn is_standard(self) -> bool {
        &&& self.with_query.is_standard()
        &&& self.with_keyword == (ScoringWeights {
            keyword: Some(Binary64 { bits: FORTY_FIVE_HUNDREDTHS }),
            semantic: Some(Binary64 { bits: THREE_TENTHS }),
            relevance: Binary64 { bits: ONE_QUARTER },
        })
        &&& self.scope_only == (ScoringWeights {
            keyword: None,
            semantic: None,
            relevance: Binary64 { bits: ONE },
        })
        &&& self.degraded == (ScoringWeights {
            keyword: None,
            semantic: None,
            relevance: Binary64 { bits: ONE },
        })
        &&& self.scope_multiplier_floor == (Binary64 { bits: ONE_HALF })
        &&& self.trust_multiplier_floor == (Binary64 { bits: ONE_HALF })
        &&& self.challenge_penalty == (Binary64 { bits: ONE_TENTH })
        &&& self.depth_decay_base == (Binary64 { bits: EIGHTY_TWO_HUNDREDTHS })
        &&& self.depth_decay_floor == (Binary64 { bits: THREE_TENTHS })
    }
}

impl Default for ScoringConfig {
    fn default() -> (r: Self)
        ensures
            r.is_standard(),
    {
        ScoringConfig {
            with_query: ScoringWeights::default(),
            with_keyword: ScoringWeights {
                keyword: Some(Binary64 { bits: FORTY_FIVE_HUNDREDTHS }),
                semantic: Some(Binary64 { bits: THREE_TENTHS }),
                relevance: Binary64 { bits: ONE_QUARTER },
            },
            scope_only: ScoringWeights {
                keyword: None,
                semantic: None,
                relevance: Binary64 { bits: ONE },
            },
            degraded: ScoringWeights {
                keyword: None,
                semantic: None,
                relevance: Binary64 { bits: ONE },
            },
            scope_multiplier_floor: Binary64 { bits: ONE_HALF },
            trust_multiplier_floor: Binary64 { bits: ONE_HALF },
            challenge_penalty: Binary64 { bits: ONE_TENTH },
            depth_decay_base: Binary64 { bits: EIGHTY_TWO_HUNDREDTHS },
            depth_decay_floor: Binary64 { bits: THREE_TENTHS },
        }
    }
}

/// The sums of the active weights of the four modes.
#[derive(Debug, Clone, Copy)]
pub struct WeightSums {
    pub with_query: Binary64,
    pub with_keyword: Binary64,
    pub scope_only: Binary64,
    pub degraded: Binary64,
}

/// Bonuses for physical scope.
#[derive(Debug, Clone, Copy)]
pub struct ScopeProximityConfig {
    /// The exact file.
    pub exact_file: Binary64,
    /// The same directory.
    pub same_directory: Binary64,
    /// The same module or subtree.
    pub same_module: Binary64,
    /// The project root.
    pub project_root: Binary64,
}

impl ScopeProximityConfig {
    /// Whether every setting has its default value.
    pub open spec fn is_standard(self) -> bool {
        &&& self.exact_file == (Binary64 { bits: ONE })
        &&& self.same_directory == (Binary64 { bits: EIGHTY_FIVE_HUNDREDTHS })
        &&& self.same_module == (Binary64 { bits: SIX_TENTHS })
        &&& self.project_root == (Binary64 { bits: FOUR_TENTHS })
    }
}

impl Default for ScopeProximityConfig {
    fn default() -> (r: Self)
        ensures
            r.is_standard(),
    {
        ScopeProximityConfig {
            exact_file: Binary64 { bits: ONE },
            same_directory: Binary64 { bits: EIGHTY_FIVE_HUNDREDTHS },
            same_module: Binary64 { bits: SIX_TENTHS },
            project_root: Binary64 { bits: FOUR_TENTHS },
        }
    }
}

/// Bonuses for logical scope.
#[derive(Debug, Clone, Copy)]
pub struct LogicalBonusConfig {
    /// The exact scope.
    pub exact: Binary64,
    /// A parent scope.
    pub parent: Binary64,
    /// A sibling scope.
    pub sibling: Binary64,
}

impl LogicalBonusConfig {
    /// Whether every setting has its default value.
    pub open spec fn is_standard(self) -> bool {
        &&& self.exact == (Binary64 { bits: THREE_TENTHS })
        &&& self.parent == (Binary64 { bits: TWO_TENTHS })
        &&& self.sibling == (Binary64 { bits: FIFTEEN_HUNDREDTHS })
    }
}

impl Default for LogicalBonusConfig {
    fn default() -> (r: Self)
        ensures
            r.is_standard(),
    {
        LogicalBonusConfig {
            exact: Binary64 { bits: THREE_TENTHS },
            parent: Binary64 { bits: TWO_TENTHS },
            sibling: Binary64 { bits: FIFTEEN_HUNDREDTHS },
        }
    }
}

/// Trust by provenance.
#[derive(Debug, Clone, Copy)]
pub struct TrustWeights {
    /// Made by a human.
    pub human: Binary64,
    /// Made by an agent.
    pub agent: Binary64,
    /// Inferred.
    pub inferred: Binary64,
    /// Imported.
    pub imported: Binary64,
}

impl TrustWeights {
    /// Whether every setting has its default value.
    pub open spec fn is_standard(self) -> bool {
        &&& self.human == (Binary64 { bits: ONE })
        &&& self.agent == (Binary64 { bits: EIGHTY_FIVE_HUNDREDTHS })
        &&& self.inferred == (Binary64 { bits: SIX_TENTHS })
        &&& self.imported == (Binary64 { bits: SEVEN_TENTHS })
    }
}

impl Default for TrustWeights {
    fn default() -> (r: Self)
        ensures
            r.is_standard(),
    {
        TrustWeights {
            human: Binary64 { bits: ONE },
            agent: Binary64 { bits: EIGHTY_FIVE_HUNDREDTHS },
            inferred: Binary64 { bits: SIX_TENTHS },
            imported: Binary64 { bits: SEVEN_TENTHS },
        }
    }
}

impl TrustWeights {
    /// The first weight that does not lie between zero and one.
    pub open spec fn fault(self) -> Option<Fault> {
        first(
            unit_fault("trust_weights.human ("@, self.human),
            first(
                unit_fault("trust_weights.agent ("@, self.agent),
                first(
                    unit_fault("trust_weights.inferred ("@, self.inferred),
                    unit_fault("trust_weights.imported ("@, self.imported),
                ),
            ),
        )
    }

    /// Checks that each weight lies between zero and one.
    pub fn validate(&self) -> (r: Result<(), ConfigError>)
        ensures
            finds(r, self.fault()),
    {
        check_unit("trust_weights.human (", self.human)?;
        check_unit("trust_weights.agent (", self.agent)?;
        check_unit("trust_weights.inferred (", self.inferred)?;
        check_unit("trust_weights.imported (", self.imported)
    }
}

/// Search.
#[derive(Debug, Clone, Copy)]
pub struct SearchConfig {
    /// Weight of semantic similarity.
    pub semantic_weight: Binary64,
    /// Results that score below this are left out.
    pub threshold: Binary64,
}

impl SearchConfig {
    /// Whether every setting has its default value.
    pub open spec fn is_standard(self) -> bool {
        &&& self.semantic_weight == (Binary64 { bits: THREE })
        &&& self.threshold == (Binary64 { bits: TWO_TENTHS })
    }
}

impl Default for SearchConfig {
    fn default() -> (r: Self)
        ensures
            r.is_standard(),
    {
        SearchConfig {
            semantic_weight: Binary64 { bits: THREE },
            threshold: Binary64 { bits: TWO_TENTHS },
        }
    }
}

impl SearchConfig {
    /// Scores are not negative, so a negative threshold would disable the
    /// filter, and so would one that is no number. One above the largest score
    /// is tolerated.
    pub open spec fn fault(self) -> Option<Fault> {
        if self.threshold.is_nan() || self.threshold.below_zero() {
            number_fault("search.threshold ("@, self.threshold, ") must be >= 0.0"@)
        } else {
            None
        }
    }

    fn validate(&self) -> (r: Result<(), ConfigError>)
        ensures
            finds(r, self.fault()),
    {
        if self.threshold.nan() || self.threshold.negative() {
            Err(ConfigError::number("search.threshold (", self.threshold, ") must be >= 0.0"))
        } else {
            Ok(())
        }
    }
}

/// Score thresholds.
#[derive(Debug, Clone, Copy)]
pub struct ThresholdsConfig {
    /// For the status of needing review.
    pub needs_review: Binary64,
    /// For garbage collection.
    pub gc: Binary64,
    /// For compression.
    pub compress: Binary64,
}

impl ThresholdsConfig {
    /// Whether every setting has its default value.
    pub open spec fn is_standard(self) -> bool {
        &&& self.needs_review == (Binary64 { bits: THREE_TENTHS })
        &&& self.gc == (Binary64 { bits: FIVE_HUNDREDTHS })
        &&& self.compress == (Binary64 { bits: FOUR_TENTHS })
    }
}

impl Default for ThresholdsConfig {
    fn default() -> (r: Self)
        ensures
            r.is_standard(),
    {
        ThresholdsConfig {
            needs_review: Binary64 { bits: THREE_TENTHS },
            gc: Binary64 { bits: FIVE_HUNDREDTHS },
            compress: Binary64 { bits: FOUR_TENTHS },
        }
    }
}

// ---------------------------------------------------------------------------
// Review
// ---------------------------------------------------------------------------

/// Suggestions to review memories that have not been touched for long.
#[derive(Debug, Clone, Copy, PartialEq, Eq, Structural)]
pub struct ReviewConfig {
    /// After how many days without an update; `None` for never.
    pub recency_days: Option<u64>,
}

/// Days before an untouched memory is suggested for review.
pub fn default_review_recency_days() -> (r: Option<u64>)
    ensures
        r == Some(90u64),
{
    Some(90)
}

impl ReviewConfig {
    /// Whether every setting has its default value.
    pub open spec fn is_standard(self) -> bool {
        self.recency_days == Some(90u64)
    }

    /// Zero days are ambiguous, and ten years are the most.
    pub open spec fn fault(self) -> Option<Fault> {
        match self.recency_days {
            Some(days) => if days == 0 {
                plain_fault(
                    "review.recency_days must be >= 1 (0 is ambiguous). Set a positive number of days, or omit the field to use the default (90)."@,
                )
            } else if days > 3650 {
                plain_fault(
                    "review.recency_days ("@ + crate::text::decimal(days as nat)
                        + ") must be <= 3650"@,
                )
            } else {
                None
            },
            None => None,
        }
    }

    /// Checks the number of days.
    pub fn validate(&self) -> (r: Result<(), ConfigError>)
        ensures
            finds(r, self.fault()),
    {
        if let Some(days) = self.recency_days {
            if days == 0 {
                return Err(
                    ConfigError::plain(
                        "review.recency_days must be >= 1 (0 is ambiguous). Set a positive number of days, or omit the field to use the default (90).",
                    ),
                );
            }
            if days > 3650 {
                let text = concat3(
                    "review.recency_days (",
                    decimal_text(days).as_str(),
                    ") must be <= 3650",
                );
                return Err(ConfigError::plain(text.as_str()));
            }
        }
        Ok(())
    }
}

impl Default for ReviewConfig {
    fn default() -> (r: Self)
        ensures
            r.is_standard(),
    {
        ReviewConfig { recency_days: default_review_recency_days() }
    }
}

// ---------------------------------------------------------------------------
// Retrieval
// ---------------------------------------------------------------------------

/// Retrieval.
#[derive(Debug, Clone, Copy)]
pub struct RetrievalConfig {
    /// Least relevance.
    pub relevance_threshold: Binary64,
    /// Most results.
    pub max_results: usize,
    /// Whether expired memories are included.
    pub include_expired: bool,
    /// Scoring.
    pub scoring: ScoringConfig,
}

impl RetrievalConfig {
    /// Whether every setting has its default value.
    pub open spec fn is_standard(self) -> bool {
        &&& self.relevance_threshold == (Binary64 { bits: FORTY_FIVE_HUNDREDTHS })
        &&& self.max_results == 10
        &&& !self.include_expired
        &&& self.scoring.is_standard()
    }
}

impl Default for RetrievalConfig {
    fn default() -> (r: Self)
        ensures
            r.is_standard(),
    {
        RetrievalConfig {
            relevance_threshold: Binary64 { bits: FORTY_FIVE_HUNDREDTHS },
            max_results: 10,
            include_expired: false,
            scoring: ScoringConfig::default(),
        }
    }
}

// ---------------------------------------------------------------------------
// Embeddings
// ---------------------------------------------------------------------------

/// What runs the embedding model.
#[derive(Debug, Clone, Copy, PartialEq, Eq, Structural)]
pub enum EmbeddingBackend {
    /// The local runtime, or else a server.
    Auto,
    /// Only the local runtime.
    Onnx,
    /// Only a server.
    Ollama,
    /// Only the engine without native code.
    Tract,
}

impl Default for EmbeddingBackend {
    fn default() -> (r: Self)
        ensures
            r == EmbeddingBackend::Auto,
    {
        EmbeddingBackend::Auto
    }
}

impl EmbeddingBackend {
    pub open spec fn name(self) -> Seq<char> {
        match self {
            EmbeddingBackend::Auto => "auto"@,
            EmbeddingBackend::Onnx => "onnx"@,
            EmbeddingBackend::Ollama => "ollama"@,
            EmbeddingBackend::Tract => "tract"@,
        }
    }

    /// Stable lowercase name.
    pub fn as_str(&self) -> (r: &'static str)
        ensures
            r@ == self.name(),
    {
        match self {
            EmbeddingBackend::Auto => "auto",
            EmbeddingBackend::Onnx => "onnx",
            EmbeddingBackend::Ollama => "ollama",
            EmbeddingBackend::Tract => "tract",
        }
    }

    /// What reading a name gives, for the name in lowercase.
    pub open spec fn reads(low: Seq<char>, r: Result<EmbeddingBackend, String>) -> bool {
        match r {
            Ok(b) => low == b.name(),
            Err(m) => (forall|b: EmbeddingBackend| low != #[trigger] b.name()) && m@
                == "unknown embedding backend '"@ + low
                + "': expected auto, onnx, ollama, or tract"@,
        }
    }

    /// Reads a name, in any case.
    pub fn from_name(s: &str) -> (r: Result<EmbeddingBackend, String>)
        ensures
            EmbeddingBackend::reads(crate::text::unicode_lowercase(s@), r),
            crate::text::is_ascii_text(s@) ==> EmbeddingBackend::reads(
                crate::text::ascii_lowercase(s@),
                r,
            ),
    {
        let lowered = to_lowercase(s);
        let low = lowered.as_str();
        if same_text(low, "auto") {
            Ok(EmbeddingBackend::Auto)
        } else if same_text(low, "onnx") {
            Ok(EmbeddingBackend::Onnx)
        } else if same_text(low, "ollama") {
            Ok(EmbeddingBackend::Ollama)
        } else if same_text(low, "tract") {
            Ok(EmbeddingBackend::Tract)
        } else {
            Err(
                concat3(
                    "unknown embedding backend '",
                    low,
                    "': expected auto, onnx, ollama, or tract",
                ),
            )
        }
    }
}

impl FromStr for EmbeddingBackend {
    type Err = String;

    /// Reads a name, in any case.
    fn from_str(s: &str) -> (r: Result<Self, Self::Err>)
        ensures
            EmbeddingBackend::reads(crate::text::unicode_lowercase(s@), r),
            crate::text::is_ascii_text(s@) ==> EmbeddingBackend::reads(
                crate::text::ascii_lowercase(s@),
                r,
            ),
    {
        EmbeddingBackend::from_name(s)
    }
}

/// A backend is read back from its own name.
pub proof fn backend_name_reads_back(b: EmbeddingBackend, r: Result<EmbeddingBackend, String>)
    requires
        EmbeddingBackend::reads(crate::text::ascii_lowercase(b.name()), r),
    ensures
        crate::text::is_ascii_text(b.name()),
        r == Ok::<EmbeddingBackend, String>(b),
{
    reveal_strlit("auto");
    reveal_strlit("onnx");
    reveal_strlit("ollama");
    reveal_strlit("tract");
    assert("auto"@[0] != "onnx"@[0]);
    assert(crate::text::ascii_lowercase(b.name()) =~= b.name());
}

/// What to do when a store was embedded by another model than the one in use.
#[derive(Debug, Clone, Copy, PartialEq, Eq, Structural)]
pub enum ReindexOnModelChange {
    /// Nothing.
    Off,
    /// Warn and keep serving.
    Warn,
    /// Warn, and reindex before serving.
    Auto,
    /// Refuse what depends on embeddings until the store is reindexed.
    Error,
}

impl Default for ReindexOnModelChange {
    fn default() -> (r: Self)
        ensures
            r == ReindexOnModelChange::Warn,
    {
        ReindexOnModelChange::Warn
    }
}

/// Embeddings.
#[derive(Debug, Clone)]
pub struct EmbeddingsConfig {
    /// What runs the model.
    pub backend: EmbeddingBackend,
    /// Name of the model.
    pub provider: String,
    /// Dimensions of a vector.
    pub dimensions: usize,
    /// Most tokens of an input.
    pub max_tokens: usize,
    /// What to do when the model has changed.
    pub reindex_on_model_change: ReindexOnModelChange,
    /// Number of model sessions; `None` to size by the machine.
    pub pool_size: Option<usize>,
}

impl EmbeddingsConfig {
    /// Whether every setting has its default value.
    pub open spec fn is_standard(self) -> bool {
        &&& self.backend == EmbeddingBackend::Auto
        &&& self.provider@ == "onnx"@
        &&& self.dimensions == 384
        &&& self.max_tokens == 256
        &&& self.reindex_on_model_change == ReindexOnModelChange::Warn
        &&& self.pool_size is None
    }
}

impl Default for EmbeddingsConfig {
    fn default() -> (r: Self)
        ensures
            r.is_standard(),
    {
        EmbeddingsConfig {
            backend: EmbeddingBackend::default(),
            provider: "onnx".to_owned(),
            dimensions: 384,
            max_tokens: 256,
            reindex_on_model_change: ReindexOnModelChange::default(),
            pool_size: None,
        }
    }
}

impl EmbeddingsConfig {
    /// The number of sessions on a machine with `cores` processors: as
    /// configured, else half of them, and one at least.
    pub fn resolved_pool_size(&self, cores: usize) -> (r: usize)
        ensures
            r == ({
                let n = match self.pool_size {
                    Some(n) => n as int,
                    None => cores as int / 2,
                };
                if n < 1 {
                    1
                } else {
                    n
                }
            }),
    {
        let n: usize = match self.pool_size {
            Some(n) => n,
            None => cores / 2,
        };
        if n < 1 {
            1
        } else {
            n
        }
    }

    /// A vector has one to 4096 dimensions.
    pub open spec fn fault(self) -> Option<Fault> {
        if self.dimensions == 0 || self.dimensions > 4096 {
            plain_fault(
                "embeddings.dimensions ("@ + crate::text::decimal(self.dimensions as nat)
                    + ") must be in (0, 4096]"@,
            )
        } else {
            None
        }
    }

    fn validate(&self) -> (r: Result<(), ConfigError>)
        ensures
            finds(r, self.fault()),
    {
        if self.dimensions == 0 || self.dimensions > 4096 {
            let text = concat3(
                "embeddings.dimensions (",
                decimal_text(self.dimensions as u64).as_str(),
                ") must be in (0, 4096]",
            );
            Err(ConfigError::plain(text.as_str()))
        } else {
            Ok(())
        }
    }
}

// ---------------------------------------------------------------------------
// Contradiction detection and reranking
// ---------------------------------------------------------------------------

/// Contradiction detection.
#[derive(Debug, Clone)]
pub struct NliConfig {
    /// Whether it is on.
    pub enabled: bool,
    /// Repository of the model.
    pub model: String,
    /// Least probability of a contradiction.
    pub contradiction_threshold: Binary64,
    /// Most memories to compare with.
    pub max_comparisons: usize,
    /// Least similarity of a memory to compare with.
    pub similarity_threshold: Binary64,
}

impl NliConfig {
    /// Whether every setting has its default value.
    pub open spec fn is_standard(self) -> bool {
        &&& !self.enabled
        &&& self.model@ == DEFAULT_NLI_MODEL_REPO@
        &&& self.contradiction_threshold == (Binary64 { bits: SEVEN_TENTHS })
        &&& self.max_comparisons == 10
        &&& self.similarity_threshold == (Binary64 { bits: THREE_TENTHS })
    }
}

impl Default for NliConfig {
    fn default() -> (r: Self)
        ensures
            r.is_standard(),
    {
        NliConfig {
            enabled: false,
            model: DEFAULT_NLI_MODEL_REPO.to_owned(),
            contradiction_threshold: Binary64 { bits: SEVEN_TENTHS },
            max_comparisons: 10,
            similarity_threshold: Binary64 { bits: THREE_TENTHS },
        }
    }
}

impl NliConfig {
    /// Both thresholds lie between zero and one, and something is compared.
    pub open spec fn fault(self) -> Option<Fault> {
        first(
            unit_fault("nli.contradiction_threshold ("@, self.contradiction_threshold),
            first(
                unit_fault("nli.similarity_threshold ("@, self.similarity_threshold),
                if self.max_comparisons == 0 {
                    plain_fault("nli.max_comparisons must be > 0"@)
                } else {
                    None
                },
            ),
        )
    }

    /// Checks the thresholds and the number of comparisons.
    pub fn validate(&self) -> (r: Result<(), ConfigError>)
        ensures
            finds(r, self.fault()),
    {
        check_unit("nli.contradiction_threshold (", self.contradiction_threshold)?;
        check_unit("nli.similarity_threshold (", self.similarity_threshold)?;
        if self.max_comparisons == 0 {
            return Err(ConfigError::plain("nli.max_comparisons must be > 0"));
        }
        Ok(())
    }
}

/// Reranking by a cross-encoder.
#[derive(Debug, Clone)]
pub struct RerankConfig {
    /// Whether it is on.
    pub enabled: bool,
    /// Name of the model.
    pub model: String,
    /// Number of candidates to rerank.
    pub top_n: usize,
    /// Weight of the new score against the old.
    pub weight: Binary64,
}

impl RerankConfig {
    /// Whether every setting has its default value.
    pub open spec fn is_standard(self) -> bool {
        &&& !self.enabled
        &&& self.model@ == "bge-reranker-base"@
        &&& self.top_n == 50
        &&& self.weight == (Binary64 { bits: ONE_HALF })
    }
}

impl Default for RerankConfig {
    fn default() -> (r: Self)
        ensures
            r.is_standard(),
    {
        RerankConfig {
            enabled: false,
            model: "bge-reranker-base".to_owned(),
            top_n: 50,
            weight: Binary64 { bits: ONE_HALF },
        }
    }
}

impl RerankConfig {
    /// The weight lies between zero and one, and something is reranked.
    pub open spec fn fault(self) -> Option<Fault> {
        first(
            unit_fault("rerank.weight ("@, self.weight),
            if self.top_n == 0 {
                plain_fault("rerank.top_n must be > 0"@)
            } else {
                None
            },
        )
    }

    /// Checks the weight and the number of candidates.
    pub fn validate(&self) -> (r: Result<(), ConfigError>)
        ensures
            finds(r, self.fault()),
    {
        check_unit("rerank.weight (", self.weight)?;
        if self.top_n == 0 {
            return Err(ConfigError::plain("rerank.top_n must be > 0"));
        }
        Ok(())
    }
}

// ---------------------------------------------------------------------------
// Titles
// ---------------------------------------------------------------------------

/// How titles are made unless a call says otherwise. The model is loaded once
/// for the whole machine, so it costs a single command nothing.
pub fn default_title_strategy() -> (r: TitleStrategy)
    ensures
        r == TitleStrategy::T5,
{
    TitleStrategy::T5
}

/// Titles.
#[derive(Debug, Clone, Copy)]
pub struct TitleConfig {
    /// How they are made.
    pub strategy: TitleStrategy,
    /// Number of model sessions; `None` for two.
    pub pool_size: Option<usize>,
}

impl TitleConfig {
    /// Whether every setting has its default value.
    pub open spec fn is_standard(self) -> bool {
        &&& self.strategy == TitleStrategy::T5
        &&& self.pool_size is None
    }
}

impl Default for TitleConfig {
    fn default() -> (r: Self)
        ensures
            r.is_standard(),
    {
        TitleConfig {
            strategy: default_title_strategy(),
            pool_size: None,
        }
    }
}

impl TitleConfig {
    /// The number of sessions on a machine with `cores` processors: as
    /// configured, else two, but one at least and no more than processors.
    pub fn resolved_pool_size(&self, cores: usize) -> (r: usize)
        ensures
            r == ({
                let most = if cores < 1 {
                    1
                } else {
                    cores as int
                };
                let n = match self.pool_size {
                    Some(n) => n as int,
                    None => 2,
                };
                if n < 1 {
                    1
                } else if n > most {
                    most
                } else {
                    n
                }
            }),
    {
        let most: usize = if cores < 1 {
            1
        } else {
            cores
        };
        let n: usize = match self.pool_size {
            Some(n) => n,
            None => 2,
        };
        if n < 1 {
            1
        } else if n > most {
            most
        } else {
            n
        }
    }
}

// ---------------------------------------------------------------------------
// Daemon, maintenance, security
// ---------------------------------------------------------------------------

/// The shared embedding daemon.
#[derive(Debug, Clone)]
pub struct DaemonConfig {
    /// Whether model inference is delegated to it.
    pub enabled: bool,
    /// Seconds without a connection after which it exits.
    pub idle_timeout_secs: u64,
    /// Socket path; `None` for the user's default.
    pub socket_path: Option<String>,
    /// Whether one-shot commands use it too.
    pub use_for_cli: bool,
}

/// The daemon is on.
pub fn default_daemon_enabled() -> (r: bool)
    ensures
        r == true,
{
    true
}

/// It exits after a quarter of an hour.
pub fn default_daemon_idle_timeout_secs() -> (r: u64)
    ensures
        r == 900,
{
    900
}

/// One-shot commands use it.
pub fn default_daemon_use_for_cli() -> (r: bool)
    ensures
        r == true,
{
    true
}

impl DaemonConfig {
    /// Whether every setting has its default value.
    pub open spec fn is_standard(self) -> bool {
        &&& self.enabled
        &&& self.idle_timeout_secs == 900
        &&& self.socket_path is None
        &&& self.use_for_cli
    }
}

impl Default for DaemonConfig {
    fn default() -> (r: Self)
        ensures
            r.is_standard(),
    {
        DaemonConfig {
            enabled: default_daemon_enabled(),
            idle_timeout_secs: default_daemon_idle_timeout_secs(),
            socket_path: None,
            use_for_cli: default_daemon_use_for_cli(),
        }
    }
}

impl DaemonConfig {
    /// A timeout below a minute would let the daemon exit between two pings.
    pub open spec fn fault(self) -> Option<Fault> {
        if self.idle_timeout_secs < 60 {
            plain_fault(
                "daemon.idle_timeout_secs must be >= 60 (got "@ + crate::text::decimal(
                    self.idle_timeout_secs as nat,
                )
                    + "): the MCP heartbeat pings at most every 30s, so a smaller idle timeout makes the daemon idle-reap and respawn between pings"@,
            )
        } else {
            None
        }
    }

    /// Checks the timeout.
    pub fn validate(&self) -> (r: Result<(), ConfigError>)
        ensures
            finds(r, self.fault()),
    {
        if self.idle_timeout_secs < 60 {
            let text = concat3(
                "daemon.idle_timeout_secs must be >= 60 (got ",
                decimal_text(self.idle_timeout_secs).as_str(),
                "): the MCP heartbeat pings at most every 30s, so a smaller idle timeout makes the daemon idle-reap and respawn between pings",
            );
            return Err(ConfigError::plain(text.as_str()));
        }
        Ok(())
    }
}

/// Automatic housekeeping.
#[derive(Debug, Clone, Copy)]
pub struct MaintenanceConfig {
    /// Whether it runs.
    pub enabled: bool,
    /// Least seconds between two passes.
    pub interval_secs: u64,
}

/// Housekeeping runs.
pub fn default_maintenance_enabled() -> (r: bool)
    ensures
        r == true,
{
    true
}

/// Six hours lie between two passes.
pub fn default_maintenance_interval_secs() -> (r: u64)
    ensures
        r == 21_600,
{
    21_600
}

impl MaintenanceConfig {
    /// Whether every setting has its default value.
    pub open spec fn is_standard(self) -> bool {
        &&& self.enabled
        &&& self.interval_secs == 21_600
    }
}

impl Default for MaintenanceConfig {
    fn default() -> (r: Self)
        ensures
            r.is_standard(),
    {
        MaintenanceConfig {
            enabled: default_maintenance_enabled(),
            interval_secs: default_maintenance_interval_secs(),
        }
    }
}

/// Access control.
#[derive(Debug, Clone, Copy)]
pub struct SecurityConfig {
    /// Whether a session may write to another registered project.
    pub allow_cross_project_writes: bool,
}

/// A session may write to another project.
pub fn default_allow_cross_project_writes() -> (r: bool)
    ensures
        r == true,
{
    true
}

impl SecurityConfig {
    /// Whether every setting has its default value.
    pub open spec fn is_standard(self) -> bool {
        &&& self.allow_cross_project_writes
    }
}

impl Default for SecurityConfig {
    fn default() -> (r: Self)
        ensures
            r.is_standard(),
    {
        SecurityConfig {
            allow_cross_project_writes: default_allow_cross_project_writes(),
        }
    }
}

impl SecurityConfig {
    /// Every setting is valid.
    pub fn validate(&self) -> (r: Result<(), ConfigError>)
        ensures
            finds(r, None),
    {
        Ok(())
    }
}

// ---------------------------------------------------------------------------
// Statistics
// ---------------------------------------------------------------------------

/// Statistics.
#[derive(Debug, Clone, Copy, PartialEq, Eq, Structural)]
pub struct StatsConfig {
    /// Whether they are collected.
    pub enabled: bool,
    /// Samples that a histogram holds.
    pub histogram_capacity: usize,
    /// Days for which events are kept; `None` for ever.
    pub retention_days: Option<u64>,
    /// Seconds between two flushes.
    pub flush_interval_secs: u64,
    /// Seconds within which a query follows up on another.
    pub followup_window_secs: u64,
    /// Sessions tracked in a project.
    pub max_sessions_per_project: usize,
}

/// Statistics are collected.
pub fn default_stats_enabled() -> (r: bool)
    ensures
        r == true,
{
    true
}

/// Samples that a histogram holds.
pub fn default_histogram_capacity() -> (r: usize)
    ensures
        r == 256,
{
    256
}

/// Seconds between two flushes.
pub fn default_flush_interval_secs() -> (r: u64)
    ensures
        r == 60,
{
    60
}

/// Events are kept for ninety days, so that the log cannot grow without bound.
pub fn default_retention_days() -> (r: Option<u64>)
    ensures
        r == Some(90u64),
{
    Some(90)
}

/// Seconds within which a query follows up on another.
pub fn default_followup_window_secs() -> (r: u64)
    ensures
        r == 60,
{
    60
}

/// Sessions tracked in a project.
pub fn default_max_sessions_per_project() -> (r: usize)
    ensures
        r == 10_000,
{
    10_000
}

impl StatsConfig {
    /// Whether every setting has its default value.
    pub open spec fn is_standard(self) -> bool {
        &&& self.enabled
        &&& self.histogram_capacity == 256
        &&& self.retention_days == Some(90u64)
        &&& self.flush_interval_secs == 60
        &&& self.followup_window_secs == 60
        &&& self.max_sessions_per_project == 10_000
    }
}

impl Default for StatsConfig {
    fn default() -> (r: Self)
        ensures
            r.is_standard(),
    {
        StatsConfig {
            enabled: default_stats_enabled(),
            histogram_capacity: default_histogram_capacity(),
            retention_days: default_retention_days(),
            flush_interval_secs: default_flush_interval_secs(),
            followup_window_secs: default_followup_window_secs(),
            max_sessions_per_project: default_max_sessions_per_project(),
        }
    }
}

impl StatsConfig {
    /// No setting is zero, and events are kept for ten years at most.
    pub open spec fn fault(self) -> Option<Fault> {
        if self.histogram_capacity == 0 {
            plain_fault("stats.histogram_capacity must be > 0"@)
        } else if self.flush_interval_secs == 0 {
            plain_fault("stats.flush_interval_secs must be >= 1"@)
        } else if self.followup_window_secs == 0 {
            plain_fault("stats.followup_window_secs must be >= 1"@)
        } else if self.max_sessions_per_project == 0 {
            plain_fault("stats.max_sessions_per_project must be >= 1"@)
        } else {
            match self.retention_days {
                Some(days) => if days == 0 {
                    plain_fault(
                        "stats.retention_days must be >= 1 (0 is ambiguous). Set a positive number of days to prune older events, or 3650 (the maximum, 10 years) to effectively retain forever."@,
                    )
                } else if days > 3650 {
                    plain_fault(
                        "stats.retention_days ("@ + crate::text::decimal(days as nat)
                            + ") must be <= 3650"@,
                    )
                } else {
                    None
                },
                None => None,
            }
        }
    }

    /// Checks the settings.
    pub fn validate(&self) -> (r: Result<(), ConfigError>)
        ensures
            finds(r, self.fault()),
    {
        if self.histogram_capacity == 0 {
            return Err(ConfigError::plain("stats.histogram_capacity must be > 0"));
        }
        if self.flush_interval_secs == 0 {
            return Err(ConfigError::plain("stats.flush_interval_secs must be >= 1"));
        }
        if self.followup_window_secs == 0 {
            return Err(ConfigError::plain("stats.followup_window_secs must be >= 1"));
        }
        if self.max_sessions_per_project == 0 {
            return Err(ConfigError::plain("stats.max_sessions_per_project must be >= 1"));
        }
        if let Some(days) = self.retention_days {
            if days == 0 {
                return Err(
                    ConfigError::plain(
                        "stats.retention_days must be >= 1 (0 is ambiguous). Set a positive number of days to prune older events, or 3650 (the maximum, 10 years) to effectively retain forever.",
                    ),
                );
            }
            if days > 3650 {
                let text = concat3(
                    "stats.retention_days (",
                    decimal_text(days).as_str(),
                    ") must be <= 3650",
                );
                return Err(ConfigError::plain(text.as_str()));
            }
        }
        Ok(())
    }
}

// ---------------------------------------------------------------------------
// The whole configuration
// ---------------------------------------------------------------------------

/// The whole configuration.
#[derive(Debug, Clone)]
pub struct EngramConfig {
    /// Retrieval.
    pub retrieval: RetrievalConfig,
    /// Search.
    pub search: SearchConfig,
    /// Embeddings.
    pub embeddings: EmbeddingsConfig,
    /// Bonuses for physical scope.
    pub scope_proximity: ScopeProximityConfig,
    /// Bonuses for logical scope.
    pub logical_bonus: LogicalBonusConfig,
    /// Trust by provenance.
    pub trust_weights: TrustWeights,
    /// Score thresholds.
    pub thresholds: ThresholdsConfig,
    /// Suggestions to review.
    pub review: ReviewConfig,
    /// Contradiction detection.
    pub nli: NliConfig,
    /// Reranking.
    pub rerank: RerankConfig,
    /// Statistics.
    pub stats: StatsConfig,
    /// The shared daemon.
    pub daemon: DaemonConfig,
    /// Titles.
    pub title: TitleConfig,
    /// Automatic housekeeping.
    pub maintenance: MaintenanceConfig,
    /// Access control.
    pub security: SecurityConfig,
}

impl EngramConfig {
    /// Whether every setting has its default value.
    pub open spec fn is_standard(self) -> bool {
        &&& self.retrieval.is_standard()
        &&& self.search.is_standard()
        &&& self.embeddings.is_standard()
        &&& self.scope_proximity.is_standard()
        &&& self.logical_bonus.is_standard()
        &&& self.trust_weights.is_standard()
        &&& self.thresholds.is_standard()
        &&& self.review.is_standard()
        &&& self.nli.is_standard()
        &&& self.rerank.is_standard()
        &&& self.stats.is_standard()
        &&& self.daemon.is_standard()
        &&& self.title.is_standard()
        &&& self.maintenance.is_standard()
        &&& self.security.is_standard()
    }
}

impl Default for EngramConfig {
    fn default() -> (r: Self)
        ensures
            r.is_standard(),
    {
        EngramConfig {
            retrieval: RetrievalConfig::default(),
            search: SearchConfig::default(),
            embeddings: EmbeddingsConfig::default(),
            scope_proximity: ScopeProximityConfig::default(),
            logical_bonus: LogicalBonusConfig::default(),
            trust_weights: TrustWeights::default(),
            thresholds: ThresholdsConfig::default(),
            review: ReviewConfig::default(),
            nli: NliConfig::default(),
            rerank: RerankConfig::default(),
            stats: StatsConfig::default(),
            daemon: DaemonConfig::default(),
            title: TitleConfig::default(),
            maintenance: MaintenanceConfig::default(),
            security: SecurityConfig::default(),
        }
    }
}

impl RetrievalConfig {
    /// The first multiplier, penalty or decay that does not lie between zero
    /// and one.
    pub open spec fn scoring_fault(self) -> Option<Fault> {
        first(
            bare_unit_fault(
                "scoring.scope_multiplier_floor must be in [0.0, 1.0]"@,
                self.scoring.scope_multiplier_floor,
            ),
            first(
                bare_unit_fault(
                    "scoring.trust_multiplier_floor must be in [0.0, 1.0]"@,
                    self.scoring.trust_multiplier_floor,
                ),
                first(
                    bare_unit_fault(
                        "scoring.challenge_penalty must be in [0.0, 1.0]"@,
                        self.scoring.challenge_penalty,
                    ),
                    first(
                        bare_unit_fault(
                            "scoring.depth_decay_base must be in [0.0, 1.0]"@,
                            self.scoring.depth_decay_base,
                        ),
                        bare_unit_fault(
                            "scoring.depth_decay_floor must be in [0.0, 1.0]"@,
                            self.scoring.depth_decay_floor,
                        ),
                    ),
                ),
            ),
        )
    }

    fn validate_scoring(&self) -> (r: Result<(), ConfigError>)
        ensures
            finds(r, self.scoring_fault()),
    {
        check_bare_unit(
            "scoring.scope_multiplier_floor must be in [0.0, 1.0]",
            self.scoring.scope_multiplier_floor,
        )?;
        check_bare_unit(
            "scoring.trust_multiplier_floor must be in [0.0, 1.0]",
            self.scoring.trust_multiplier_floor,
        )?;
        check_bare_unit(
            "scoring.challenge_penalty must be in [0.0, 1.0]",
            self.scoring.challenge_penalty,
        )?;
        check_bare_unit(
            "scoring.depth_decay_base must be in [0.0, 1.0]",
            self.scoring.depth_decay_base,
        )?;
        check_bare_unit(
            "scoring.depth_decay_floor must be in [0.0, 1.0]",
            self.scoring.depth_decay_floor,
        )
    }

    /// Something is returned.
    pub open spec fn results_fault(self) -> Option<Fault> {
        if self.max_results == 0 {
            plain_fault("retrieval.max_results must be > 0"@)
        } else {
            None
        }
    }
}

impl ScoringConfig {
    /// The first mode whose weights, with the given sums, do not sum to one.
    pub open spec fn weights_fault(sums: WeightSums) -> Option<Fault> {
        first(
            ScoringWeights::fault("with_query"@, sums.with_query),
            first(
                ScoringWeights::fault("with_keyword"@, sums.with_keyword),
                first(
                    ScoringWeights::fault("scope_only"@, sums.scope_only),
                    ScoringWeights::fault("degraded"@, sums.degraded),
                ),
            ),
        )
    }

    fn validate_weights(&self, sums: &WeightSums) -> (r: Result<(), ConfigError>)
        ensures
            finds(r, ScoringConfig::weights_fault(*sums)),
    {
        self.with_query.validate("with_query", sums.with_query)?;
        self.with_keyword.validate("with_keyword", sums.with_keyword)?;
        self.scope_only.validate("scope_only", sums.scope_only)?;
        self.degraded.validate("degraded", sums.degraded)
    }
}

impl EngramConfig {
    /// The faults of the sections, in the order in which they are checked.
    pub open spec fn section_fault(self, sums: WeightSums) -> Option<Fault> {
        first(
            ScoringConfig::weights_fault(sums),
            first(
                self.trust_weights.fault(),
                first(
                    self.nli.fault(),
                    first(
                        self.rerank.fault(),
                        first(
                            self.stats.fault(),
                            first(self.daemon.fault(), self.review.fault()),
                        ),
                    ),
                ),
            ),
        )
    }

    /// The faults of single settings, in the order in which they are checked.
    pub open spec fn setting_fault(self) -> Option<Fault> {
        first(
            self.retrieval.scoring_fault(),
            first(
                self.embeddings.fault(),
                first(
                    self.retrieval.results_fault(),
                    first(
                        unit_fault("thresholds.gc ("@, self.thresholds.gc),
                        first(
                            unit_fault("thresholds.compress ("@, self.thresholds.compress),
                            self.search.fault(),
                        ),
                    ),
                ),
            ),
        )
    }

    /// The first fault of the configuration, with the given sums of weights.
    pub open spec fn fault(self, sums: WeightSums) -> Option<Fault> {
        first(self.section_fault(sums), self.setting_fault())
    }

    fn validate_sections(&self, sums: &WeightSums) -> (r: Result<(), ConfigError>)
        ensures
            finds(r, self.section_fault(*sums)),
    {
        self.retrieval.scoring.validate_weights(sums)?;
        self.trust_weights.validate()?;
        self.nli.validate()?;
        self.rerank.validate()?;
        self.stats.validate()?;
        self.daemon.validate()?;
        self.security.validate()?;
        self.review.validate()
    }

    fn validate_settings(&self) -> (r: Result<(), ConfigError>)
        ensures
            finds(r, self.setting_fault()),
    {
        self.retrieval.validate_scoring()?;
        self.embeddings.validate()?;
        if self.retrieval.max_results == 0 {
            return Err(ConfigError::plain("retrieval.max_results must be > 0"));
        }
        check_unit("thresholds.gc (", self.thresholds.gc)?;
        check_unit("thresholds.compress (", self.thresholds.compress)?;
        self.search.validate()
    }

    /// Checks all sections. `sums` are the sums of the weights of the four
    /// modes; the first fault is the one that is reported.
    pub fn validate(&self, sums: &WeightSums) -> (r: Result<(), ConfigError>)
        ensures
            finds(r, self.fault(*sums)),
    {
        self.validate_sections(sums)?;
        self.validate_settings()
    }
}

/// The default configuration is valid, as long as its weights sum to one in
/// each mode.
pub proof fn the_default_configuration_is_valid(c: EngramConfig, sums: WeightSums)
    requires
        c.is_standard(),
        sums.with_query.near_one(),
        sums.with_keyword.near_one(),
        sums.scope_only.near_one(),
        sums.degraded.near_one(),
    ensures
        c.fault(sums) is None,
{
}

/// A configuration that is accepted has no score or share outside its range.
pub proof fn an_accepted_configuration_is_in_range(c: EngramConfig, sums: WeightSums)
    requires
        c.fault(sums) is None,
    ensures
        sums.with_query.near_one(),
        sums.with_keyword.near_one(),
        sums.scope_only.near_one(),
        sums.degraded.near_one(),
        c.trust_weights.human.in_unit(),
        c.trust_weights.agent.in_unit(),
        c.trust_weights.inferred.in_unit(),
        c.trust_weights.imported.in_unit(),
        c.nli.contradiction_threshold.in_unit(),
        c.nli.similarity_threshold.in_unit(),
        c.rerank.weight.in_unit(),
        c.retrieval.scoring.scope_multiplier_floor.in_unit(),
        c.retrieval.scoring.trust_multiplier_floor.in_unit(),
        c.retrieval.scoring.challenge_penalty.in_unit(),
        c.retrieval.scoring.depth_decay_base.in_unit(),
        c.retrieval.scoring.depth_decay_floor.in_unit(),
        c.thresholds.gc.in_unit(),
        c.thresholds.compress.in_unit(),
        !c.search.threshold.is_nan(),
        !c.search.threshold.below_zero(),
        0 < c.embeddings.dimensions <= 4096,
        c.retrieval.max_results > 0,
        c.daemon.idle_timeout_secs >= 60,
{
}

} // verus!
