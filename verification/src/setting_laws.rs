//! What holds of the settings, their names and their bounds.
use vstd::prelude::*;

use crate::binary64::Binary64;
use crate::config::{
    DaemonConfig, EmbeddingBackend, EmbeddingsConfig, EngramConfig, Fault, NliConfig,
    ReindexOnModelChange, RerankConfig, RetrievalConfig, ReviewConfig, ScoringWeights,
    SearchConfig, StatsConfig, TrustWeights, WeightSums,
};
use crate::env::is_truthy_text;
use crate::epistemic::{Epistemic, Generality, Situation, ValidityView};
use crate::project_list_grouping::ProjectListGrouping;
use crate::recall::{is_ranking, ranking};
use crate::title_strategy::TitleStrategy;

verus! {

broadcast use vstd::string::group_string_axioms;

// ---------------------------------------------------------------------------
// Numbers
// ---------------------------------------------------------------------------

/// What the bits of a number say of it: the patterns from zero to one are in the
/// unit interval, and so is the negative zero; those behind the negative zero, down
/// to the negative infinity, are below zero; those behind either infinity are no
/// numbers.
pub proof fn the_bits_of_a_number_order_it(n: Binary64)
    ensures
        n.in_unit() <==> n.bits <= 0x3ff0_0000_0000_0000 || n.bits == 0x8000_0000_0000_0000,
        n.below_zero() <==> 0x8000_0000_0000_0000 < n.bits <= 0xfff0_0000_0000_0000,
        n.is_nan() <==> (0x7ff0_0000_0000_0000 < n.bits < 0x8000_0000_0000_0000) || n.bits
            > 0xfff0_0000_0000_0000,
{
}

/// A sum is near one where it is no further than a thousandth from it: below one
/// its steps are half as wide as above.
pub proof fn a_sum_is_near_one_within_a_thousandth(n: Binary64)
    ensures
        n.near_one() <==> 0x3ff0_0000_0000_0000 - 9_007_199_254_740 <= n.bits
            <= 0x3ff0_0000_0000_0000 + 4_503_599_627_370,
{
}

// ---------------------------------------------------------------------------
// Bounds
// ---------------------------------------------------------------------------

/// That a number is at least zero and at most one.
pub open spec fn is_share(n: Binary64) -> bool {
    n.bits <= 0x3ff0_0000_0000_0000 || n.bits == 0x8000_0000_0000_0000
}

/// That a number is no further than a thousandth from one.
pub open spec fn is_whole(n: Binary64) -> bool {
    0x3ff0_0000_0000_0000 - 9_007_199_254_740 <= n.bits <= 0x3ff0_0000_0000_0000
        + 4_503_599_627_370
}

/// That a number of days is given in its bounds or not at all.
pub open spec fn is_period(days: Option<u64>) -> bool {
    days matches Some(n) ==> 1 <= n <= 3650
}

/// A configuration is accepted exactly where every setting is in its bounds.
pub proof fn a_configuration_is_accepted_where_every_setting_is_in_bounds(
    c: EngramConfig,
    sums: WeightSums,
)
    ensures
        c.fault(sums) is None <==> {
            &&& is_whole(sums.with_query)
            &&& is_whole(sums.with_keyword)
            &&& is_whole(sums.scope_only)
            &&& is_whole(sums.degraded)
            &&& is_share(c.trust_weights.human)
            &&& is_share(c.trust_weights.agent)
            &&& is_share(c.trust_weights.inferred)
            &&& is_share(c.trust_weights.imported)
            &&& is_share(c.nli.contradiction_threshold)
            &&& is_share(c.nli.similarity_threshold)
            &&& c.nli.max_comparisons >= 1
            &&& is_share(c.rerank.weight)
            &&& c.rerank.top_n >= 1
            &&& c.stats.histogram_capacity >= 1
            &&& c.stats.flush_interval_secs >= 1
            &&& c.stats.followup_window_secs >= 1
            &&& c.stats.max_sessions_per_project >= 1
            &&& is_period(c.stats.retention_days)
            &&& c.daemon.idle_timeout_secs >= 60
            &&& is_period(c.review.recency_days)
            &&& is_share(c.retrieval.scoring.scope_multiplier_floor)
            &&& is_share(c.retrieval.scoring.trust_multiplier_floor)
            &&& is_share(c.retrieval.scoring.challenge_penalty)
            &&& is_share(c.retrieval.scoring.depth_decay_base)
            &&& is_share(c.retrieval.scoring.depth_decay_floor)
            &&& 1 <= c.embeddings.dimensions <= 4096
            &&& c.retrieval.max_results >= 1
            &&& is_share(c.thresholds.gc)
            &&& is_share(c.thresholds.compress)
            &&& c.search.threshold.bits <= 0x7ff0_0000_0000_0000 || c.search.threshold.bits
                == 0x8000_0000_0000_0000
        },
{
}

/// Each part is accepted on its own exactly where its settings are in bounds.
pub proof fn a_part_is_accepted_where_its_settings_are_in_bounds(
    c: EngramConfig,
    mode: Seq<char>,
    sum: Binary64,
)
    ensures
        ScoringWeights::fault(mode, sum) is None <==> is_whole(sum),
        c.trust_weights.fault() is None <==> is_share(c.trust_weights.human) && is_share(
            c.trust_weights.agent,
        ) && is_share(c.trust_weights.inferred) && is_share(c.trust_weights.imported),
        c.nli.fault() is None <==> is_share(c.nli.contradiction_threshold) && is_share(
            c.nli.similarity_threshold,
        ) && c.nli.max_comparisons >= 1,
        c.rerank.fault() is None <==> is_share(c.rerank.weight) && c.rerank.top_n >= 1,
        c.stats.fault() is None <==> c.stats.histogram_capacity >= 1 && c.stats.flush_interval_secs
            >= 1 && c.stats.followup_window_secs >= 1 && c.stats.max_sessions_per_project >= 1
            && is_period(c.stats.retention_days),
        c.daemon.fault() is None <==> c.daemon.idle_timeout_secs >= 60,
        c.review.fault() is None <==> is_period(c.review.recency_days),
        c.embeddings.fault() is None <==> 1 <= c.embeddings.dimensions <= 4096,
        c.search.fault() is None <==> c.search.threshold.bits <= 0x7ff0_0000_0000_0000
            || c.search.threshold.bits == 0x8000_0000_0000_0000,
{
}

/// That a fault is told by a text alone.
pub open spec fn says(fault: Option<Fault>, text: Seq<char>) -> bool {
    fault matches Some(f) && f.before == text && f.value is None && f.after.len() == 0
}

/// That a fault is told by a text that starts like this.
pub open spec fn starts(fault: Option<Fault>, head: Seq<char>) -> bool {
    fault matches Some(f) && f.value is None && f.after.len() == 0 && head.is_prefix_of(f.before)
}

/// That a fault names a setting and shows its value.
pub open spec fn shows(
    fault: Option<Fault>,
    before: Seq<char>,
    value: Binary64,
    after: Seq<char>,
) -> bool {
    fault matches Some(f) && f.before == before && f.value == Some(value) && f.after == after
}

/// Where one share is out of bounds and those before it are not, that one is
/// named, with its value.
pub proof fn a_share_out_of_bounds_is_named(t: TrustWeights, n: NliConfig, r: RerankConfig)
    ensures
        !is_share(t.human) ==> shows(
            t.fault(),
            "trust_weights.human ("@,
            t.human,
            ") must be in [0.0, 1.0]"@,
        ),
        is_share(t.human) && !is_share(t.agent) ==> shows(
            t.fault(),
            "trust_weights.agent ("@,
            t.agent,
            ") must be in [0.0, 1.0]"@,
        ),
        is_share(t.human) && is_share(t.agent) && !is_share(t.inferred) ==> shows(
            t.fault(),
            "trust_weights.inferred ("@,
            t.inferred,
            ") must be in [0.0, 1.0]"@,
        ),
        is_share(t.human) && is_share(t.agent) && is_share(t.inferred) && !is_share(t.imported)
            ==> shows(
            t.fault(),
            "trust_weights.imported ("@,
            t.imported,
            ") must be in [0.0, 1.0]"@,
        ),
        !is_share(n.contradiction_threshold) ==> shows(
            n.fault(),
            "nli.contradiction_threshold ("@,
            n.contradiction_threshold,
            ") must be in [0.0, 1.0]"@,
        ),
        is_share(n.contradiction_threshold) && !is_share(n.similarity_threshold) ==> shows(
            n.fault(),
            "nli.similarity_threshold ("@,
            n.similarity_threshold,
            ") must be in [0.0, 1.0]"@,
        ),
        is_share(n.contradiction_threshold) && is_share(n.similarity_threshold)
            && n.max_comparisons == 0 ==> says(n.fault(), "nli.max_comparisons must be > 0"@),
        !is_share(r.weight) ==> shows(
            r.fault(),
            "rerank.weight ("@,
            r.weight,
            ") must be in [0.0, 1.0]"@,
        ),
        is_share(r.weight) && r.top_n == 0 ==> says(r.fault(), "rerank.top_n must be > 0"@),
{
}

/// A number out of bounds is named, and shown where it is not plainly zero.
pub proof fn a_number_out_of_bounds_is_named(
    mode: Seq<char>,
    sum: Binary64,
    e: EmbeddingsConfig,
    s: SearchConfig,
    d: DaemonConfig,
    days: u64,
)
    ensures
        !is_whole(sum) ==> shows(
            ScoringWeights::fault(mode, sum),
            "scoring."@ + mode + " weights sum to "@,
            sum,
            " (expected 1.0 \u{b1} 0.001)"@,
        ),
        e.dimensions == 0 || e.dimensions > 4096 ==> says(
            e.fault(),
            "embeddings.dimensions ("@ + crate::text::decimal(e.dimensions as nat)
                + ") must be in (0, 4096]"@,
        ),
        s.fault() is Some ==> shows(
            s.fault(),
            "search.threshold ("@,
            s.threshold,
            ") must be >= 0.0"@,
        ),
        d.idle_timeout_secs < 60 ==> starts(
            d.fault(),
            "daemon.idle_timeout_secs must be >= 60 (got "@ + crate::text::decimal(
                d.idle_timeout_secs as nat,
            ),
        ),
        days > 3650 ==> says(
            (ReviewConfig { recency_days: Some(days) }).fault(),
            "review.recency_days ("@ + crate::text::decimal(days as nat) + ") must be <= 3650"@,
        ),
{
    if d.idle_timeout_secs < 60 {
        let f = d.fault()->0;
        let head = "daemon.idle_timeout_secs must be >= 60 (got "@ + crate::text::decimal(
            d.idle_timeout_secs as nat,
        );
        assert(head =~= f.before.subrange(0, head.len() as int));
    }
}

/// Of the statistics the first setting out of bounds is named.
pub proof fn a_statistic_out_of_bounds_is_named(s: StatsConfig)
    ensures
        s.histogram_capacity == 0 ==> says(s.fault(), "stats.histogram_capacity must be > 0"@),
        s.histogram_capacity > 0 && s.flush_interval_secs == 0 ==> says(
            s.fault(),
            "stats.flush_interval_secs must be >= 1"@,
        ),
        s.histogram_capacity > 0 && s.flush_interval_secs > 0 && s.followup_window_secs == 0
            ==> says(s.fault(), "stats.followup_window_secs must be >= 1"@),
        s.histogram_capacity > 0 && s.flush_interval_secs > 0 && s.followup_window_secs > 0
            && s.max_sessions_per_project == 0 ==> says(
            s.fault(),
            "stats.max_sessions_per_project must be >= 1"@,
        ),
        s.histogram_capacity > 0 && s.flush_interval_secs > 0 && s.followup_window_secs > 0
            && s.max_sessions_per_project > 0 ==> forall|days: u64|
            days > 3650 && s.retention_days == Some(days) ==> says(
                s.fault(),
                "stats.retention_days ("@ + #[trigger] crate::text::decimal(days as nat)
                    + ") must be <= 3650"@,
            ),
{
}

/// The parts are looked at in turn: what is wrong with one is told before what is
/// wrong with those behind it.
pub proof fn the_first_part_at_fault_is_told(c: EngramConfig, sums: WeightSums)
    ensures
        !is_whole(sums.with_query) ==> c.fault(sums) == ScoringWeights::fault(
            "with_query"@,
            sums.with_query,
        ),
        is_whole(sums.with_query) && is_whole(sums.with_keyword) && is_whole(sums.scope_only)
            && is_whole(sums.degraded) ==> {
            &&& c.trust_weights.fault() is Some ==> c.fault(sums) == c.trust_weights.fault()
            &&& c.trust_weights.fault() is None && c.nli.fault() is Some ==> c.fault(sums)
                == c.nli.fault()
            &&& c.trust_weights.fault() is None && c.nli.fault() is None && c.rerank.fault() is Some
                ==> c.fault(sums) == c.rerank.fault()
            &&& c.trust_weights.fault() is None && c.nli.fault() is None && c.rerank.fault() is None
                && c.stats.fault() is Some ==> c.fault(sums) == c.stats.fault()
            &&& c.trust_weights.fault() is None && c.nli.fault() is None && c.rerank.fault() is None
                && c.stats.fault() is None && c.daemon.fault() is Some ==> c.fault(sums)
                == c.daemon.fault()
            &&& c.trust_weights.fault() is None && c.nli.fault() is None && c.rerank.fault() is None
                && c.stats.fault() is None && c.daemon.fault() is None && c.review.fault() is Some
                ==> c.fault(sums) == c.review.fault()
        },
{
}

/// Of the factors of the score the first out of bounds is named.
pub proof fn a_factor_out_of_bounds_is_named(r: RetrievalConfig)
    ensures
        !is_share(r.scoring.scope_multiplier_floor) ==> says(
            r.scoring_fault(),
            "scoring.scope_multiplier_floor must be in [0.0, 1.0]"@,
        ),
        is_share(r.scoring.scope_multiplier_floor) && !is_share(r.scoring.trust_multiplier_floor)
            ==> says(
            r.scoring_fault(),
            "scoring.trust_multiplier_floor must be in [0.0, 1.0]"@,
        ),
        is_share(r.scoring.scope_multiplier_floor) && is_share(r.scoring.trust_multiplier_floor)
            && !is_share(r.scoring.challenge_penalty) ==> says(
            r.scoring_fault(),
            "scoring.challenge_penalty must be in [0.0, 1.0]"@,
        ),
        is_share(r.scoring.scope_multiplier_floor) && is_share(r.scoring.trust_multiplier_floor)
            && is_share(r.scoring.challenge_penalty) && !is_share(r.scoring.depth_decay_base)
            ==> says(r.scoring_fault(), "scoring.depth_decay_base must be in [0.0, 1.0]"@),
        is_share(r.scoring.scope_multiplier_floor) && is_share(r.scoring.trust_multiplier_floor)
            && is_share(r.scoring.challenge_penalty) && is_share(r.scoring.depth_decay_base)
            && !is_share(r.scoring.depth_decay_floor) ==> says(
            r.scoring_fault(),
            "scoring.depth_decay_floor must be in [0.0, 1.0]"@,
        ),
        r.max_results == 0 ==> says(r.results_fault(), "retrieval.max_results must be > 0"@),
        r.max_results > 0 ==> r.results_fault() is None,
{
}

// ---------------------------------------------------------------------------
// Defaults
// ---------------------------------------------------------------------------

/// What the default configuration counts and measures by.
pub proof fn the_default_counts_are_these(c: EngramConfig)
    requires
        c.is_standard(),
    ensures
        c.retrieval.max_results == 10,
        !c.retrieval.include_expired,
        c.embeddings.backend is Auto,
        c.embeddings.provider@ == "onnx"@,
        c.embeddings.dimensions == 384,
        c.embeddings.max_tokens == 256,
        c.embeddings.reindex_on_model_change == ReindexOnModelChange::Warn,
        c.embeddings.pool_size is None,
        c.review.recency_days == Some(90u64),
        !c.nli.enabled,
        c.nli.model@ == "Xenova/nli-deberta-v3-xsmall"@,
        c.nli.max_comparisons == 10,
        !c.rerank.enabled,
        c.rerank.model@ == "bge-reranker-base"@,
        c.rerank.top_n == 50,
        c.stats.enabled,
        c.stats.histogram_capacity == 256,
        c.stats.retention_days == Some(90u64),
        c.stats.flush_interval_secs == 60,
        c.stats.followup_window_secs == 60,
        c.stats.max_sessions_per_project == 10_000,
        c.daemon.enabled,
        c.daemon.idle_timeout_secs == 900,
        c.daemon.socket_path is None,
        c.daemon.use_for_cli,
        c.title.strategy is T5,
        c.title.pool_size is None,
        c.maintenance.enabled,
        c.maintenance.interval_secs == 6 * 60 * 60,
        c.security.allow_cross_project_writes,
{
}

/// What the default configuration weighs and cuts off by, as bit patterns.
pub proof fn the_default_weights_are_these(c: EngramConfig)
    requires
        c.is_standard(),
    ensures
        c.retrieval.relevance_threshold.bits == 0x3fdc_cccc_cccc_cccd,
        c.retrieval.scoring.with_query.keyword is None,
        c.retrieval.scoring.with_query.semantic == Some(Binary64 { bits: 0x3fe1_9999_9999_999a }),
        c.retrieval.scoring.with_query.relevance.bits == 0x3fdc_cccc_cccc_cccd,
        c.retrieval.scoring.with_keyword.keyword == Some(Binary64 { bits: 0x3fdc_cccc_cccc_cccd }),
        c.retrieval.scoring.with_keyword.semantic == Some(Binary64 { bits: 0x3fd3_3333_3333_3333 }),
        c.retrieval.scoring.with_keyword.relevance.bits == 0x3fd0_0000_0000_0000,
        c.retrieval.scoring.scope_only.keyword is None,
        c.retrieval.scoring.scope_only.semantic is None,
        c.retrieval.scoring.scope_only.relevance.bits == 0x3ff0_0000_0000_0000,
        c.retrieval.scoring.degraded.keyword is None,
        c.retrieval.scoring.degraded.semantic is None,
        c.retrieval.scoring.degraded.relevance.bits == 0x3ff0_0000_0000_0000,
        c.retrieval.scoring.scope_multiplier_floor.bits == 0x3fe0_0000_0000_0000,
        c.retrieval.scoring.trust_multiplier_floor.bits == 0x3fe0_0000_0000_0000,
        c.retrieval.scoring.challenge_penalty.bits == 0x3fb9_9999_9999_999a,
        c.retrieval.scoring.depth_decay_base.bits == 0x3fea_3d70_a3d7_0a3d,
        c.retrieval.scoring.depth_decay_floor.bits == 0x3fd3_3333_3333_3333,
        c.search.semantic_weight.bits == 0x4008_0000_0000_0000,
        c.search.threshold.bits == 0x3fc9_9999_9999_999a,
        c.scope_proximity.exact_file.bits == 0x3ff0_0000_0000_0000,
        c.scope_proximity.same_directory.bits == 0x3feb_3333_3333_3333,
        c.scope_proximity.same_module.bits == 0x3fe3_3333_3333_3333,
        c.scope_proximity.project_root.bits == 0x3fd9_9999_9999_999a,
        c.logical_bonus.exact.bits == 0x3fd3_3333_3333_3333,
        c.logical_bonus.parent.bits == 0x3fc9_9999_9999_999a,
        c.logical_bonus.sibling.bits == 0x3fc3_3333_3333_3333,
        c.trust_weights.human.bits == 0x3ff0_0000_0000_0000,
        c.trust_weights.agent.bits == 0x3feb_3333_3333_3333,
        c.trust_weights.inferred.bits == 0x3fe3_3333_3333_3333,
        c.trust_weights.imported.bits == 0x3fe6_6666_6666_6666,
        c.thresholds.needs_review.bits == 0x3fd3_3333_3333_3333,
        c.thresholds.gc.bits == 0x3fa9_9999_9999_999a,
        c.thresholds.compress.bits == 0x3fd9_9999_9999_999a,
        c.nli.contradiction_threshold.bits == 0x3fe6_6666_6666_6666,
        c.nli.similarity_threshold.bits == 0x3fd3_3333_3333_3333,
        c.rerank.weight.bits == 0x3fe0_0000_0000_0000,
{
}

// ---------------------------------------------------------------------------
// Names
// ---------------------------------------------------------------------------

/// What each choice is called.
pub proof fn every_choice_has_its_name()
    ensures
        EmbeddingBackend::Auto.name() == "auto"@,
        EmbeddingBackend::Onnx.name() == "onnx"@,
        EmbeddingBackend::Ollama.name() == "ollama"@,
        EmbeddingBackend::Tract.name() == "tract"@,
        Epistemic::Fact.name() == "fact"@,
        Epistemic::Observation.name() == "observation"@,
        Epistemic::Decision.name() == "decision"@,
        Generality::Project.name() == "project"@,
        Generality::Task.name() == "task"@,
        Situation::SessionStart.name() == "session_start"@,
        Situation::FileEdit.name() == "file_edit"@,
        Situation::Debugging.name() == "debugging"@,
        Situation::DesignChoice.name() == "design_choice"@,
{
}

/// A choice is read from its own name, and a text that names none is refused with
/// the names that there are.
pub proof fn a_choice_is_read_from_its_name(
    low: Seq<char>,
    b: Result<EmbeddingBackend, String>,
    e: Result<Epistemic, String>,
    g: Result<Generality, String>,
    s: Result<Situation, String>,
)
    ensures
        EmbeddingBackend::reads(low, b) ==> match b {
            Ok(v) => low == v.name(),
            Err(m) => low != "auto"@ && low != "onnx"@ && low != "ollama"@ && low != "tract"@ && m@
                == "unknown embedding backend '"@ + low
                + "': expected auto, onnx, ollama, or tract"@,
        },
        Epistemic::reads(low, e) ==> match e {
            Ok(v) => low == v.name(),
            Err(m) => low != "fact"@ && low != "observation"@ && low != "decision"@ && m@
                == "invalid epistemic class '"@ + low
                + "' (expected: fact, observation, decision)"@,
        },
        Generality::reads(low, g) ==> match g {
            Ok(v) => low == v.name(),
            Err(m) => low != "project"@ && low != "task"@ && m@ == "invalid generality '"@ + low
                + "' (expected: project, task)"@,
        },
        Situation::reads(low, s) ==> match s {
            Ok(v) => low == v.name(),
            Err(m) => low != "session_start"@ && low != "file_edit"@ && low != "debugging"@ && low
                != "design_choice"@ && m@ == "invalid situation '"@ + low
                + "' (expected: session_start, file_edit, debugging, design_choice)"@,
        },
{
    let _ = (
        EmbeddingBackend::Auto.name(),
        EmbeddingBackend::Onnx.name(),
        EmbeddingBackend::Ollama.name(),
        EmbeddingBackend::Tract.name(),
    );
    let _ = (Epistemic::Fact.name(), Epistemic::Observation.name(), Epistemic::Decision.name());
    let _ = (Generality::Project.name(), Generality::Task.name());
    let _ = (
        Situation::SessionStart.name(),
        Situation::FileEdit.name(),
        Situation::Debugging.name(),
        Situation::DesignChoice.name(),
    );
}

/// A strategy for titles, and a grouping of projects, is read from any of its
/// spellings, and a text that spells none is refused as it was given.
pub proof fn a_spelling_is_read_as_its_choice(
    s: Seq<char>,
    low: Seq<char>,
    t: Result<TitleStrategy, String>,
    g: Result<ProjectListGrouping, String>,
)
    ensures
        TitleStrategy::Keyword.spelled(low) <==> low == "keyword"@ || low == "keywords"@ || low
            == "rake"@,
        TitleStrategy::T5.spelled(low) <==> low == "t5"@ || low == "t5-small"@ || low == "model"@,
        TitleStrategy::Off.spelled(low) <==> low == "none"@ || low == "off"@ || low == "disabled"@,
        ProjectListGrouping::Always.spelled(low) <==> low == "always"@ || low == "all"@ || low
            == "full"@,
        ProjectListGrouping::Auto.spelled(low) <==> low == "auto"@ || low == "smart"@,
        ProjectListGrouping::Off.spelled(low) <==> low == "none"@ || low == "off"@ || low
            == "flat"@,
        TitleStrategy::reads(s, low, t) ==> match t {
            Ok(v) => v.spelled(low),
            Err(m) => !TitleStrategy::Keyword.spelled(low) && !TitleStrategy::T5.spelled(low)
                && !TitleStrategy::Off.spelled(low) && m@ == "Invalid title strategy '"@ + s
                + "'. Valid options: keyword, t5, none"@,
        },
        ProjectListGrouping::reads(s, low, g) ==> match g {
            Ok(v) => v.spelled(low),
            Err(m) => !ProjectListGrouping::Always.spelled(low)
                && !ProjectListGrouping::Auto.spelled(low) && !ProjectListGrouping::Off.spelled(low)
                && m@ == "Invalid project list grouping '"@ + s
                + "'. Valid options: always, auto, none"@,
        },
{
}

/// The texts that switch something on.
pub proof fn a_switch_is_on_for_these_texts(low: Seq<char>)
    ensures
        is_truthy_text(low) <==> low == "1"@ || low == "true"@ || low == "yes"@ || low == "on"@,
{
}

/// The validity of a memory says something as soon as any part of it does. How
/// general the memory is says nothing by itself.
pub proof fn a_validity_says_something_as_soon_as_a_part_does(
    v: ValidityView,
    text: Seq<char>,
    g: Generality,
)
    ensures
        !(ValidityView { premise: Some(text), ..v }).says_nothing(),
        !(ValidityView { origin_task: Some(text), ..v }).says_nothing(),
        !(ValidityView { invalidated_by: v.invalidated_by.push(text), ..v }).says_nothing(),
        !(ValidityView { derived_from: v.derived_from.push(text), ..v }).says_nothing(),
        (ValidityView { generality: g, ..v }).says_nothing() == v.says_nothing(),
        (ValidityView {
            premise: None,
            invalidated_by: Seq::empty(),
            origin_task: None,
            generality: g,
            derived_from: Seq::empty(),
        }).says_nothing(),
{
}

// ---------------------------------------------------------------------------
// Rankings
// ---------------------------------------------------------------------------

/// A ranking has every item once, with its score. The better of two comes first,
/// and of two with one score the one that was given first.
pub proof fn a_ranking_puts_the_better_first(
    scores: Seq<i64>,
    order: Seq<(i64, u64)>,
    i: int,
    j: int,
)
    requires
        is_ranking(scores, order),
        scores.len() <= u64::MAX,
    ensures
        order.len() == scores.len(),
        0 <= i < order.len() ==> 0 <= order[i].1 < scores.len() && order[i].0
            == scores[order[i].1 as int],
        0 <= i < j < order.len() ==> order[i].0 > order[j].0 || (order[i].0 == order[j].0
            && order[i].1 < order[j].1),
        0 <= j < scores.len() ==> order.contains((scores[j], j as u64)),
{
    let all = crate::recall::scored(scores);
    order.to_multiset_ensures();
    all.to_multiset_ensures();
    if 0 <= i < order.len() {
        assert(order.contains(order[i]));
        assert(order.to_multiset().count(order[i]) > 0);
        assert(all.to_multiset().count(order[i]) > 0);
        assert(all.contains(order[i]));
        let k = choose|k: int| 0 <= k < all.len() && all[k] == order[i];
        assert(all[k] == (scores[k], k as u64));
    }
    if 0 <= i < j < order.len() {
        assert(ranking()(order[i], order[j]));
        if order[i] == order[j] {
            let x = order[i];
            assert(all.no_duplicates()) by {
                assert forall|a: int, b: int| 0 <= a < b < all.len() implies all[a] != all[b] by {
                    assert(all[a].1 == a as u64 && all[b].1 == b as u64);
                }
            }
            all.lemma_multiset_has_no_duplicates();
            assert(order.contains(x));
            assert(order.to_multiset().count(x) == 1);
            lemma_twice(order, i, j);
        }
    }
    if 0 <= j < scores.len() {
        assert(all[j] == (scores[j], j as u64));
        assert(all.contains(all[j]));
        assert(all.to_multiset().count(all[j]) > 0);
        assert(order.to_multiset().count(all[j]) > 0);
    }
}

/// An item at two places is counted at least twice.
proof fn lemma_twice<T>(s: Seq<T>, i: int, j: int)
    requires
        0 <= i < j < s.len(),
        s[i] == s[j],
    ensures
        s.to_multiset().count(s[i]) >= 2,
{
    let a = s.take(j);
    let b = s.skip(j);
    assert(s =~= a + b);
    vstd::seq_lib::lemma_multiset_commutative(a, b);
    a.to_multiset_ensures();
    b.to_multiset_ensures();
    assert(a[i] == s[i]);
    assert(b[0] == s[i]);
    assert(a.contains(s[i]) && b.contains(s[i]));
}

} // verus!
