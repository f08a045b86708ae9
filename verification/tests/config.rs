use engramdb::binary64::Binary64;
use engramdb::config::{
    ConfigError, DaemonConfig, EmbeddingBackend, EmbeddingsConfig, EngramConfig, NliConfig,
    ReindexOnModelChange, RerankConfig, ReviewConfig, ScoringWeights, SecurityConfig, StatsConfig,
    TitleConfig, TrustWeights, WeightSums, DEFAULT_NLI_MODEL_REPO,
};
use engramdb::title_strategy::TitleStrategy;

fn float(x: f64) -> Binary64 {
    Binary64 { bits: x.to_bits() }
}

fn number(x: Binary64) -> f64 {
    f64::from_bits(x.bits)
}

fn sum(w: &ScoringWeights) -> Binary64 {
    let (a, b, c) = w.summands();
    float(number(a) + number(b) + number(c))
}

fn check(c: &EngramConfig) -> Result<(), ConfigError> {
    let s = &c.retrieval.scoring;
    c.validate(&WeightSums {
        with_query: sum(&s.with_query),
        with_keyword: sum(&s.with_keyword),
        scope_only: sum(&s.scope_only),
        degraded: sum(&s.degraded),
    })
}

fn text(e: &ConfigError) -> String {
    let shown = match e.value {
        Some(v) => format!("{}", number(v)),
        None => String::new(),
    };
    e.message(&shown)
}

#[test]
fn embedding_backend_roundtrips() {
    for (variant, name) in [
        (EmbeddingBackend::Auto, "auto"),
        (EmbeddingBackend::Onnx, "onnx"),
        (EmbeddingBackend::Ollama, "ollama"),
        (EmbeddingBackend::Tract, "tract"),
    ] {
        assert_eq!(variant.as_str(), name);
        assert_eq!(name.parse::<EmbeddingBackend>().unwrap(), variant);
        assert_eq!(
            name.to_uppercase().parse::<EmbeddingBackend>().unwrap(),
            variant
        );
    }
    assert!("nonsense".parse::<EmbeddingBackend>().is_err());
}

#[test]
fn nli_default_model_tracks_default_nli_model_repo() {
    assert_eq!(NliConfig::default().model.as_str(), DEFAULT_NLI_MODEL_REPO);
}

#[test]
fn the_default_reaction_to_a_model_change_is_to_warn() {
    assert_eq!(
        EmbeddingsConfig::default().reindex_on_model_change,
        ReindexOnModelChange::Warn
    );
    assert_eq!(
        EngramConfig::default().embeddings.reindex_on_model_change,
        ReindexOnModelChange::Warn
    );
}

#[test]
fn test_config_defaults() {
    let config = EngramConfig::default();

    assert_eq!(config.retrieval.max_results, 10);
    assert_eq!(number(config.retrieval.relevance_threshold), 0.45);
    assert!(!config.retrieval.include_expired);

    assert_eq!(number(config.trust_weights.human), 1.0);
    assert_eq!(number(config.trust_weights.agent), 0.85);
    assert_eq!(number(config.trust_weights.inferred), 0.6);
    assert_eq!(number(config.trust_weights.imported), 0.7);

    assert_eq!(number(config.scope_proximity.exact_file), 1.0);
    assert_eq!(number(config.scope_proximity.same_directory), 0.85);
    assert_eq!(number(config.scope_proximity.same_module), 0.6);
    assert_eq!(number(config.scope_proximity.project_root), 0.4);

    assert_eq!(number(config.logical_bonus.exact), 0.3);
    assert_eq!(number(config.logical_bonus.parent), 0.2);
    assert_eq!(number(config.logical_bonus.sibling), 0.15);

    assert_eq!(number(config.thresholds.needs_review), 0.3);
    assert_eq!(number(config.thresholds.gc), 0.05);
    assert_eq!(number(config.thresholds.compress), 0.4);

    assert_eq!(config.review.recency_days, Some(90));

    let scoring = &config.retrieval.scoring;
    assert_eq!(scoring.with_query.semantic, Some(float(0.55)));
    assert_eq!(number(scoring.with_query.relevance), 0.45);

    assert_eq!(scoring.scope_only.semantic, None);
    assert_eq!(number(scoring.scope_only.relevance), 1.0);

    assert_eq!(scoring.degraded.semantic, None);
    assert_eq!(number(scoring.degraded.relevance), 1.0);

    assert_eq!(number(scoring.scope_multiplier_floor), 0.5);
    assert_eq!(number(scoring.trust_multiplier_floor), 0.5);
    assert_eq!(number(scoring.challenge_penalty), 0.10);
    assert_eq!(number(scoring.depth_decay_base), 0.82);
    assert_eq!(number(scoring.depth_decay_floor), 0.3);

    assert_eq!(number(config.search.semantic_weight), 3.0);
    assert_eq!(number(config.search.threshold), 0.2);

    assert_eq!(scoring.with_keyword.keyword, Some(float(0.45)));
    assert_eq!(scoring.with_keyword.semantic, Some(float(0.30)));
    assert_eq!(number(scoring.with_keyword.relevance), 0.25);

    assert_eq!(config.embeddings.provider, "onnx");
    assert_eq!(config.embeddings.dimensions, 384);
    assert_eq!(config.embeddings.max_tokens, 256);

    assert!(!config.nli.enabled);
    assert_eq!(config.nli.model, "Xenova/nli-deberta-v3-xsmall");
    assert_eq!(number(config.nli.contradiction_threshold), 0.7);
    assert_eq!(config.nli.max_comparisons, 10);
    assert_eq!(number(config.nli.similarity_threshold), 0.3);
}

#[test]
fn maintenance_runs_every_six_hours_by_default() {
    let config = EngramConfig::default();
    assert!(config.maintenance.enabled);
    assert_eq!(config.maintenance.interval_secs, 6 * 60 * 60);
}

#[test]
fn cross_project_writes_are_allowed_by_default() {
    let config = EngramConfig::default();
    assert!(config.security.allow_cross_project_writes);
    assert!(SecurityConfig::default().allow_cross_project_writes);
    let mut config = config;
    config.security.allow_cross_project_writes = false;
    assert!(check(&config).is_ok());
}

#[test]
fn test_config_scoring_weights_sum_to_one() {
    let config = EngramConfig::default();

    let wq = &config.retrieval.scoring.with_query;
    let wq_sum = number(wq.semantic.unwrap_or(float(0.0))) + number(wq.relevance);
    assert!(
        (wq_sum - 1.0).abs() < f64::EPSILON,
        "with_query weights sum to {}, expected 1.0",
        wq_sum
    );

    let so = &config.retrieval.scoring.scope_only;
    let so_sum = number(so.semantic.unwrap_or(float(0.0))) + number(so.relevance);
    assert!(
        (so_sum - 1.0).abs() < f64::EPSILON,
        "scope_only weights sum to {}, expected 1.0",
        so_sum
    );

    let dg = &config.retrieval.scoring.degraded;
    let dg_sum = number(dg.semantic.unwrap_or(float(0.0))) + number(dg.relevance);
    assert!(
        (dg_sum - 1.0).abs() < f64::EPSILON,
        "degraded weights sum to {}, expected 1.0",
        dg_sum
    );
}

#[test]
fn test_nli_config_defaults() {
    let config = NliConfig::default();
    assert!(!config.enabled);
    assert_eq!(config.model, "Xenova/nli-deberta-v3-xsmall");
    assert_eq!(number(config.contradiction_threshold), 0.7);
    assert_eq!(config.max_comparisons, 10);
    assert_eq!(number(config.similarity_threshold), 0.3);
}

#[test]
fn test_rerank_config_defaults() {
    let config = RerankConfig::default();
    assert!(!config.enabled);
    assert_eq!(config.model, "bge-reranker-base");
    assert_eq!(config.top_n, 50);
    assert_eq!(number(config.weight), 0.5);
}

#[test]
fn test_rerank_config_disabled_by_default() {
    let config = EngramConfig::default();
    assert!(!config.rerank.enabled);
    assert_eq!(config.rerank.model, "bge-reranker-base");
    assert_eq!(config.rerank.top_n, 50);
    assert_eq!(number(config.rerank.weight), 0.5);
}

#[test]
fn test_nli_config_validate_rejects_invalid() {
    for x in [1.5, -0.1, f64::NAN] {
        let nli = NliConfig {
            contradiction_threshold: float(x),
            ..Default::default()
        };
        assert!(nli.validate().is_err());
    }

    for x in [2.0, -1.0] {
        let nli = NliConfig {
            similarity_threshold: float(x),
            ..Default::default()
        };
        assert!(nli.validate().is_err());
    }

    let nli = NliConfig {
        max_comparisons: 0,
        ..Default::default()
    };
    assert!(nli.validate().is_err());

    assert!(NliConfig::default().validate().is_ok());
}

#[test]
fn test_trust_weights_validate() {
    assert!(TrustWeights::default().validate().is_ok());

    let tw = TrustWeights {
        human: float(1.5),
        ..Default::default()
    };
    assert!(tw.validate().is_err());

    let tw = TrustWeights {
        inferred: float(-0.1),
        ..Default::default()
    };
    assert!(tw.validate().is_err());
}

#[test]
fn a_fault_shows_the_number_at_fault() {
    let tw = TrustWeights {
        human: float(1.5),
        ..Default::default()
    };
    let e = tw.validate().unwrap_err();
    assert_eq!(e.value, Some(float(1.5)));
    assert!(text(&e).contains("human"), "{}", text(&e));
    assert!(text(&e).contains("1.5"), "{}", text(&e));
}

#[test]
fn test_scoring_weights_validate() {
    let sw = ScoringWeights::default();
    assert!(sw.validate("test", sum(&sw)).is_ok());

    let sw = ScoringWeights {
        keyword: None,
        semantic: Some(float(0.5)),
        relevance: float(0.6),
    };
    let e = sw.validate("test", sum(&sw)).unwrap_err();
    assert_eq!(
        text(&e),
        "scoring.test weights sum to 1.1 (expected 1.0 ± 0.001)"
    );

    let sw = ScoringWeights {
        keyword: Some(float(0.45)),
        semantic: Some(float(0.30)),
        relevance: float(0.25),
    };
    assert!(sw.validate("test", sum(&sw)).is_ok());
}

#[test]
fn weights_may_miss_one_by_a_thousandth() {
    let sw = ScoringWeights::default();
    for x in [0.9991, 1.0009, 1.0] {
        assert!(sw.validate("m", float(x)).is_ok(), "{x}");
    }
    for x in [0.9989, 1.0011, 0.0, -1.0, f64::NAN, f64::INFINITY] {
        assert!(sw.validate("m", float(x)).is_err(), "{x}");
    }
}

#[test]
fn test_rerank_config_validate_rejects_invalid() {
    for x in [1.5, -0.1] {
        let rerank = RerankConfig {
            weight: float(x),
            ..Default::default()
        };
        assert!(rerank.validate().is_err());
    }

    let rerank = RerankConfig {
        top_n: 0,
        ..Default::default()
    };
    assert!(rerank.validate().is_err());

    assert!(RerankConfig::default().validate().is_ok());
}

#[test]
fn test_scoring_config_validate_rejects_invalid_floors() {
    for x in [1.5, -0.1] {
        let mut config = EngramConfig::default();
        config.retrieval.scoring.scope_multiplier_floor = float(x);
        assert!(check(&config).is_err());
    }
    for x in [2.0, -0.5] {
        let mut config = EngramConfig::default();
        config.retrieval.scoring.trust_multiplier_floor = float(x);
        assert!(check(&config).is_err());
    }
    for x in [1.1, -0.01] {
        let mut config = EngramConfig::default();
        config.retrieval.scoring.challenge_penalty = float(x);
        assert!(check(&config).is_err());
    }
    assert!(check(&EngramConfig::default()).is_ok());
}

#[test]
fn test_depth_decay_config_validate_rejects_invalid() {
    for x in [1.5, -0.1] {
        let mut config = EngramConfig::default();
        config.retrieval.scoring.depth_decay_base = float(x);
        assert!(check(&config).is_err());
    }
    for x in [2.0, -0.5] {
        let mut config = EngramConfig::default();
        config.retrieval.scoring.depth_decay_floor = float(x);
        assert!(check(&config).is_err());
    }
    let mut config = EngramConfig::default();
    config.retrieval.scoring.depth_decay_base = float(0.9);
    config.retrieval.scoring.depth_decay_floor = float(0.1);
    assert!(check(&config).is_ok());
}

#[test]
fn bounds_of_the_whole_configuration_are_checked() {
    let mut config = EngramConfig::default();
    config.embeddings.dimensions = 0;
    assert_eq!(
        text(&check(&config).unwrap_err()),
        "embeddings.dimensions (0) must be in (0, 4096]"
    );
    config.embeddings.dimensions = 4096;
    assert!(check(&config).is_ok());
    config.embeddings.dimensions = 4097;
    assert!(check(&config).is_err());

    let mut config = EngramConfig::default();
    config.retrieval.max_results = 0;
    assert_eq!(
        text(&check(&config).unwrap_err()),
        "retrieval.max_results must be > 0"
    );

    let mut config = EngramConfig::default();
    config.thresholds.gc = float(1.25);
    assert_eq!(
        text(&check(&config).unwrap_err()),
        "thresholds.gc (1.25) must be in [0.0, 1.0]"
    );

    let mut config = EngramConfig::default();
    config.thresholds.compress = float(-0.5);
    assert_eq!(
        text(&check(&config).unwrap_err()),
        "thresholds.compress (-0.5) must be in [0.0, 1.0]"
    );

    let mut config = EngramConfig::default();
    config.retrieval.scoring.degraded.relevance = float(0.5);
    assert!(text(&check(&config).unwrap_err()).contains("scoring.degraded weights sum to 0.5"));
}

#[test]
fn the_daemon_is_on_by_default() {
    let d = DaemonConfig::default();
    assert!(d.enabled);
    assert_eq!(d.idle_timeout_secs, 900);
    assert_eq!(d.socket_path, None);
    let cfg = EngramConfig::default();
    assert!(cfg.daemon.enabled);
    assert_eq!(cfg.daemon.idle_timeout_secs, 900);
    assert_eq!(cfg.daemon.socket_path, None);
    assert!(cfg.daemon.use_for_cli);
}

#[test]
fn test_daemon_config_validate() {
    let mut d = DaemonConfig::default();
    assert!(d.validate().is_ok());
    d.idle_timeout_secs = 0;
    assert!(d.validate().is_err());
    d.idle_timeout_secs = 59;
    assert!(d.validate().is_err());
    d.idle_timeout_secs = 60;
    assert!(d.validate().is_ok());
    let mut cfg = EngramConfig::default();
    cfg.daemon.idle_timeout_secs = 0;
    assert!(check(&cfg).is_err());
}

#[test]
fn test_review_config_validate() {
    let mut r = ReviewConfig::default();
    assert_eq!(r.recency_days, Some(90));
    assert!(r.validate().is_ok());

    r.recency_days = None;
    assert!(r.validate().is_ok());

    r.recency_days = Some(0);
    assert!(r.validate().is_err());

    r.recency_days = Some(3650);
    assert!(r.validate().is_ok());
    r.recency_days = Some(3651);
    assert!(r.validate().is_err());

    let mut cfg = EngramConfig::default();
    cfg.review.recency_days = Some(0);
    assert!(check(&cfg).is_err());
}

#[test]
fn title_pool_size_resolution() {
    let mut t = TitleConfig::default();
    assert_eq!(t.strategy, TitleStrategy::T5);
    assert_eq!(t.pool_size, None);
    assert_eq!(t.resolved_pool_size(8), 2);
    assert_eq!(t.resolved_pool_size(1), 1);
    assert_eq!(t.resolved_pool_size(0), 1);

    t.pool_size = Some(3);
    assert_eq!(t.resolved_pool_size(8), 3);
    assert_eq!(t.resolved_pool_size(2), 2);
    t.pool_size = Some(0);
    assert_eq!(t.resolved_pool_size(8), 1);
}

#[test]
fn embeddings_pool_size_is_half_the_cores_or_what_is_asked_for() {
    let mut cfg = EngramConfig::default();
    assert_eq!(cfg.embeddings.pool_size, None);
    assert_eq!(cfg.embeddings.resolved_pool_size(8), 4);
    assert_eq!(cfg.embeddings.resolved_pool_size(1), 1);
    assert_eq!(cfg.embeddings.resolved_pool_size(0), 1);

    cfg.embeddings.pool_size = Some(3);
    assert_eq!(cfg.embeddings.resolved_pool_size(2), 3);
    assert_eq!(cfg.embeddings.resolved_pool_size(64), 3);
}

#[test]
fn statistics_are_kept_for_90_days_by_default() {
    assert_eq!(StatsConfig::default().retention_days, Some(90));
    assert_eq!(EngramConfig::default().stats.retention_days, Some(90));
}

#[test]
fn stats_retention_zero_is_rejected() {
    let cfg = StatsConfig {
        retention_days: Some(0),
        ..StatsConfig::default()
    };
    let err = text(&cfg.validate().unwrap_err());
    assert!(
        err.contains("retention_days must be >= 1"),
        "unexpected message: {err}"
    );

    for days in [Some(1), Some(90), Some(3650), None] {
        let cfg = StatsConfig {
            retention_days: days,
            ..StatsConfig::default()
        };
        assert!(cfg.validate().is_ok(), "{days:?} should validate");
    }
    let cfg = StatsConfig {
        retention_days: Some(3651),
        ..StatsConfig::default()
    };
    assert!(cfg.validate().is_err(), "above the 3650 cap must fail");
}

fn config_with_search_threshold(t: f64) -> EngramConfig {
    let mut cfg = EngramConfig::default();
    cfg.search.threshold = float(t);
    cfg
}

#[test]
fn search_threshold_negative_is_rejected() {
    let err = check(&config_with_search_threshold(-0.1)).unwrap_err();
    assert!(
        text(&err).contains("search.threshold"),
        "unexpected message: {}",
        text(&err)
    );
}

#[test]
fn search_threshold_nan_is_rejected() {
    assert!(check(&config_with_search_threshold(f64::NAN)).is_err());
}

#[test]
fn search_threshold_valid_range_is_accepted() {
    for t in [0.0, 0.2, 0.5, 1.0] {
        assert!(
            check(&config_with_search_threshold(t)).is_ok(),
            "{t} should validate"
        );
    }
    assert!(check(&config_with_search_threshold(-0.0)).is_ok());
}

#[test]
fn search_threshold_above_one_is_tolerated_for_backcompat() {
    assert!(
        check(&config_with_search_threshold(5.0)).is_ok(),
        "a threshold over one must remain tolerated"
    );
}
