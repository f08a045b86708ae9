use engramdb::challenge::Challenge;
use engramdb::env::in_process_override;
use engramdb::epistemic::{Epistemic, Generality, Situation, Validity};
use engramdb::project_list_grouping::ProjectListGrouping;
use engramdb::time::Timestamp;
use engramdb::title_strategy::TitleStrategy;

#[test]
fn parse_keyword_aliases() {
    for s in ["keyword", "keywords", "rake", "KEYWORD", "Rake"] {
        assert_eq!(TitleStrategy::parse(s).unwrap(), TitleStrategy::Keyword);
    }
}

#[test]
fn parse_t5_aliases() {
    for s in ["t5", "t5-small", "model", "T5", "Model"] {
        assert_eq!(TitleStrategy::parse(s).unwrap(), TitleStrategy::T5);
    }
}

#[test]
fn title_strategy_parse_none_aliases() {
    for s in ["none", "off", "disabled", "NONE", "Off"] {
        assert_eq!(TitleStrategy::parse(s).unwrap(), TitleStrategy::Off);
    }
}

#[test]
fn title_strategy_parse_invalid_is_error() {
    let err = TitleStrategy::parse("nonsense").unwrap_err().to_string();
    assert!(err.contains("Invalid title strategy"));
    assert!(err.contains("nonsense"));
}

#[test]
fn default_is_keyword() {
    assert_eq!(TitleStrategy::default(), TitleStrategy::Keyword);
}

#[test]
fn parse_always_aliases() {
    for s in ["always", "all", "full", "ALWAYS", "Full"] {
        assert_eq!(
            ProjectListGrouping::parse(s).unwrap(),
            ProjectListGrouping::Always
        );
    }
}

#[test]
fn parse_auto_aliases() {
    for s in ["auto", "smart", "AUTO", "Smart"] {
        assert_eq!(
            ProjectListGrouping::parse(s).unwrap(),
            ProjectListGrouping::Auto
        );
    }
}

#[test]
fn project_list_grouping_parse_none_aliases() {
    for s in ["none", "off", "flat", "NONE", "Off"] {
        assert_eq!(
            ProjectListGrouping::parse(s).unwrap(),
            ProjectListGrouping::Off
        );
    }
}

#[test]
fn project_list_grouping_parse_invalid_is_error() {
    let err = ProjectListGrouping::parse("nonsense")
        .unwrap_err()
        .to_string();
    assert!(err.contains("Invalid project list grouping"));
    assert!(err.contains("nonsense"));
}

#[test]
fn default_is_auto() {
    assert_eq!(ProjectListGrouping::default(), ProjectListGrouping::Auto);
}

#[test]
fn test_from_str_roundtrip_and_errors() {
    for e in [Epistemic::Fact, Epistemic::Observation, Epistemic::Decision] {
        assert_eq!(e.as_str().parse::<Epistemic>().unwrap(), e);
    }
    for g in [Generality::Project, Generality::Task] {
        assert_eq!(g.as_str().parse::<Generality>().unwrap(), g);
    }
    for s in [
        Situation::SessionStart,
        Situation::FileEdit,
        Situation::Debugging,
        Situation::DesignChoice,
    ] {
        assert_eq!(s.as_str().parse::<Situation>().unwrap(), s);
    }
    assert!("bogus".parse::<Epistemic>().is_err());
    assert!("bogus".parse::<Generality>().is_err());
    assert!("bogus".parse::<Situation>().is_err());
}

#[test]
fn names_are_lower_case_with_underscores() {
    assert_eq!(Epistemic::Fact.as_str(), "fact");
    assert_eq!(Epistemic::Observation.as_str(), "observation");
    assert_eq!(Epistemic::Decision.as_str(), "decision");
    assert_eq!(Generality::Project.as_str(), "project");
    assert_eq!(Situation::DesignChoice.as_str(), "design_choice");
    assert_eq!(Situation::SessionStart.as_str(), "session_start");
    assert_eq!(Situation::FileEdit.as_str(), "file_edit");
    assert_eq!(Situation::from_name("design_choice"), Ok(Situation::DesignChoice));
}

#[test]
fn test_validity_is_empty() {
    assert!(Validity::default().is_empty());

    let g_only = Validity {
        generality: Generality::Task,
        ..Default::default()
    };
    assert!(g_only.is_empty());

    let premise = Validity {
        premise: Some("while we pin ort rc.12".into()),
        ..Default::default()
    };
    assert!(!premise.is_empty());

    let watch = Validity {
        invalidated_by: vec!["Cargo.lock".into()],
        ..Default::default()
    };
    assert!(!watch.is_empty());

    let task = Validity {
        origin_task: Some("demo".into()),
        ..Default::default()
    };
    assert!(!task.is_empty());

    let derived = Validity {
        derived_from: vec!["abc".into()],
        ..Default::default()
    };
    assert!(!derived.is_empty());
}

#[test]
fn truthy_values_enable_override() {
    for v in ["1", "true", "TRUE", "Yes", "on"] {
        assert!(in_process_override(Some(v)), "{v:?} should be truthy");
    }
}

#[test]
fn falsy_or_unset_disables_override() {
    for v in ["0", "false", "no", "off", ""] {
        assert!(!in_process_override(Some(v)), "{v:?} should be falsy");
    }
    assert!(!in_process_override(None));
}

#[test]
fn test_challenge_new() {
    let challenge = Challenge::new("evidence");
    assert_eq!(challenge.evidence, "evidence");
    assert_eq!(challenge.agent_id, None);
    assert_eq!(challenge.source_file, None);
    let now = chrono::Utc::now().timestamp();
    assert!((now - challenge.timestamp.secs).abs() <= 1);
}

#[test]
fn a_challenge_is_stamped_with_the_given_time() {
    let at = Timestamp { secs: 1000, nanos: 7 };
    assert_eq!(Challenge::new_at("evidence", at).timestamp, at);
}

#[test]
fn test_challenge_builder() {
    let challenge = Challenge::new("evidence")
        .with_agent("a1")
        .with_source_file("f.rs");

    assert_eq!(challenge.evidence, "evidence");
    assert_eq!(challenge.agent_id, Some("a1".to_string()));
    assert_eq!(challenge.source_file, Some("f.rs".to_string()));
}
