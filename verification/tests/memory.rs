use engramdb::binary64::Binary64;
use engramdb::challenge::Challenge;
use engramdb::decay::{Decay, DecayStrategy, Span};
use engramdb::epistemic::{Epistemic, Generality, Validity};
use engramdb::memory::{default_decay, Memory, MemoryType, MemoryUpdate, Status, Visibility};
use engramdb::provenance::{Provenance, ProvenanceSource};
use engramdb::time::Timestamp;

const DAY: i64 = 86_400;

fn float(x: f64) -> Binary64 {
    Binary64 { bits: x.to_bits() }
}

fn at(secs: i64) -> Timestamp {
    Timestamp { secs, nanos: 0 }
}

fn from_now(secs: i64) -> Timestamp {
    at(chrono::Utc::now().timestamp() + secs)
}

fn memory(type_: MemoryType) -> Memory {
    Memory::new(type_, "Test summary", "Test content", Provenance::human())
}

#[test]
fn test_memory_new_defaults() {
    let memory = memory(MemoryType::Decision);

    assert_eq!(memory.criticality, float(0.5));
    assert_eq!(memory.confidence, float(0.8));
    assert_eq!(memory.physical, vec!["/".to_string()]);
    assert_eq!(memory.status, Status::Active);
    assert_eq!(memory.visibility, Visibility::Shared);
    assert!(memory.tags.is_empty());
    assert!(memory.logical.is_empty());
    assert!(memory.supersedes.is_empty());
    assert!(memory.challenges.is_empty());
}

#[test]
fn a_new_memory_has_a_fresh_uuid() {
    let a = memory(MemoryType::Decision);
    let b = memory(MemoryType::Decision);
    assert_ne!(a.id, b.id);
    assert_eq!(a.id.len(), 36);
    assert_eq!(a.id.as_bytes()[14], b'7');
    let parsed = uuid::Uuid::parse_str(&a.id).unwrap();
    assert_eq!(parsed.get_version_num(), 7);
    assert_eq!(a.created_at, a.updated_at);
    assert_eq!(a.created_at, a.accessed_at);
}

#[test]
fn test_memory_type_default_decay() {
    for t in [
        MemoryType::Decision,
        MemoryType::Convention,
        MemoryType::Context,
        MemoryType::Relationship,
        MemoryType::Preference,
    ] {
        assert_eq!(t.default_decay().unwrap().strategy, DecayStrategy::Off);
    }

    let hazard_decay = MemoryType::Hazard.default_decay().unwrap();
    assert_eq!(hazard_decay.strategy, DecayStrategy::Off);
    assert_eq!(hazard_decay.floor, float(0.5));

    let intent_decay = MemoryType::Intent.default_decay().unwrap();
    assert_eq!(intent_decay.strategy, DecayStrategy::Exponential);
    assert_eq!(intent_decay.half_life, Some(Span::days(14)));

    let debug_decay = MemoryType::Debug.default_decay().unwrap();
    assert_eq!(debug_decay.strategy, DecayStrategy::Exponential);
    assert_eq!(debug_decay.half_life, Some(Span::days(30)));
}

#[test]
fn a_day_has_86400_seconds() {
    assert_eq!(Span::days(14), Span { secs: 1_209_600, nanos: 0 });
}

#[test]
fn test_memory_touch() {
    let mut memory = memory(MemoryType::Decision);
    memory.accessed_at = at(5);
    memory.touch();
    assert!(memory.accessed_at > at(5));
    memory.touch_at(at(7));
    assert_eq!(memory.accessed_at, at(7));
}

#[test]
fn an_update_is_recorded() {
    let mut memory = memory(MemoryType::Decision);
    memory.updated_at = at(5);
    let accessed_at = memory.accessed_at;
    memory.mark_updated();
    assert!(memory.updated_at > at(5));
    memory.mark_updated_at(at(7));
    assert_eq!(memory.updated_at, at(7));
    assert_eq!(memory.accessed_at, accessed_at);
}

#[test]
fn test_memory_add_challenge() {
    let mut memory = memory(MemoryType::Decision);
    memory.updated_at = at(5);
    memory.add_challenge(Challenge::new("Evidence of contradiction"));

    assert_eq!(memory.challenges.len(), 1);
    assert_eq!(memory.status, Status::Challenged);
    assert!(memory.updated_at > at(5));
}

#[test]
fn test_memory_is_expired_none() {
    assert!(!memory(MemoryType::Decision).is_expired());
}

#[test]
fn test_memory_is_expired_future() {
    let mut memory = memory(MemoryType::Decision);
    memory.expires_at = Some(from_now(DAY));
    assert!(!memory.is_expired());
}

#[test]
fn test_memory_is_expired_past() {
    let mut memory = memory(MemoryType::Decision);
    memory.expires_at = Some(from_now(-DAY));
    assert!(memory.is_expired());
}

#[test]
fn a_memory_expires_after_its_time_and_is_invalid_from_its_time_on() {
    let mut memory = memory(MemoryType::Decision);
    memory.expires_at = Some(at(100));
    assert!(!memory.is_expired_at(at(100)));
    assert!(memory.is_expired_at(at(101)));
    memory.expires_at = None;
    memory.invalidated_at = Some(at(100));
    assert!(!memory.is_invalidated_at(at(99)));
    assert!(memory.is_invalidated_at(at(100)));
}

#[test]
fn test_memory_is_active() {
    let mut memory = memory(MemoryType::Decision);
    assert!(memory.is_active());

    memory.status = Status::Challenged;
    assert!(!memory.is_active());

    memory.status = Status::Active;
    memory.expires_at = Some(from_now(-DAY));
    assert!(!memory.is_active());
}

#[test]
fn test_memory_update_apply_partial() {
    let mut memory = Memory::new(
        MemoryType::Decision,
        "Original summary",
        "Original content",
        Provenance::human(),
    );
    memory.updated_at = at(5);
    let mut update = MemoryUpdate::new();
    update.summary = Some("New summary".to_string());
    update.apply_to(&mut memory);

    assert_eq!(memory.summary, "New summary");
    assert_eq!(memory.content, "Original content");
    assert!(memory.updated_at > at(5));
}

#[test]
fn test_memory_update_apply_all_fields() {
    let mut memory = memory(MemoryType::Decision);
    let id = memory.id.clone();
    let update = MemoryUpdate {
        type_: Some(MemoryType::Convention),
        epistemic: None,
        valid_while: None,
        valid_from: None,
        invalidated_at: None,
        superseded_by: None,
        clear_invalidated: false,
        summary: Some("New summary".to_string()),
        title: None,
        content: Some("New content".to_string()),
        details: Some("New details".to_string()),
        physical: Some(vec!["/src/main.rs".to_string()]),
        logical: Some(vec!["app.core".to_string()]),
        tags: Some(vec!["tag1".to_string()]),
        criticality: Some(float(0.9)),
        decay: Some(Decay::exponential(Span::days(7))),
        provenance: Some(Provenance::agent("test-agent")),
        confidence: Some(float(0.95)),
        supersedes: Some(vec!["old-id".to_string()]),
        status: Some(Status::NeedsReview),
        challenges: None,
        visibility: Some(Visibility::Personal),
        verified_at: Some(at(10)),
        expires_at: Some(from_now(30 * DAY)),
    };
    update.apply_to_at(&mut memory, at(11));

    assert_eq!(memory.id, id);
    assert_eq!(memory.type_, MemoryType::Convention);
    assert_eq!(memory.summary, "New summary");
    assert_eq!(memory.content, "New content");
    assert_eq!(memory.details, Some("New details".to_string()));
    assert_eq!(memory.physical, vec!["/src/main.rs".to_string()]);
    assert_eq!(memory.logical, vec!["app.core".to_string()]);
    assert_eq!(memory.tags, vec!["tag1".to_string()]);
    assert_eq!(memory.criticality, float(0.9));
    assert_eq!(memory.confidence, float(0.95));
    assert_eq!(memory.supersedes, vec!["old-id".to_string()]);
    assert_eq!(memory.status, Status::NeedsReview);
    assert_eq!(memory.visibility, Visibility::Personal);
    assert!(memory.expires_at.is_some());
    assert_eq!(memory.verified_at, Some(at(10)));
    assert_eq!(memory.provenance.source, ProvenanceSource::Agent);
    assert_eq!(memory.updated_at, at(11));
}

#[test]
fn test_memory_verified_at_default_is_none() {
    assert!(memory(MemoryType::Decision).verified_at.is_none());
}

#[test]
fn test_memory_update_apply_challenges() {
    let mut memory = memory(MemoryType::Decision);
    assert!(memory.challenges.is_empty());

    let mut update = MemoryUpdate::new();
    update.challenges = Some(vec![
        Challenge::new("First evidence"),
        Challenge::new("Second evidence"),
    ]);
    update.status = Some(Status::Challenged);
    update.apply_to(&mut memory);

    assert_eq!(memory.challenges.len(), 2);
    assert_eq!(memory.challenges[0].evidence, "First evidence");
    assert_eq!(memory.challenges[1].evidence, "Second evidence");
    assert_eq!(memory.status, Status::Challenged);
}

#[test]
fn test_memory_update_none_challenges_preserves_existing() {
    let mut memory = memory(MemoryType::Decision);
    memory.add_challenge(Challenge::new("Existing challenge"));

    MemoryUpdate::new().apply_to(&mut memory);

    assert_eq!(memory.challenges.len(), 1);
    assert_eq!(memory.challenges[0].evidence, "Existing challenge");
}

#[test]
fn test_default_epistemic_mapping() {
    assert_eq!(MemoryType::Context.default_epistemic(), Epistemic::Fact);
    assert_eq!(MemoryType::Convention.default_epistemic(), Epistemic::Fact);
    assert_eq!(
        MemoryType::Relationship.default_epistemic(),
        Epistemic::Fact
    );
    assert_eq!(MemoryType::Hazard.default_epistemic(), Epistemic::Fact);
    assert_eq!(
        MemoryType::Debug.default_epistemic(),
        Epistemic::Observation
    );
    assert_eq!(
        MemoryType::Decision.default_epistemic(),
        Epistemic::Decision
    );
    assert_eq!(MemoryType::Intent.default_epistemic(), Epistemic::Decision);
    assert_eq!(
        MemoryType::Preference.default_epistemic(),
        Epistemic::Decision
    );
}

#[test]
fn test_default_decay_diagonal_invariant() {
    for t in [
        MemoryType::Decision,
        MemoryType::Convention,
        MemoryType::Hazard,
        MemoryType::Context,
        MemoryType::Intent,
        MemoryType::Relationship,
        MemoryType::Debug,
        MemoryType::Preference,
    ] {
        let diagonal = default_decay(t, t.default_epistemic());
        let own = t.default_decay();
        match (diagonal, own) {
            (Some(a), Some(b)) => {
                assert_eq!(a.strategy, b.strategy, "strategy drift for {t:?}");
                assert_eq!(a.half_life, b.half_life, "half_life drift for {t:?}");
                assert_eq!(a.ttl, b.ttl, "ttl drift for {t:?}");
                assert_eq!(a.floor, b.floor, "floor drift for {t:?}");
            }
            (None, None) => {}
            (a, b) => panic!("diagonal decay mismatch for {t:?}: {a:?} vs {b:?}"),
        }
    }
}

#[test]
fn test_default_decay_off_diagonal() {
    let obs = default_decay(MemoryType::Convention, Epistemic::Observation).unwrap();
    assert_eq!(obs.strategy, DecayStrategy::Exponential);
    assert_eq!(obs.half_life, Some(Span::days(90)));
    assert_eq!(obs.floor, float(0.2));

    let fact = default_decay(MemoryType::Debug, Epistemic::Fact).unwrap();
    assert_eq!(fact.strategy, DecayStrategy::Off);

    let dec = default_decay(MemoryType::Convention, Epistemic::Decision).unwrap();
    assert_eq!(dec.strategy, DecayStrategy::Off);
    let dbg_dec = default_decay(MemoryType::Debug, Epistemic::Decision).unwrap();
    assert_eq!(dbg_dec.strategy, DecayStrategy::Exponential);
    assert_eq!(dbg_dec.half_life, Some(Span::days(30)));
}

#[test]
fn test_memory_new_epistemic_defaults() {
    for t in [
        MemoryType::Decision,
        MemoryType::Hazard,
        MemoryType::Debug,
        MemoryType::Convention,
    ] {
        let memory = Memory::new(t, "s", "c", Provenance::human());
        assert_eq!(memory.epistemic, t.default_epistemic());
        assert!(memory.valid_while.is_none());
        assert!(memory.valid_from.is_none());
        assert!(memory.invalidated_at.is_none());
        assert!(memory.superseded_by.is_none());
    }
}

#[test]
fn test_memory_update_apply_epistemic_and_validity() {
    let mut memory = memory(MemoryType::Convention);
    assert_eq!(memory.epistemic, Epistemic::Fact);

    let mut update = MemoryUpdate::new();
    update.epistemic = Some(Epistemic::Decision);
    update.valid_while = Some(Validity {
        premise: Some("while rate limits exist".into()),
        origin_task: Some("demo".into()),
        generality: Generality::Task,
        ..Default::default()
    });
    update.apply_to(&mut memory);
    assert_eq!(memory.epistemic, Epistemic::Decision);
    let vw = memory.valid_while.as_ref().unwrap();
    assert_eq!(vw.origin_task.as_deref(), Some("demo"));
    assert_eq!(vw.generality, Generality::Task);

    let mut clear = MemoryUpdate::new();
    clear.valid_while = Some(Validity::default());
    clear.apply_to(&mut memory);
    assert!(memory.valid_while.is_none());

    MemoryUpdate::new().apply_to(&mut memory);
    assert_eq!(memory.epistemic, Epistemic::Decision);
}

#[test]
fn test_memory_update_invalidate_and_reopen() {
    let mut memory = memory(MemoryType::Decision);

    let mut invalidate = MemoryUpdate::new();
    invalidate.invalidated_at = Some(from_now(-3600));
    invalidate.superseded_by = Some("winner-id".to_string());
    invalidate.apply_to(&mut memory);
    assert!(memory.is_invalidated());
    assert_eq!(memory.superseded_by.as_deref(), Some("winner-id"));

    let mut reopen = MemoryUpdate::new();
    reopen.clear_invalidated = true;
    reopen.apply_to(&mut memory);
    assert!(!memory.is_invalidated());
    assert!(memory.invalidated_at.is_none());
    assert!(memory.superseded_by.is_none());
}

#[test]
fn reopening_beats_what_the_same_update_sets() {
    let mut memory = memory(MemoryType::Decision);
    let mut update = MemoryUpdate::new();
    update.invalidated_at = Some(at(1));
    update.superseded_by = Some("x".to_string());
    update.clear_invalidated = true;
    update.apply_to_at(&mut memory, at(2));
    assert_eq!(memory.invalidated_at, None);
    assert_eq!(memory.superseded_by, None);
    update.apply_to_at(&mut memory, at(2));
    assert_eq!(memory.invalidated_at, None);
}

#[test]
fn test_is_active_invalidated() {
    let mut memory = memory(MemoryType::Decision);
    assert!(memory.is_active());

    memory.invalidated_at = Some(from_now(-DAY));
    assert!(memory.is_invalidated());
    assert!(!memory.is_active());

    memory.invalidated_at = Some(from_now(DAY));
    assert!(!memory.is_invalidated());
    assert!(memory.is_active());

    memory.invalidated_at = None;
    assert!(memory.is_active());
}

#[test]
fn test_memory_new_title_is_none() {
    assert_eq!(memory(MemoryType::Decision).title, None);
}

#[test]
fn test_memory_update_apply_title() {
    let mut memory = memory(MemoryType::Decision);
    assert_eq!(memory.title, None);

    let mut update = MemoryUpdate::new();
    update.title = Some("My Title".to_string());
    update.apply_to(&mut memory);

    assert_eq!(memory.title, Some("My Title".to_string()));
}

#[test]
fn test_memory_update_none_title_preserves_existing() {
    let mut memory = memory(MemoryType::Decision);
    memory.title = Some("Existing Title".to_string());

    MemoryUpdate::new().apply_to(&mut memory);

    assert_eq!(memory.title, Some("Existing Title".to_string()));
}
