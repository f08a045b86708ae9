use engramdb::normalize::{
    is_stopword, normalize, normalize_counts, normalize_set, KeywordStems, NORMALIZER_STAMP,
};

#[test]
fn stems_inflections_together() {
    for (query, document) in [
        ("compressing", "Compression merges near duplicate memories"),
        ("serializing", "Registry writes serialize on a lock file"),
        ("validating", "Summary length is validated before storing"),
        (
            "authenticating",
            "The server authenticates nothing on stdio",
        ),
        ("quantizing", "The default model is int8 quantized"),
        ("expiring", "Step decay holds until the ttl expires"),
    ] {
        let q = normalize(query);
        let d = normalize_set(document);
        assert_eq!(q.len(), 1, "query should reduce to one term: {q:?}");
        assert!(
            d.contains(&q[0]),
            "`{query}` -> {:?} should be found in {d:?}",
            q[0]
        );
    }
}

#[test]
fn drops_stopwords() {
    let tokens = normalize("what is the flock for");
    assert_eq!(tokens, vec!["flock"], "only the meaningful term survives");
}

#[test]
fn all_stopword_query_is_empty() {
    assert!(normalize("what is the").is_empty());
}

#[test]
fn deduplicates_repeated_terms() {
    let tokens = normalize("daemon and the daemon and the daemon");
    assert_eq!(tokens, vec!["daemon"]);
}

#[test]
fn preserves_distinct_terms_and_order() {
    let tokens = normalize("retry policy backoff");
    assert_eq!(tokens, vec!["retri", "polici", "backoff"]);
}

#[test]
fn splits_on_punctuation_and_case() {
    let tokens = normalize("Cache-Invalidation, CONFIG_change");
    assert!(tokens.contains(&"cach".to_string()));
    assert!(tokens.contains(&"invalid".to_string()));
    assert!(tokens.contains(&"config".to_string()));
    assert!(tokens.contains(&"chang".to_string()));
}

#[test]
fn stamp_is_stable() {
    assert!(!NORMALIZER_STAMP.is_empty());
    assert!(NORMALIZER_STAMP.contains("v1"));
}

#[test]
fn letters_beyond_ascii_are_lowered_and_kept() {
    assert_eq!(normalize("ÄPFEL"), vec!["äpfel"]);
    assert_eq!(normalize("naïve–approach"), vec!["naïv", "approach"]);
}

#[test]
fn counts_every_occurrence() {
    let (counts, total) = normalize_counts("retry the retries; backoff");
    assert_eq!(total, 3);
    assert!(counts.contains(&("retri".to_string(), 2)));
    assert!(counts.contains(&("backoff".to_string(), 1)));
    assert_eq!(counts.len(), 2);
}

#[test]
fn keyword_stems_keep_the_fields_apart() {
    let tags = vec!["locking".to_string()];
    let stems = KeywordStems::compute("Flock rules", &tags, "retry and retry");
    assert!(stems.in_summary("flock"));
    assert!(!stems.in_tags("flock"));
    assert!(stems.in_tags("lock"));
    assert!(stems.contains("retri"));
    assert!(!stems.contains("retry"));
    assert_eq!(stems.content_freq("retri"), 2);
    assert_eq!(stems.content_freq("flock"), 0);
}

#[test]
fn only_function_words_are_stopwords() {
    for word in ["the", "and", "of", "is"] {
        assert!(is_stopword(word), "{word}");
    }
    for word in ["The", "database", "", "thé"] {
        assert!(!is_stopword(word), "{word}");
    }
}

#[test]
fn texts_normalize_one_after_another() {
    assert_eq!(
        normalize("Locks retry Backoff retrying"),
        vec!["lock", "retri", "backoff"]
    );
    let mut apart = normalize("Locks retry");
    for term in normalize("Backoff retrying") {
        if !apart.contains(&term) {
            apart.push(term);
        }
    }
    assert_eq!(apart, normalize("Locks retry Backoff retrying"));
}

#[test]
fn tag_terms_are_those_of_the_joined_tags() {
    let tags = vec![
        "file-locking".to_string(),
        "retry".to_string(),
        String::new(),
        "locks".to_string(),
    ];
    let stems = KeywordStems::compute("", &tags, "");
    assert_eq!(stems.tags, normalize(&tags.join(" ")));
    assert_eq!(stems.tags, vec!["file", "lock", "retri"]);
}
