use hypomnema::control_plane::{
    closest_name, is_valid_vault_name, levenshtein, pause_plan, resolve_create_name,
    resolve_name_or_id, resume_plan, ControlPlaneError, PausePlan, ResumePlan, VaultRef,
    VaultStatus,
};
use hypomnema::embedding::{
    after_failure, after_success, align_batch, check_dimensions, first_batch, is_retryable,
    should_shrink, truncate_for_display, BatchStep, EmbeddingError, StubEmbedder,
};
use hypomnema::events::{event_in_set, event_vault_matches, EventType, StreamEvent, StreamLaggedEvent};
use hypomnema::indexer::{file_hash_of_bytes, stat_gate_hit, to_forward_slash, ProcessEffect, ReindexOutcome, ScanReport, StoredFile};
use hypomnema::legacy_state_migration::{classify_path, meta_toml_content, toml_escape, PathProbe};

#[test]
fn truncate_for_display_bounds_long_bodies() {
    let short = "small error";
    assert_eq!(truncate_for_display(short), short);

    let long = "x".repeat(1000);
    let rendered = truncate_for_display(&long);
    assert!(rendered.len() < long.len());
    assert!(rendered.contains("1000 bytes total"));
    assert!(rendered.starts_with("xxx"));
}

#[test]
fn embedding_failures_are_classified() {
    assert!(is_retryable(&EmbeddingError::Transport("refused".to_string())));
    assert!(is_retryable(&EmbeddingError::Status { code: 503, body: String::new() }));
    assert!(!is_retryable(&EmbeddingError::Status { code: 404, body: String::new() }));
    assert!(should_shrink(&EmbeddingError::Status { code: 413, body: String::new() }));
    assert!(!should_shrink(&EmbeddingError::Status { code: 429, body: String::new() }));
    assert_eq!(
        EmbeddingError::DimensionMismatch { expected: 768, actual: 384 }.display_text(),
        "embedding dimension mismatch: expected 768, got 384"
    );
    assert_eq!(
        EmbeddingError::Status { code: 500, body: "oops".to_string() }.display_text(),
        "embedding service returned HTTP 500: oops"
    );
}

#[test]
fn batch_responses_are_aligned_by_index() {
    assert_eq!(align_batch(3, &vec![None, None, None]).unwrap(), vec![0, 1, 2]);
    assert_eq!(align_batch(3, &vec![Some(2), Some(0), Some(1)]).unwrap(), vec![1, 2, 0]);
    assert!(matches!(
        align_batch(2, &vec![Some(0)]),
        Err(EmbeddingError::CountMismatch { expected: 2, actual: 1 })
    ));
    assert!(matches!(align_batch(2, &vec![Some(0), None]), Err(EmbeddingError::ResponseShape(_))));
    assert!(matches!(align_batch(2, &vec![Some(0), Some(0)]), Err(EmbeddingError::ResponseShape(_))));
    assert!(matches!(align_batch(2, &vec![Some(0), Some(2)]), Err(EmbeddingError::ResponseShape(_))));
    assert!(check_dimensions(&vec![4, 4], 4).is_ok());
    assert!(matches!(
        check_dimensions(&vec![4, 3], 4),
        Err(EmbeddingError::DimensionMismatch { expected: 4, actual: 3 })
    ));
}

#[test]
fn batch_size_shrinks_on_rejection() {
    assert_eq!(first_batch(0, 5), BatchStep::Send { next: 0, end: 1, size: 1 });
    assert_eq!(first_batch(8, 5), BatchStep::Send { next: 0, end: 5, size: 8 });
    assert_eq!(first_batch(8, 0), BatchStep::Done);
    assert_eq!(after_failure(0, 5, 8, 5, true), BatchStep::Send { next: 0, end: 4, size: 4 });
    assert_eq!(after_failure(2, 3, 1, 5, true), BatchStep::Fail);
    assert_eq!(after_failure(0, 5, 8, 5, false), BatchStep::Fail);
    assert_eq!(after_success(4, 4, 5), BatchStep::Send { next: 4, end: 5, size: 4 });
    assert_eq!(after_success(5, 4, 5), BatchStep::Done);
    assert_eq!(StubEmbedder::new(7).dimension, 7);
}

#[test]
fn edit_distance_and_hints() {
    assert_eq!(levenshtein("kitten", "sitting"), 3);
    assert_eq!(levenshtein("", "abc"), 3);
    assert_eq!(levenshtein("same", "same"), 0);
    assert_eq!(levenshtein("flaw", "lawn"), levenshtein("lawn", "flaw"));
    let names = vec!["personal".to_string(), "work".to_string(), "worm".to_string()];
    assert_eq!(closest_name("wrk", &names), Some("work".to_string()));
    assert_eq!(closest_name("zzzzzzzz", &names), None);
}

#[test]
fn names_and_resolution() {
    assert!(is_valid_vault_name("my-vault_2"));
    assert!(!is_valid_vault_name(""));
    assert!(!is_valid_vault_name("a b"));
    assert_eq!(resolve_create_name(Some("  x "), "d").unwrap(), "x");
    assert_eq!(resolve_create_name(Some("  "), " d ").unwrap(), "d");
    assert!(resolve_create_name(None, "").is_err());
    let vaults = vec![
        VaultRef { id: "id-a".to_string(), name: "alpha".to_string() },
        VaultRef { id: "id-b".to_string(), name: "beta".to_string() },
    ];
    assert_eq!(resolve_name_or_id(&vaults, "beta").unwrap(), "id-b");
    assert_eq!(resolve_name_or_id(&vaults, "id-a").unwrap(), "id-a");
    match resolve_name_or_id(&vaults, "alpah") {
        Err(ControlPlaneError::VaultNotFound { name_or_id, hint }) => {
            assert_eq!(name_or_id, "alpah");
            assert_eq!(hint, Some("alpha".to_string()));
        }
        other => panic!("unexpected {other:?}"),
    }
    assert_eq!(
        ControlPlaneError::VaultNotFound { name_or_id: "x".to_string(), hint: Some("y".to_string()) }
            .display_text(),
        "vault_not_found: x (did you mean y?)"
    );
}

#[test]
fn lifecycle_decisions() {
    assert_eq!(pause_plan(VaultStatus::Paused), PausePlan::AlreadyPaused);
    assert_eq!(pause_plan(VaultStatus::Active), PausePlan::Drain);
    assert_eq!(resume_plan(Some(VaultStatus::Active), VaultStatus::Paused, true), ResumePlan::AlreadyActive);
    assert_eq!(resume_plan(Some(VaultStatus::Errored), VaultStatus::Errored, false), ResumePlan::RefuseErrored);
    assert_eq!(resume_plan(None, VaultStatus::Paused, false), ResumePlan::SpawnRunner);
    assert_eq!(VaultStatus::Errored.as_str(), "errored");
}

#[test]
fn events_reach_their_subscribers() {
    let ev = StreamEvent::file_changed("v1".to_string(), EventType::Modified, "a.md".to_string(), None);
    assert!(event_vault_matches(&ev, "v1"));
    assert!(!event_vault_matches(&ev, "v2"));
    assert!(event_in_set(&ev, &vec!["v0".to_string(), "v1".to_string()]));
    let lag = StreamEvent::StreamLagged(StreamLaggedEvent::now_undirected(Some(3)));
    assert!(event_vault_matches(&lag, "anything"));
    assert!(event_in_set(&lag, &vec![]));
    let lag1 = StreamEvent::stream_lagged_for_vault("v1".to_string(), None);
    assert!(!event_in_set(&lag1, &vec!["v2".to_string()]));
    match ev {
        StreamEvent::FileChanged(f) => assert!(!f.detected_at.is_empty()),
        _ => panic!(),
    }
}

#[test]
fn indexing_decisions() {
    let prior = StoredFile { size: 10, mtime: "t".to_string(), content_hash: "h".to_string() };
    assert!(stat_gate_hit(Some(&prior), 10, "t"));
    assert!(!stat_gate_hit(Some(&prior), 11, "t"));
    let rebuilt = StoredFile { content_hash: String::new(), ..prior.clone() };
    assert!(!stat_gate_hit(Some(&rebuilt), 10, "t"));
    assert_eq!(ProcessEffect::StatGateHit.into_outcome(), ReindexOutcome::HashUnchanged);
    let mut report = ScanReport::default();
    report.tally(&ProcessEffect::HashMatched);
    report.tally(&ProcessEffect::EmbeddingSkipped);
    assert_eq!(report.hash_unchanged, 1);
    assert_eq!(
        file_hash_of_bytes(b"hello world"),
        "sha256:b94d27b9934d3e08a52e52d7da7dabfac484efe37a5380ee9088f7ace2efcde9"
    );
    assert_eq!(
        file_hash_of_bytes(b""),
        "sha256:e3b0c44298fc1c149afbf4c8996fb92427ae41e4649b934ca495991b7852b855"
    );
    assert_eq!(to_forward_slash("a\\b\\c.md", '\\'), "a/b/c.md");
    assert_eq!(to_forward_slash("a/b.md", '/'), "a/b.md");
}

#[test]
fn meta_toml_is_escaped() {
    assert_eq!(toml_escape("a\"b\\c"), "a\\\"b\\\\c");
    let t = meta_toml_content("id1", "n\"q", "/p", VaultStatus::Active, "2026-01-01T00:00:00.000000Z", Some("e"));
    assert!(t.contains("name = \"n\\\"q\"\n"));
    assert!(t.contains("status = \"active\"\n"));
    assert!(t.ends_with("last_error = \"e\"\n"));
    let (s, e) = classify_path("/v", &PathProbe::NotDirectory);
    assert_eq!(s, VaultStatus::Errored);
    assert_eq!(e.unwrap(), "vault path /v is not a directory");
    assert_eq!(classify_path("/v", &PathProbe::Directory { listing_error: None }), (VaultStatus::Active, None));
}
