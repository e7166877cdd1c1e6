use hypomnema::config::{IgnorePatternError, LoggingConfig, WatcherConfig};
use hypomnema::control_plane::VaultStatus;
use hypomnema::events::{EventType, FileChangedEvent};
use hypomnema::legacy_state_migration::meta_toml_content;
use hypomnema::logging::{compose_filter, BinaryKind};
use tracing_subscriber::EnvFilter;

fn default_cfg() -> LoggingConfig {
    LoggingConfig::default()
}

#[test]
fn composed_directive_parses_for_hmn_mcp() {
    for v in 0u8..=3 {
        let directive = compose_filter(&default_cfg(), v, BinaryKind::HmnMcp, None);
        EnvFilter::try_new(&directive)
            .unwrap_or_else(|e| panic!("directive {directive:?} failed to parse: {e}"));
    }
}

#[test]
fn composed_directive_parses_as_envfilter() {
    for binary in [BinaryKind::Hmnd, BinaryKind::Hmn, BinaryKind::HmnMcp] {
        for v in 0u8..=3 {
            let directive = compose_filter(&default_cfg(), v, binary, None);
            EnvFilter::try_new(&directive)
                .unwrap_or_else(|e| panic!("directive {directive:?} failed to parse: {e}"));
        }
    }
}

#[test]
fn bumped_directive_parses_as_envfilter() {
    let cfg = LoggingConfig {
        level: "warn".to_string(),
        notify_level: "info".to_string(),
        tokio_level: "debug".to_string(),
    };
    for binary in [BinaryKind::Hmnd, BinaryKind::Hmn, BinaryKind::HmnMcp] {
        for v in 0u8..=3 {
            let directive = compose_filter(&cfg, v, binary, None);
            EnvFilter::try_new(&directive)
                .unwrap_or_else(|e| panic!("directive {directive:?} failed to parse: {e}"));
        }
    }
}

#[test]
fn file_changed_now_produces_rfc3339_detected_at() {
    let ev = FileChangedEvent::now("vault-1".to_string(), EventType::Created, "a.md".to_string(), None);
    chrono::DateTime::parse_from_rfc3339(&ev.detected_at)
        .unwrap_or_else(|e| panic!("detected_at not RFC3339: {} ({e})", ev.detected_at));
}

#[test]
fn meta_toml_round_trips_through_toml_parse() {
    let body = meta_toml_content(
        "abc-123",
        "my \"quoted\" vault",
        "/tmp/vault",
        VaultStatus::Active,
        "2026-04-01T00:00:00+00:00",
        None,
    );
    let parsed: toml::Value = toml::from_str(&body).expect("meta.toml parses as TOML");
    assert_eq!(parsed["id"].as_str(), Some("abc-123"));
    assert_eq!(parsed["name"].as_str(), Some("my \"quoted\" vault"));
    assert_eq!(parsed["status"].as_str(), Some("active"));
}

#[test]
fn default_ignore_patterns_compile() {
    let w = hypomnema::config::WatcherConfig::default();
    let set = w.compiled_ignores().expect("defaults compile");
    assert_eq!(set.len(), 5);
    assert!(set.is_match(".git/config"));
    assert!(!set.is_match("notes/a.md"));
}

#[test]
fn first_invalid_ignore_pattern_is_reported() {
    let w = WatcherConfig {
        debounce_ms: 1,
        ignore_patterns: vec!["*.md".to_string(), "[abc".to_string(), "b[".to_string()],
    };
    let err = w.compiled_ignores().unwrap_err();
    match &err {
        IgnorePatternError::InvalidPattern { pattern, .. } => assert_eq!(pattern, "[abc"),
        other => panic!("unexpected {other:?}"),
    }
    assert!(err
        .display_text()
        .starts_with("invalid ignore pattern in watcher.ignore_patterns: \"[abc\": "));
}

#[test]
fn extension_path_override_wins() {
    let e = hypomnema::config::EmbeddingConfig::default_with(Some("/home/u"), "so");
    assert_eq!(e.resolved_extension_path(None), "/home/u/.local/share/hypomnema/sqlite-vec.so");
    assert_eq!(e.resolved_extension_path(Some("/opt/vec.so".to_string())), "/opt/vec.so");
}

fn has_rfc3339_utc_micros_shape(s: &str) -> bool {
    let c: Vec<char> = s.chars().collect();
    if c.len() < 27 {
        return false;
    }
    let t = c.len() - 23;
    let digits = |from: usize, k: usize| (from..from + k).all(|j| c[j].is_ascii_digit());
    digits(t - 4, 4)
        && c[t] == '-'
        && digits(t + 1, 2)
        && c[t + 3] == '-'
        && digits(t + 4, 2)
        && c[t + 6] == 'T'
        && digits(t + 7, 2)
        && c[t + 9] == ':'
        && digits(t + 10, 2)
        && c[t + 12] == ':'
        && digits(t + 13, 2)
        && c[t + 15] == '.'
        && digits(t + 16, 6)
        && c[t + 22] == 'Z'
}

#[test]
fn event_stamps_are_utc_micros() {
    let ev = FileChangedEvent::now("v".to_string(), EventType::Deleted, "a.md".to_string(), None);
    assert!(has_rfc3339_utc_micros_shape(&ev.detected_at), "{}", ev.detected_at);
    let lag = hypomnema::events::StreamLaggedEvent::now_undirected(Some(3));
    assert!(has_rfc3339_utc_micros_shape(&lag.detected_at), "{}", lag.detected_at);
    assert!(!has_rfc3339_utc_micros_shape("2026-04-01T00:00:00+00:00"));
}

#[test]
fn ignore_set_is_built_from_every_pattern() {
    let w = WatcherConfig {
        debounce_ms: 1,
        ignore_patterns: vec!["*.tmp".to_string(), "drafts/**".to_string()],
    };
    let set = w.compiled_ignores().expect("valid patterns compile");
    assert_eq!(set.len(), 2);
    assert_eq!(set.matches("drafts/a.tmp"), vec![0, 1]);
    assert!(set.is_match("drafts/notes.md"));
    assert!(!set.is_match("notes/a.md"));
}
