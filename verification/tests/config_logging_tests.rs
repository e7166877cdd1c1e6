use hypomnema::config::{expand_tilde, parse_level, Config, LoggingConfig, WatcherConfig};
use hypomnema::logging::{bump, compose_filter, BinaryKind, LogLevel};

#[test]
fn parse_level_accepts_standard_levels() {
    for s in ["trace", "debug", "info", "warn", "error", "INFO", "Warn"] {
        parse_level(s, "test").unwrap_or_else(|_| panic!("expected {s} to parse"));
    }
}

#[test]
fn parse_level_rejects_garbage() {
    assert!(parse_level("plaid", "test").is_err());
}

#[test]
fn smoke_default_uses_caller_vault() {
    let cfg = Config::default_for_smoke_test("/tmp/smoke-vault".to_string(), Some("/home/u"), "so");
    assert_eq!(cfg.vault.0, "/tmp/smoke-vault");
    assert_eq!(cfg.http.bind, "127.0.0.1:7777");
    assert_eq!(cfg.embedding.dimension, 768);
    assert_eq!(cfg.logging.level, "info");
}

#[test]
fn expand_tilde_handles_leading_tilde_slash() {
    assert_eq!(expand_tilde("~/foo/bar", Some("/home/u")), "/home/u/foo/bar");
    assert_eq!(expand_tilde("~/foo/bar", Some("/home/u/")), "/home/u/foo/bar");
    assert_eq!(expand_tilde("~", Some("/home/u")), "/home/u");
}

#[test]
fn expand_tilde_leaves_other_paths_alone() {
    assert_eq!(expand_tilde("/abs/path", Some("/home/u")), "/abs/path");
    assert_eq!(expand_tilde("rel/path", Some("/home/u")), "rel/path");
    assert_eq!(expand_tilde("~tilde-user", Some("/home/u")), "~tilde-user");
    assert_eq!(expand_tilde("~/x", None), "~/x");
}

#[test]
fn parse_level_accepts_numerals_and_names_the_field() {
    assert_eq!(parse_level("3", "f").ok(), Some(LogLevel::Info));
    assert_eq!(parse_level("+5", "f").ok(), Some(LogLevel::Trace));
    assert!(parse_level("0", "f").is_err());
    let m = parse_level("plaid", "logging.level").unwrap_err();
    assert!(m.starts_with("logging.level = \"plaid\" is not a valid tracing level: "), "{m}");
}

#[test]
fn watcher_defaults() {
    let w = WatcherConfig::default();
    assert_eq!(w.debounce_ms, 500);
    assert_eq!(w.ignore_patterns[0], ".git/**");
    assert_eq!(w.ignore_patterns.len(), 5);
}

fn default_cfg() -> LoggingConfig {
    LoggingConfig::default()
}

#[test]
fn hmnd_default_filter() {
    let s = compose_filter(&default_cfg(), 0, BinaryKind::Hmnd, None);
    assert_eq!(s, "hypomnema=info,hmnd=info,notify=warn,tokio=error");
}

#[test]
fn hmn_default_filter() {
    let s = compose_filter(&default_cfg(), 0, BinaryKind::Hmn, None);
    assert_eq!(s, "error,hypomnema=warn,hmn=warn");
}

#[test]
fn hmnd_v_bumps_hypomnema_and_hmnd_targets() {
    let s = compose_filter(&default_cfg(), 1, BinaryKind::Hmnd, None);
    assert_eq!(s, "hypomnema=debug,hmnd=debug,notify=warn,tokio=error");
}

#[test]
fn hmnd_vv_promotes_both_targets_to_trace() {
    let s = compose_filter(&default_cfg(), 2, BinaryKind::Hmnd, None);
    assert_eq!(s, "hypomnema=trace,hmnd=trace,notify=warn,tokio=error");
}

#[test]
fn hmnd_vvv_caps_at_trace() {
    let s = compose_filter(&default_cfg(), 3, BinaryKind::Hmnd, None);
    assert_eq!(s, "hypomnema=trace,hmnd=trace,notify=warn,tokio=error");
}

#[test]
fn hmn_verbose_walks_warn_info_debug_trace() {
    let cfg = default_cfg();
    assert_eq!(compose_filter(&cfg, 0, BinaryKind::Hmn, None), "error,hypomnema=warn,hmn=warn");
    assert_eq!(compose_filter(&cfg, 1, BinaryKind::Hmn, None), "error,hypomnema=info,hmn=info");
    assert_eq!(compose_filter(&cfg, 2, BinaryKind::Hmn, None), "error,hypomnema=debug,hmn=debug");
    assert_eq!(compose_filter(&cfg, 3, BinaryKind::Hmn, None), "error,hypomnema=trace,hmn=trace");
}

#[test]
fn rust_log_overrides_entire_directive() {
    let s = compose_filter(&default_cfg(), 5, BinaryKind::Hmnd, Some("my_crate=trace,other=info"));
    assert_eq!(s, "my_crate=trace,other=info");
}

#[test]
fn hmnd_honors_config_overrides() {
    let cfg = LoggingConfig {
        level: "warn".to_string(),
        notify_level: "info".to_string(),
        tokio_level: "warn".to_string(),
    };
    let s = compose_filter(&cfg, 0, BinaryKind::Hmnd, None);
    assert_eq!(s, "hypomnema=warn,hmnd=warn,notify=info,tokio=warn");
}

#[test]
fn hmnd_verbose_walks_from_warn_base() {
    let cfg = LoggingConfig { level: "warn".to_string(), ..LoggingConfig::default() };
    let s = compose_filter(&cfg, 1, BinaryKind::Hmnd, None);
    assert_eq!(s, "hypomnema=info,hmnd=info,notify=warn,tokio=error");
}

#[test]
fn hmn_mcp_filter_matches_hmn() {
    let s = compose_filter(&default_cfg(), 0, BinaryKind::HmnMcp, None);
    assert_eq!(s, "error,hypomnema=warn,hmn=warn");
}

#[test]
fn unparsable_daemon_level_falls_back_to_info() {
    let cfg = LoggingConfig { level: "loud".to_string(), ..LoggingConfig::default() };
    let s = compose_filter(&cfg, 0, BinaryKind::Hmnd, None);
    assert_eq!(s, "hypomnema=info,hmnd=info,notify=warn,tokio=error");
}

#[test]
fn bump_caps_at_trace() {
    assert_eq!(bump(LogLevel::Error, 1), LogLevel::Warn);
    assert_eq!(bump(LogLevel::Warn, 200), LogLevel::Trace);
}
