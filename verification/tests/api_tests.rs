use hypomnema::api::debug::{
    build_diff, indexed_chunks_to_json, parse_mode, parse_show_text, split_heading_path,
    summarize, validate_path, DebugChunkDiagnosticsJson, DebugChunkJson, DebugMode, ShowText,
    StoredChunk,
};
use hypomnema::api::error::ApiError;
use hypomnema::api::search::{
    check_content_request, check_semantic_request, filter_scope, make_preview, normalize_retrieval_path, parse_include_text,
    resolve_content_mode, resolve_effective_chunks_per_document, resolve_effective_granularity,
    resolve_preview_bytes, skipped_for_errored, sort_by_path_then_vault,
    validate_retrieval_path, ContentMode, IncludeText,
};
use hypomnema::api::types::ContentQueryJson;
use hypomnema::chunk::Chunk;
use hypomnema::config::SemanticSearchConfig;
use hypomnema::control_plane::{ControlPlaneError, VaultRef};

fn debug_chunk(chunk_index: u32, boundary_start: &str, boundary_end: &str) -> DebugChunkJson {
    DebugChunkJson {
        chunk_index,
        start_byte: 0,
        end_byte: 1,
        byte_len: 1,
        heading_path: Vec::new(),
        boundary_start: boundary_start.to_string(),
        boundary_end: boundary_end.to_string(),
        content_hash: "sha256:00".to_string(),
        text: None,
        text_kind: None,
        text_truncated: None,
        diagnostics: DebugChunkDiagnosticsJson {
            fenced_code_blocks: 0,
            fenced_code_bytes: 0,
            fenced_code_languages: Vec::new(),
            code_heavy: false,
            thematic_breaks: 0,
        },
        warnings: Vec::new(),
    }
}

#[test]
fn thematic_break_boundaries_counts_each_internal_break_once() {
    let chunks = vec![
        debug_chunk(0, "document_start", "thematic_break"),
        debug_chunk(1, "thematic_break", "document_end"),
    ];
    assert_eq!(summarize(&chunks).thematic_break_boundaries, 1);
}

#[test]
fn thematic_break_boundaries_counts_leading_break() {
    let chunks = vec![debug_chunk(0, "thematic_break", "document_end")];
    assert_eq!(summarize(&chunks).thematic_break_boundaries, 1);
}

#[test]
fn changed_chunks_reports_chunk_index_not_position() {
    let indexed = vec![StoredChunk {
        chunk_index: 5,
        heading_path: String::new(),
        content: "a".to_string(),
        content_hash: "sha256:a".to_string(),
        start_byte: 0,
        end_byte: 1,
    }];
    let preview = vec![Chunk {
        chunk_index: 5,
        heading_path: String::new(),
        content: "b".to_string(),
        content_hash: "sha256:b".to_string(),
        start_byte: 0,
        end_byte: 1,
        boundary_start: "document_start".to_string(),
        boundary_end: "document_end".to_string(),
    }];
    assert_eq!(build_diff(&indexed, &preview).changed_chunks, vec![5]);
}

#[test]
fn indexed_chunks_match_preview_by_hash_for_boundaries() {
    let stored = vec![
        StoredChunk {
            chunk_index: 0,
            heading_path: String::new(),
            content: "a".to_string(),
            content_hash: "sha256:a".to_string(),
            start_byte: 0,
            end_byte: 1,
        },
        StoredChunk {
            chunk_index: 1,
            heading_path: String::new(),
            content: "b".to_string(),
            content_hash: "sha256:b".to_string(),
            start_byte: 1,
            end_byte: 2,
        },
    ];
    let preview = vec![
        Chunk {
            chunk_index: 0,
            heading_path: String::new(),
            content: "a".to_string(),
            content_hash: "sha256:a".to_string(),
            start_byte: 0,
            end_byte: 1,
            boundary_start: "document_start".to_string(),
            boundary_end: "heading:h2".to_string(),
        },
        Chunk {
            chunk_index: 1,
            heading_path: String::new(),
            content: "B!".to_string(),
            content_hash: "sha256:diverged".to_string(),
            start_byte: 1,
            end_byte: 3,
            boundary_start: "heading:h2".to_string(),
            boundary_end: "document_end".to_string(),
        },
    ];
    let out = indexed_chunks_to_json(&stored, &preview, ShowText::Hidden);
    assert_eq!(out[0].boundary_start, "document_start");
    assert_eq!(out[0].boundary_end, "heading:h2");
    assert_eq!(out[1].boundary_start, "indexed_unknown");
    assert_eq!(out[1].boundary_end, "indexed_unknown");
}

fn default_cfg() -> SemanticSearchConfig {
    SemanticSearchConfig::default()
}

#[test]
fn resolve_granularity_request_document() {
    let g = resolve_effective_granularity(Some("document"), &default_cfg())
        .map_err(|e| e.display_text())
        .unwrap();
    assert_eq!(g, "document");
}

#[test]
fn resolve_granularity_request_chunk() {
    let g = resolve_effective_granularity(Some("chunk"), &default_cfg())
        .map_err(|e| e.display_text())
        .unwrap();
    assert_eq!(g, "chunk");
}

#[test]
fn resolve_granularity_falls_back_to_config() {
    let mut cfg = default_cfg();
    cfg.default_granularity = "chunk".to_string();
    let g = resolve_effective_granularity(None, &cfg)
        .map_err(|e| e.display_text())
        .unwrap();
    assert_eq!(g, "chunk");
}

#[test]
fn resolve_granularity_rejects_invalid() {
    let err = resolve_effective_granularity(Some("paragraph"), &default_cfg())
        .expect_err("should reject unknown granularity");
    let msg = err.display_text();
    assert!(msg.contains("paragraph"), "error should mention the bad value: {msg}");
}

#[test]
fn resolve_chunks_per_document_uses_request() {
    let n = resolve_effective_chunks_per_document(Some(5), &default_cfg())
        .map_err(|e| e.display_text())
        .unwrap();
    assert_eq!(n, 5);
}

#[test]
fn resolve_chunks_per_document_falls_back_to_config() {
    let mut cfg = default_cfg();
    cfg.default_chunks_per_document = 7;
    let n = resolve_effective_chunks_per_document(None, &cfg)
        .map_err(|e| e.display_text())
        .unwrap();
    assert_eq!(n, 7);
}

#[test]
fn resolve_chunks_per_document_rejects_zero() {
    let err = resolve_effective_chunks_per_document(Some(0), &default_cfg())
        .expect_err("0 is out of range");
    let msg = err.display_text();
    assert!(msg.contains("chunks_per_document"), "{msg}");
}

#[test]
fn resolve_chunks_per_document_rejects_over_100() {
    let err = resolve_effective_chunks_per_document(Some(101), &default_cfg())
        .expect_err("101 is out of range");
    let msg = err.display_text();
    assert!(msg.contains("chunks_per_document"), "{msg}");
}

#[test]
fn resolve_chunks_per_document_accepts_boundary_values() {
    assert_eq!(
        resolve_effective_chunks_per_document(Some(1), &default_cfg())
            .map_err(|e| e.display_text())
            .unwrap(),
        1
    );
    assert_eq!(
        resolve_effective_chunks_per_document(Some(100), &default_cfg())
            .map_err(|e| e.display_text())
            .unwrap(),
        100
    );
}

#[test]
fn test_validate_retrieval_path_valid() {
    assert!(validate_retrieval_path("notes/file.md").is_ok());
    assert!(validate_retrieval_path("a.md").is_ok());
    assert!(validate_retrieval_path("deeply/nested/file.md").is_ok());
    assert!(validate_retrieval_path("./notes/file.md").is_ok());
}

#[test]
fn test_validate_retrieval_path_invalid_empty() {
    assert!(validate_retrieval_path("").is_err());
}

#[test]
fn test_validate_retrieval_path_invalid_absolute() {
    assert!(validate_retrieval_path("/abs/path.md").is_err());
    assert!(validate_retrieval_path("/etc/passwd").is_err());
}

#[test]
fn test_validate_retrieval_path_invalid_dotdot() {
    assert!(validate_retrieval_path("../escape.md").is_err());
    assert!(validate_retrieval_path("notes/../escape.md").is_err());
    assert!(validate_retrieval_path("a/../../etc/passwd").is_err());
}

// Further checks of the request rules, on concrete values.

#[test]
fn chunks_per_document_error_names_the_value() {
    let err = resolve_effective_chunks_per_document(Some(250), &default_cfg()).unwrap_err();
    assert_eq!(err.status, 400);
    assert_eq!(err.code, "invalid_request");
    assert_eq!(err.message, "chunks_per_document must be in 1..=100, got 250");
    assert_eq!(
        err.display_text(),
        "invalid_request: chunks_per_document must be in 1..=100, got 250"
    );
}

#[test]
fn dotdot_inside_a_name_is_not_a_segment() {
    assert!(validate_retrieval_path("notes/a..b.md").is_ok());
    assert!(validate_retrieval_path("notes/..").is_err());
    let e = validate_retrieval_path("x/../y").unwrap_err();
    assert_eq!(e.status, 422);
    assert_eq!(e.message, "path must not contain .. segments");
}

#[test]
fn include_text_and_preview_bytes() {
    assert_eq!(parse_include_text(None).ok(), Some(IncludeText::Preview));
    assert_eq!(parse_include_text(Some("full")).ok(), Some(IncludeText::Full));
    assert_eq!(parse_include_text(Some("none")).ok(), Some(IncludeText::Omit));
    assert!(parse_include_text(Some("all")).is_err());
    assert_eq!(resolve_preview_bytes(None).ok(), Some(600));
    assert_eq!(resolve_preview_bytes(Some(5000)).ok(), Some(2000));
    assert_eq!(resolve_preview_bytes(Some(17)).ok(), Some(17));
    assert_eq!(
        resolve_preview_bytes(Some(0)).unwrap_err().message,
        "preview_bytes must be greater than 0"
    );
}

#[test]
fn preview_cuts_at_a_character_boundary() {
    let (p, cut) = make_preview("héllo", 2);
    assert_eq!(p, "h");
    assert!(cut);
    let (p, cut) = make_preview("héllo", 3);
    assert_eq!(p, "hé");
    assert!(cut);
    let (p, cut) = make_preview("abc", 3);
    assert_eq!(p, "abc");
    assert!(!cut);
}

fn content_query(query: &str, mode: Option<&str>, regex: bool, case_sensitive: bool) -> ContentQueryJson {
    ContentQueryJson {
        query: query.to_string(),
        mode: mode.map(String::from),
        regex,
        case_sensitive,
        prefix: None,
        include_matches: false,
        max_matches_per_file: None,
        limit: None,
        vaults: None,
    }
}

#[test]
fn content_mode_resolution() {
    assert_eq!(resolve_content_mode(&content_query("x", None, false, false)).ok(), Some(ContentMode::Substring));
    assert_eq!(resolve_content_mode(&content_query("x", None, true, false)).ok(), Some(ContentMode::Regex));
    assert_eq!(resolve_content_mode(&content_query("x", Some("regex"), true, false)).ok(), Some(ContentMode::Regex));
    assert_eq!(resolve_content_mode(&content_query("x", Some("ranked"), false, false)).ok(), Some(ContentMode::Ranked));
    assert!(resolve_content_mode(&content_query("x", Some("substring"), true, false)).is_err());
    let e = resolve_content_mode(&content_query("", Some("ranked"), false, false)).unwrap_err();
    assert_eq!(e.code, "invalid_query");
    let e = resolve_content_mode(&content_query("x", Some("ranked"), false, true)).unwrap_err();
    assert_eq!(e.code, "invalid_request");
    let e = resolve_content_mode(&content_query("x", Some("fuzzy"), false, false)).unwrap_err();
    assert_eq!(
        e.message,
        "unknown mode \"fuzzy\"; expected \"substring\", \"regex\", or \"ranked\""
    );
}

#[test]
fn retrieval_paths_are_normalized() {
    assert_eq!(normalize_retrieval_path("./a//b///c.md"), "a/b/c.md");
    assert_eq!(normalize_retrieval_path("a/b.md"), "a/b.md");
    assert_eq!(normalize_retrieval_path("././x"), "./x");
}

#[test]
fn vault_filter_matches_name_then_id_and_reports_unknown() {
    let scope = vec![
        VaultRef { id: "id-1".to_string(), name: "work".to_string() },
        VaultRef { id: "id-2".to_string(), name: "home".to_string() },
    ];
    let all = filter_scope(&scope, None);
    assert_eq!(all.in_scope, vec![0, 1]);
    let filter = vec!["home".to_string(), "id-2".to_string(), "nope".to_string(), "id-1".to_string()];
    let plan = filter_scope(&scope, Some(&filter));
    assert_eq!(plan.in_scope, vec![1, 0]);
    assert_eq!(plan.unknown_failures.len(), 1);
    assert_eq!(plan.unknown_failures[0].code, "vault_not_found");
    assert_eq!(plan.unknown_failures[0].message, "vault nope not found");
}

#[test]
fn errored_skip_reason_mentions_last_error() {
    assert_eq!(skipped_for_errored("i", "n", Some("disk gone")).reason, "vault is errored: disk gone");
    assert_eq!(
        skipped_for_errored("i", "n", Some("")).reason,
        "vault is errored (no last_error recorded)"
    );
}

#[test]
fn results_sort_by_path_then_vault_stably() {
    let keys = vec![
        ("b.md".to_string(), Some("v2".to_string())),
        ("a.md".to_string(), Some("v9".to_string())),
        ("b.md".to_string(), None),
        ("a.md".to_string(), Some("v1".to_string())),
        ("b.md".to_string(), Some("v2".to_string())),
    ];
    assert_eq!(sort_by_path_then_vault(&keys), vec![3, 1, 2, 0, 4]);
}

#[test]
fn control_plane_errors_map_to_api_errors() {
    let e = ApiError::from_control_plane(ControlPlaneError::VaultNotFound {
        name_or_id: "wrk".to_string(),
        hint: Some("work".to_string()),
    });
    assert_eq!(e.status, 404);
    assert_eq!(e.message, "vault wrk not found (did you mean work?)");
    let e = ApiError::from_control_plane(ControlPlaneError::Internal("boom".to_string()));
    assert_eq!(e.status, 500);
    assert_eq!(e.message, "internal server error");
    let e = ApiError::from_control_plane(ControlPlaneError::VaultErrored {
        name_or_id: "w".to_string(),
        last_error: None,
    });
    assert_eq!(e.status, 503);
    assert_eq!(e.message, "vault w is errored");
}

#[test]
fn query_errors_keep_their_detail() {
    let e = ApiError::from_query_error("invalid_glob: unclosed [ ");
    assert_eq!(e.code, "invalid_glob");
    assert_eq!(e.message, "unclosed [");
    let e = ApiError::from_query_error("invalid_prefix::: ../x");
    assert_eq!(e.message, "../x");
    let e = ApiError::from_query_error("disk full");
    assert_eq!(e.code, "internal");
}

#[test]
fn debug_request_options_and_paths() {
    assert_eq!(parse_mode(None).ok(), Some(DebugMode::Indexed));
    assert_eq!(parse_mode(Some("diff")).ok(), Some(DebugMode::Diff));
    assert!(parse_mode(Some("both")).is_err());
    assert_eq!(parse_show_text(Some("none")).ok(), Some(ShowText::Hidden));
    assert_eq!(split_heading_path("A//C"), vec!["A", "", "C"]);
    assert_eq!(split_heading_path(""), vec![""]);
    assert_eq!(validate_path("/x").unwrap_err().message, "path must be vault-relative");
    assert!(validate_path("a/b.md").is_ok());
}

#[test]
fn diff_lists_added_and_removed_indices() {
    let stored = |i: u32| StoredChunk {
        chunk_index: i,
        heading_path: String::new(),
        content: "x".to_string(),
        content_hash: "h".to_string(),
        start_byte: 0,
        end_byte: 1,
    };
    let fresh = |i: u32| Chunk {
        chunk_index: i,
        heading_path: String::new(),
        content: "x".to_string(),
        content_hash: "h".to_string(),
        start_byte: 0,
        end_byte: 1,
        boundary_start: "document_start".to_string(),
        boundary_end: "document_end".to_string(),
    };
    let d = build_diff(&vec![stored(0)], &vec![fresh(0), fresh(1), fresh(2)]);
    assert!(d.chunk_count_changed);
    assert!(d.changed_chunks.is_empty());
    assert_eq!(d.added_preview_chunks, vec![1, 2]);
    assert!(d.removed_indexed_chunks.is_empty());
    let d = build_diff(&vec![stored(0), stored(1)], &vec![fresh(0)]);
    assert_eq!(d.removed_indexed_chunks, vec![1]);
}

#[test]
fn summary_of_sizes() {
    let mut a = debug_chunk(0, "document_start", "heading:h1");
    a.byte_len = 10;
    let mut b = debug_chunk(1, "heading:h1", "document_end");
    b.byte_len = 4;
    b.diagnostics.code_heavy = true;
    let s = summarize(&vec![a, b]);
    assert_eq!((s.chunk_count, s.min_bytes, s.max_bytes, s.total_bytes), (2, 4, 10, 14));
    assert_eq!(s.code_heavy_chunks, 1);
    assert_eq!(s.thematic_break_boundaries, 0);
    let e = summarize(&vec![]);
    assert_eq!((e.min_bytes, e.max_bytes), (0, 0));
}

#[test]
fn content_request_checks_filter_before_mode() {
    let mut req = content_query("", Some("bogus"), false, false);
    req.vaults = Some(vec![]);
    let err = check_content_request(&req).unwrap_err();
    assert_eq!(err.message, "vaults filter must be non-empty");
    req.vaults = Some(vec!["work".to_string()]);
    let err = check_content_request(&req).unwrap_err();
    assert_eq!(err.message, "unknown mode \"bogus\"; expected \"substring\", \"regex\", or \"ranked\"");
    req.mode = Some("regex".to_string());
    assert_eq!(check_content_request(&req).unwrap(), ContentMode::Regex);
}

#[test]
fn semantic_request_reports_the_first_refused_field() {
    let cfg = SemanticSearchConfig::default();
    let empty: Vec<String> = vec![];
    let err = check_semantic_request(Some(&empty), Some("para"), Some(0), Some("x"), Some(0), &cfg).unwrap_err();
    assert_eq!(err.message, "vaults filter must be non-empty");
    let err = check_semantic_request(None, Some("para"), Some(0), Some("x"), Some(0), &cfg).unwrap_err();
    assert_eq!(err.message, "granularity must be \"document\" or \"chunk\", got \"para\"");
    let err = check_semantic_request(None, Some("chunk"), Some(0), Some("x"), Some(0), &cfg).unwrap_err();
    assert_eq!(err.message, "chunks_per_document must be in 1..=100, got 0");
    let err = check_semantic_request(None, None, Some(7), Some("x"), Some(0), &cfg).unwrap_err();
    assert_eq!(err.message, "include_text must be one of preview, full, none");
    let err = check_semantic_request(None, None, None, Some("full"), Some(0), &cfg).unwrap_err();
    assert_eq!(err.message, "preview_bytes must be greater than 0");
    let o = check_semantic_request(None, None, None, None, Some(5000), &cfg).unwrap();
    assert_eq!(o.granularity, "document");
    assert_eq!(o.chunks_per_document, 3);
    assert_eq!(o.include_text, IncludeText::Preview);
    assert_eq!(o.preview_bytes, 2000);
    let o = check_semantic_request(Some(&vec!["w".to_string()]), Some("chunk"), Some(9), Some("none"), None, &cfg).unwrap();
    assert_eq!((o.granularity.as_str(), o.chunks_per_document, o.include_text, o.preview_bytes), ("chunk", 9, IncludeText::Omit, 600));
}
