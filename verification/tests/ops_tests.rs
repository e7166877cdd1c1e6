use hypomnema::api::debug::{
    build_debug_report, chunker_info, debug_candidates, pick_found, DebugMode, IndexedFileChunks,
    ShowText, StoredChunk,
};
use hypomnema::api::origin::parsed_origin_is_allowed;
use hypomnema::api::status::{assemble_status, read_bootstrap_block, BootstrapState};
use hypomnema::walk::{classify_walked_file, WalkOutcome, WalkVerdict, WalkedFile};
use hypomnema::api::health::{embedding_health, health_http_status, health_report};
use hypomnema::api::search::{
    apply_order, content_get_item, merge_lexical_results, group_documents, include_text_payload, semantic_candidate_limit,
    semantic_hint, IncludeText, finish_content_get, finish_filesystem_search,
    prepare_content_get, scope_row_action, vault_search_failed, RowAction, StoredContent,
};
use hypomnema::api::types::{
    ContentGetRequest, ContentGetResultItem, ContentMatchJson, FilesystemResultJson, SkippedVault,
    VaultRowJson,
};
use hypomnema::chunk::chunk_file;
use hypomnema::cli::{needs_confirmation, VaultOp};
use hypomnema::client_text::{
    content_block, content_search_text, filesystem_search_text, heading_trail, render_vault_list, rescan_text,
    status_text, terminate_text, vault_row_text,
};
use hypomnema::control_plane::{
    canonicalize_failed, check_create, check_data_dir_not_in_vault, check_new_name, create_conflict,
    find_registry_row, require_absolute, RegisteredVault, is_orphan_subdir, reconcile_row, registry_corrupt, rename_conflict, reset_plan,
    vault_errored, ControlPlaneError, ReconcileAction, ResetPlan, VaultRef, VaultStatus,
};
use hypomnema::embedding::{align_batch, next_ceiling, retry_after, EmbeddingError};
use hypomnema::events::{
    require_active_for_watch, watch_step, EventType, Received, StreamEvent, WatchAction, WatchScope,
};
use hypomnema::indexer::{content_unchanged, embedding_failure_skips_file, plan_scan, scan_report, written_effect, ProcessEffect, StoredFile};
use hypomnema::legacy_state_migration::{
    legacy_file_action, legacy_index_files, legacy_rename_target, legacy_row_path, LegacyFileAction, PathProbe,
};
use hypomnema::paths::{
    check_data_dir_outside_vault, is_markdown_path, path_components, path_starts_with,
};

fn vref(id: &str, name: &str) -> VaultRef {
    VaultRef { id: id.to_string(), name: name.to_string() }
}

fn fs_result(path: &str, vault: Option<&str>) -> FilesystemResultJson {
    FilesystemResultJson {
        path: path.to_string(),
        size: 1,
        mtime: "2026-04-01T00:00:00Z".to_string(),
        content_hash: "sha256:00".to_string(),
        vault: vault.map(String::from),
        vault_name: None,
    }
}

#[test]
fn rename_checks_name_and_conflict() {
    assert!(check_new_name("work_2").is_ok());
    match check_new_name("bad name") {
        Err(ControlPlaneError::VaultPathInvalid { detail }) => assert_eq!(
            detail,
            "new_name \"bad name\" must match ^[A-Za-z0-9_-]+$ (ASCII letters, digits, '_', '-')"
        ),
        other => panic!("unexpected {other:?}"),
    }
    let other = vref("id-2", "work");
    assert!(rename_conflict(None, "", "id-1", "work").is_ok());
    assert!(rename_conflict(Some(&vref("id-1", "work")), "/v", "id-1", "work").is_ok());
    match rename_conflict(Some(&other), "/vaults/work", "id-1", "work") {
        Err(ControlPlaneError::VaultNameConflict { existing_path, name }) => {
            assert_eq!(existing_path, "/vaults/work");
            assert_eq!(name, "work");
        }
        r => panic!("unexpected {r:?}"),
    }
}

#[test]
fn reset_and_errored_decisions() {
    assert_eq!(reset_plan(true, false, true), ResetPlan::RestartRunner { rebuild: true });
    assert_eq!(reset_plan(false, false, true), ResetPlan::RefuseErrored);
    assert_eq!(reset_plan(false, true, false), ResetPlan::SpawnRunner { rebuild: false });
    let e = vault_errored("notes", Some("gone".to_string()));
    assert_eq!(e.display_text(), "vault_errored: notes: gone");
    assert_eq!(registry_corrupt("bad row".to_string()).display_text(), "registry_corrupt: bad row");
}

#[test]
fn startup_reconciliation_of_rows() {
    let dir = PathProbe::Directory { listing_error: None };
    assert_eq!(reconcile_row(VaultStatus::Paused, "/v", &PathProbe::NotDirectory), ReconcileAction::Skip);
    assert_eq!(reconcile_row(VaultStatus::Active, "/v", &dir), ReconcileAction::Keep);
    assert_eq!(
        reconcile_row(VaultStatus::Active, "/v", &PathProbe::NotDirectory),
        ReconcileAction::MarkErrored("vault path /v is not a directory".to_string())
    );
    assert_eq!(
        reconcile_row(VaultStatus::Active, "/v", &PathProbe::Inaccessible("denied".to_string())),
        ReconcileAction::MarkErrored("vault path /v not accessible: denied".to_string())
    );
    let active = vec!["a1".to_string(), "b2".to_string()];
    assert!(is_orphan_subdir("c3", true, &active));
    assert!(!is_orphan_subdir("b2", true, &active));
    assert!(!is_orphan_subdir("c3", false, &active));
}

#[test]
fn path_prefixes_are_by_component() {
    assert!(path_starts_with("/vault/data", "/vault"));
    assert!(path_starts_with("/vault", "/vault"));
    assert!(!path_starts_with("/vaultdata", "/vault"));
    let comps: Vec<String> = path_components("/a//b/./c").into_iter().map(|c| c.into_iter().collect()).collect();
    assert_eq!(comps, vec!["/", "a", "b", "c"]);
    assert!(is_markdown_path("notes/a.md"));
    assert!(!is_markdown_path("notes/.md"));
    assert!(!is_markdown_path("notes/a.markdown"));
    assert!(check_data_dir_outside_vault("/data/idx", "~/data", "/vault").is_ok());
    assert_eq!(
        check_data_dir_outside_vault("/vault/.idx", "/vault/.idx", "/vault"),
        Err("storage.data_dir (/vault/.idx) must not be under vault (/vault). See ADR-0006.".to_string())
    );
}

#[test]
fn health_ladder() {
    let statuses = vec![VaultStatus::Active, VaultStatus::Errored, VaultStatus::Active];
    let r = health_report(Some(&statuses), false, true, None, 7);
    assert_eq!(r.status, "degraded");
    assert_eq!((r.vaults_active, r.vaults_errored, r.uptime_seconds), (2, 1, 7));
    let ok = vec![VaultStatus::Active];
    let emb = embedding_health("http://e".to_string(), true);
    assert_eq!(emb.status, "healthy");
    assert_eq!(health_report(Some(&ok), false, true, Some(emb), 0).status, "healthy");
    let down = embedding_health("http://e".to_string(), false);
    assert_eq!(health_report(Some(&ok), false, true, Some(down), 0).status, "degraded");
    assert_eq!(health_report(Some(&ok), true, true, None, 0).status, "unhealthy");
    let none = health_report(None, false, true, None, 3);
    assert_eq!((none.status.as_str(), none.vaults_active), ("unhealthy", 0));
    assert_eq!(health_http_status("healthy"), 200);
    assert_eq!(health_http_status("degraded"), 503);
}

#[test]
fn retries_only_retryable_failures_within_budget() {
    let t = EmbeddingError::Transport("reset".to_string());
    assert!(retry_after(1, 2, &t));
    assert!(retry_after(2, 2, &t));
    assert!(!retry_after(3, 2, &t));
    let s500 = EmbeddingError::Status { code: 503, body: String::new() };
    let s400 = EmbeddingError::Status { code: 400, body: String::new() };
    assert!(retry_after(1, 1, &s500));
    assert!(!retry_after(1, 1, &s400));
    assert!(!retry_after(1, 0, &t));
}

#[test]
fn content_unchanged_compares_hashes() {
    let prior = StoredFile { size: 3, mtime: "m".to_string(), content_hash: "sha256:aa".to_string() };
    assert!(content_unchanged(Some(&prior), "sha256:aa"));
    assert!(!content_unchanged(Some(&prior), "sha256:bb"));
    assert!(!content_unchanged(None, "sha256:aa"));
}

#[test]
fn filesystem_results_sorted_capped_and_flagged() {
    let results = vec![fs_result("b.md", Some("v1")), fs_result("a.md", Some("v2")), fs_result("a.md", Some("v1"))];
    let resp = finish_filesystem_search(results, 2, false, Vec::new(), Vec::new());
    let keys: Vec<(String, Option<String>)> = resp.results.iter().map(|r| (r.path.clone(), r.vault.clone())).collect();
    assert_eq!(keys, vec![("a.md".to_string(), Some("v1".to_string())), ("a.md".to_string(), Some("v2".to_string()))]);
    assert!(resp.truncated);
    assert!(resp.partial_results.is_none());
    let skipped = vec![SkippedVault {
        vault: "id".to_string(),
        vault_name: "n".to_string(),
        status: "paused".to_string(),
        reason: "vault is paused".to_string(),
    }];
    let resp = finish_filesystem_search(vec![fs_result("a.md", None)], 5, false, skipped.clone(), Vec::new());
    assert!(!resp.truncated);
    assert_eq!(resp.partial_results.unwrap().skipped, skipped);
}

#[test]
fn apply_order_moves_items() {
    let out = apply_order(vec!["x", "y", "z"], &vec![2, 0, 1]);
    assert_eq!(out, vec!["z", "x", "y"]);
}

#[test]
fn content_get_request_checks_and_results() {
    let req = ContentGetRequest { paths: vec![], vaults: None };
    assert_eq!(prepare_content_get(&req).unwrap_err().message, "paths must not be empty");
    let req = ContentGetRequest { paths: vec!["./a//b.md".to_string()], vaults: Some(vec![]) };
    assert_eq!(prepare_content_get(&req).unwrap_err().message, "vaults must not be empty if provided");
    let req = ContentGetRequest { paths: vec!["a.md".to_string(), "../x".to_string()], vaults: None };
    assert_eq!(prepare_content_get(&req).unwrap_err().code, "invalid_path");
    let req = ContentGetRequest { paths: vec!["./a//b.md".to_string()], vaults: None };
    assert_eq!(prepare_content_get(&req).unwrap(), vec!["a/b.md".to_string()]);

    assert_eq!(scope_row_action(VaultStatus::Active, true), RowAction::Search);
    assert_eq!(scope_row_action(VaultStatus::Active, false), RowAction::NoRunner);
    assert_eq!(scope_row_action(VaultStatus::Paused, true), RowAction::SkipPaused);
    assert_eq!(scope_row_action(VaultStatus::Errored, true), RowAction::SkipErrored);
    let f = vault_search_failed("id", "n", "boom".to_string());
    assert_eq!((f.code.as_str(), f.message.as_str()), ("vault_search_failed", "boom"));

    let found = content_get_item(
        "b.md".to_string(),
        Some(StoredContent {
            content: "hi".to_string(),
            content_hash: "sha256:01".to_string(),
            size: 2,
            mtime: "m".to_string(),
        }),
        "v1",
        "one",
    );
    let missing = content_get_item("a.md".to_string(), None, "v2", "two");
    match &missing {
        ContentGetResultItem::Error(e) => {
            assert_eq!(e.error.code, "path_not_found");
            assert_eq!(e.error.message, "path not found in vault index");
        }
        _ => panic!("expected an error item"),
    }
    let resp = finish_content_get(vec![found.clone(), missing.clone()], Vec::new(), Vec::new());
    assert_eq!(resp.results, vec![missing, found]);
    assert!(resp.partial_results.is_none());
}

#[test]
fn debug_report_candidates_and_counts() {
    let active = vec![vref("id-1", "work"), vref("id-2", "home")];
    assert_eq!(debug_candidates(&active, None).unwrap(), vec![0, 1]);
    assert_eq!(debug_candidates(&active, Some("id-2")).unwrap(), vec![1]);
    let e = debug_candidates(&active, Some("other")).unwrap_err();
    assert_eq!((e.code.as_str(), e.message.as_str()), ("vault_not_found", "vault other not found"));
    let e = debug_candidates(&Vec::new(), None).unwrap_err();
    assert_eq!(e.message, "no active vaults are available");
    assert!(pick_found(1).is_ok());
    assert_eq!(pick_found(0).unwrap_err().code, "path_not_found");
    assert_eq!(pick_found(2).unwrap_err().message, "path exists in multiple active vaults; pass --vault");
    let info = chunker_info();
    assert_eq!(info.version, "markdown-heading-v1");
    assert_eq!(info.rules.len(), 4);
}

#[test]
fn debug_report_of_an_unchanged_file() {
    let content = "# Title\n\nSome body text.\n\n## Part\n\nMore text.\n";
    let fresh = chunk_file(content);
    assert!(!fresh.is_empty());
    let stored: Vec<StoredChunk> = fresh
        .iter()
        .map(|c| StoredChunk {
            chunk_index: c.chunk_index,
            heading_path: c.heading_path.clone(),
            content: c.content.clone(),
            content_hash: c.content_hash.clone(),
            start_byte: c.start_byte,
            end_byte: c.end_byte,
        })
        .collect();
    let indexed = IndexedFileChunks {
        content_hash: "sha256:ff".to_string(),
        indexed_at: "2026-04-01T00:00:00Z".to_string(),
        content: content.to_string(),
        chunks: stored,
    };
    let r = build_debug_report("id-1", "work", "a.md", indexed, DebugMode::Diff, ShowText::Hidden);
    assert_eq!((r.vault.as_str(), r.vault_name.as_str(), r.path.as_str()), ("id-1", "work", "a.md"));
    assert_eq!(r.indexed.len(), fresh.len());
    assert_eq!(r.preview.as_ref().unwrap().len(), fresh.len());
    for (j, c) in r.indexed.iter().zip(fresh.iter()) {
        assert_eq!(j.boundary_start, c.boundary_start);
        assert_eq!(j.boundary_end, c.boundary_end);
        assert!(j.text.is_none());
    }
    let diff = r.diff.unwrap();
    assert!(!diff.chunk_count_changed);
    assert!(diff.changed_chunks.is_empty());
    assert_eq!(r.summary.chunk_count, fresh.len());
}

#[test]
fn client_text_blocks() {
    assert_eq!(render_vault_list(&Vec::new()), "(no vaults)\n");
    let row = VaultRowJson {
        id: "abc".to_string(),
        name: "notes".to_string(),
        path: "/v".to_string(),
        status: "active".to_string(),
        created_at: "2026".to_string(),
        last_error: None,
    };
    assert_eq!(
        render_vault_list(&vec![row.clone()]),
        "ID   NAME   STATUS  CREATED  PATH\nabc  notes  active  2026     /v\n"
    );
    assert_eq!(
        vault_row_text(&row),
        "id:         abc\nname:       notes\npath:       /v\nstatus:     active\ncreated_at: 2026\n"
    );
    let m = vec![ContentMatchJson { line: 3, text: "hit".to_string() }];
    assert_eq!(content_block("a.md", 1, &m), "a.md (1 matches)\n  3: hit\n");
    let h = vec!["Setup".to_string(), String::new(), "Prereqs".to_string()];
    assert_eq!(heading_trail(&h), Some("  > Setup / Prereqs\n".to_string()));
    assert_eq!(heading_trail(&vec![String::new()]), None);
}

#[test]
fn confirmation_needed_for_destructive_ops() {
    assert!(needs_confirmation(&VaultOp::Terminate { target: "a".to_string(), yes: false }));
    assert!(!needs_confirmation(&VaultOp::Terminate { target: "a".to_string(), yes: true }));
    assert!(!needs_confirmation(&VaultOp::Reset { target: "a".to_string(), rebuild: false, yes: false }));
    assert!(needs_confirmation(&VaultOp::Reset { target: "a".to_string(), rebuild: true, yes: false }));
    assert!(needs_confirmation(&VaultOp::Rescan { target: "a".to_string(), yes: false }));
    assert!(!needs_confirmation(&VaultOp::List));
}

#[test]
fn mcp_http_origin_loopback_v4_accepted() {
    assert!(hypomnema::api::origin::origin_is_allowed("http://127.0.0.1:7777"));
}

#[test]
fn mcp_http_origin_loopback_v6_accepted() {
    assert!(hypomnema::api::origin::origin_is_allowed("http://[::1]:7777"));
}

#[test]
fn mcp_http_origin_localhost_accepted() {
    assert!(hypomnema::api::origin::origin_is_allowed("http://localhost"));
    assert!(hypomnema::api::origin::origin_is_allowed("http://LocalHost"));
}

#[test]
fn mcp_http_origin_localhost_with_port_accepted() {
    assert!(hypomnema::api::origin::origin_is_allowed("http://localhost:7777"));
}

#[test]
fn mcp_http_origin_null_accepted() {
    assert!(hypomnema::api::origin::origin_is_allowed("null"));
}

#[test]
fn mcp_http_origin_remote_rejected() {
    assert!(!hypomnema::api::origin::origin_is_allowed("http://example.com"));
    assert_eq!(
        hypomnema::api::origin::origin_rejection_text("http://example.com"),
        "Origin not allowed: http://example.com"
    );
}

#[test]
fn mcp_http_origin_https_loopback_rejected() {
    assert!(!hypomnema::api::origin::origin_is_allowed("https://127.0.0.1:7777"));
    assert!(!hypomnema::api::origin::origin_is_allowed("not a uri at all"));
}

#[test]
fn parsed_origin_verdicts() {
    let p = |s: Option<&str>, h: Option<&str>| Some((s.map(String::from), h.map(String::from)));
    assert!(parsed_origin_is_allowed(&p(Some("http"), Some("[::1]"))));
    assert!(!parsed_origin_is_allowed(&p(Some("http"), None)));
    assert!(!parsed_origin_is_allowed(&p(None, Some("localhost"))));
    assert!(!parsed_origin_is_allowed(&None));
    assert!(!parsed_origin_is_allowed(&p(Some("http"), Some("localhost.evil"))));
}

fn stats(id: &str, count: i64, last: Option<&str>, bootstrap: hypomnema::api::types::BootstrapBlock) -> hypomnema::api::status::VaultIndexStats {
    hypomnema::api::status::VaultIndexStats {
        id: id.to_string(),
        name: format!("{id}-name"),
        path: format!("/vaults/{id}"),
        file_count: count,
        last_indexed_at: last.map(String::from),
        bootstrap,
    }
}

#[test]
fn status_sums_counts_and_keeps_latest_time() {
    let empty = assemble_status(Vec::new());
    assert_eq!((empty.vault.as_str(), empty.indexed_file_count, empty.last_indexed_at.clone()), ("", 0, None));
    assert!(empty.vaults.is_empty());

    let ready = read_bootstrap_block(Some(&BootstrapState::Ready));
    assert_eq!(ready.state, "ready");
    let indexing = read_bootstrap_block(Some(&BootstrapState::Indexing {
        started_at: "2026-04-01T00:00:00.000000Z".to_string(),
        files_seen: 9,
        files_indexed: 4,
    }));
    assert_eq!(
        (indexing.state.as_str(), indexing.started_at.as_deref(), indexing.files_seen, indexing.files_indexed),
        ("indexing", Some("2026-04-01T00:00:00.000000Z"), 9, 4)
    );
    let broken = read_bootstrap_block(None);
    assert_eq!(
        (broken.state.as_str(), broken.message.as_deref()),
        ("errored", Some("bootstrap state lock poisoned"))
    );
    let errored = read_bootstrap_block(Some(&BootstrapState::Errored("scan failed".to_string())));
    assert_eq!(errored.message.as_deref(), Some("scan failed"));

    let r = assemble_status(vec![
        stats("a", 3, Some("2026-01-01T00:00:00Z"), ready.clone()),
        stats("b", 4, Some("2026-01-02T00:00:00Z"), indexing.clone()),
        stats("c", 0, None, ready.clone()),
    ]);
    assert_eq!(r.vault, "/vaults/a");
    assert_eq!(r.indexed_file_count, 7);
    assert_eq!(r.last_indexed_at.as_deref(), Some("2026-01-02T00:00:00Z"));
    assert_eq!(r.vaults.len(), 3);
    assert_eq!(r.vaults[1].bootstrap, indexing);
    assert_eq!(r.vaults[2].last_indexed_at, None);

    let neg = assemble_status(vec![stats("a", -5, None, ready)]);
    assert_eq!(neg.indexed_file_count, 0);
    assert_eq!(neg.vaults[0].indexed_file_count, 0);
}

#[test]
fn walk_classifies_and_records_files() {
    assert_eq!(
        classify_walked_file("/v/notes/a.md", Some("/v/notes/a.md"), "/v"),
        WalkVerdict::Candidate("notes/a.md".to_string())
    );
    assert_eq!(classify_walked_file("/v/notes/a.txt", Some("/v/notes/a.txt"), "/v"), WalkVerdict::Skip);
    assert_eq!(classify_walked_file("/v/a.md", None, "/v"), WalkVerdict::Error);
    assert_eq!(classify_walked_file("/v/link.md", Some("/elsewhere/x.md"), "/v"), WalkVerdict::Outside);
    assert_eq!(
        classify_walked_file("/v/inner.md", Some("/v/notes/real.md"), "/v"),
        WalkVerdict::Candidate("inner.md".to_string())
    );

    let mut o = WalkOutcome::new();
    o.record(WalkVerdict::Candidate("a.md".to_string()), "/v/a.md".to_string(), true, Some((12, Some("t".to_string()))));
    o.record(WalkVerdict::Candidate("b.md".to_string()), "/v/b.md".to_string(), false, None);
    o.record(WalkVerdict::Candidate("c.md".to_string()), "/v/c.md".to_string(), true, Some((1, None)));
    o.record(WalkVerdict::Outside, "/v/l.md".to_string(), true, None);
    o.record(WalkVerdict::Skip, "/v/x.txt".to_string(), true, None);
    o.note_walk_error();
    assert_eq!(o.entries.len(), 1);
    assert_eq!((o.entries[0].rel_path.as_str(), o.entries[0].size, o.entries[0].mtime.as_str()), ("a.md", 12, "t"));
    assert_eq!((o.skipped_outside_vault, o.walk_errors), (1, 2));
}

#[test]
fn scan_plan_meets_rows_and_deletes_missing_paths() {
    let wf = |p: &str| WalkedFile { rel_path: p.to_string(), abs_path: format!("/v/{p}"), size: 1, mtime: "m".to_string() };
    let row = |h: &str| StoredFile { size: 1, mtime: "m".to_string(), content_hash: h.to_string() };
    let walked = vec![wf("a.md"), wf("new.md")];
    let existing = vec![("gone.md".to_string(), row("sha256:01")), ("a.md".to_string(), row("sha256:02"))];
    let plan = plan_scan(&walked, &existing);
    assert_eq!(plan.priors, vec![Some(row("sha256:02")), None]);
    assert_eq!(plan.to_delete, vec!["gone.md".to_string()]);
}

#[test]
fn embedding_failures_that_skip_a_file() {
    assert!(embedding_failure_skips_file(&EmbeddingError::Transport("x".to_string())));
    assert!(embedding_failure_skips_file(&EmbeddingError::Status { code: 502, body: String::new() }));
    assert!(!embedding_failure_skips_file(&EmbeddingError::Status { code: 429, body: String::new() }));
    assert!(embedding_failure_skips_file(&EmbeddingError::DimensionMismatch { expected: 768, actual: 3 }));
    assert!(!embedding_failure_skips_file(&EmbeddingError::BodyParse("bad".to_string())));
    assert_eq!(written_effect(true, "h".to_string()), ProcessEffect::Inserted { content_hash: "h".to_string() });
    assert_eq!(written_effect(false, "h".to_string()), ProcessEffect::Updated { content_hash: "h".to_string() });
}

#[test]
fn create_checks_path_and_conflicts() {
    assert!(require_absolute("/home/u/notes").is_ok());
    assert_eq!(
        require_absolute("notes").unwrap_err().display_text(),
        "vault_path_invalid: vault path notes must be absolute"
    );
    assert_eq!(
        canonicalize_failed("/x", "No such file or directory (os error 2)").display_text(),
        "vault_path_invalid: cannot canonicalize /x: No such file or directory (os error 2)"
    );
    assert!(check_data_dir_not_in_vault("/data/hypomnema", "~/data", "/home/u/notes").is_ok());
    assert_eq!(
        check_data_dir_not_in_vault("/home/u/notes/.idx", "/home/u/notes/.idx", "/home/u/notes").unwrap_err().display_text(),
        "vault_path_invalid: data_dir /home/u/notes/.idx is under vault path /home/u/notes"
    );
    let reg = vec![
        RegisteredVault { name: "work".to_string(), path: "/w".to_string() },
        RegisteredVault { name: "notes".to_string(), path: "/home/u/notes/".to_string() },
    ];
    assert!(create_conflict("new", None, &reg, "/elsewhere").is_ok());
    assert_eq!(
        create_conflict("new", None, &reg, "/home/u/notes"),
        Err(ControlPlaneError::VaultPathConflict { existing_name: "notes".to_string(), path: "/home/u/notes".to_string() })
    );
    assert_eq!(
        create_conflict("work", Some("/w"), &reg, "/elsewhere"),
        Err(ControlPlaneError::VaultNameConflict { existing_path: "/w".to_string(), name: "work".to_string() })
    );
}

#[test]
fn registry_lookup_prefers_ids_then_names() {
    let rows = vec![vref("id-1", "id-2"), vref("id-2", "work")];
    assert_eq!(find_registry_row(&rows, "id-2", &Vec::new()).unwrap(), 1);
    assert_eq!(find_registry_row(&rows, "work", &Vec::new()).unwrap(), 1);
    let names = vec!["work".to_string(), "home".to_string()];
    match find_registry_row(&rows, "wrok", &names) {
        Err(ControlPlaneError::VaultNotFound { name_or_id, hint }) => {
            assert_eq!(name_or_id, "wrok");
            assert_eq!(hint.as_deref(), Some("work"));
        }
        r => panic!("unexpected {r:?}"),
    }
}

#[test]
fn legacy_files_move_once_into_the_single_vault() {
    assert_eq!(legacy_index_files("index.sqlite"), vec!["index.sqlite", "index.sqlite-wal", "index.sqlite-shm"]);
    assert_eq!(legacy_rename_target(true, 1), Some(0));
    assert_eq!(legacy_rename_target(true, 0), None);
    assert_eq!(legacy_rename_target(true, 2), None);
    assert_eq!(legacy_rename_target(false, 1), None);
    assert_eq!(legacy_file_action(true, false), LegacyFileAction::Rename);
    assert_eq!(legacy_file_action(true, true), LegacyFileAction::KeepBoth);
    assert_eq!(legacy_file_action(false, true), LegacyFileAction::Absent);
    assert_eq!(legacy_row_path("/v".to_string(), Some("/real/v".to_string())), "/real/v");
    assert_eq!(legacy_row_path("/v".to_string(), None), "/v");
}

#[test]
fn batch_index_gaps_are_named() {
    let shape = |r: Result<Vec<usize>, EmbeddingError>| match r {
        Err(EmbeddingError::ResponseShape(m)) => m,
        other => panic!("unexpected {other:?}"),
    };
    assert_eq!(
        shape(align_batch(3, &vec![Some(0), Some(0), Some(2)])),
        "response indices are not a contiguous permutation of 0..=2 (position 1 has index Some(0))"
    );
    assert_eq!(
        shape(align_batch(3, &vec![Some(0), Some(5), Some(1)])),
        "response indices are not a contiguous permutation of 0..=2 (position 2 has index Some(5))"
    );
    assert_eq!(
        shape(align_batch(2, &vec![Some(1), Some(2)])),
        "response indices are not a contiguous permutation of 0..=1 (position 0 has index Some(1))"
    );
    assert_eq!(
        shape(align_batch(2, &vec![Some(0), None])),
        "response mixes items with and without `index`"
    );
}

#[test]
fn watch_streams_filter_and_report_lag() {
    let ev = |v: &str| StreamEvent::file_changed(v.to_string(), EventType::Modified, "a.md".to_string(), None);
    let one = WatchScope::Vault("v1".to_string());
    let set = WatchScope::Vaults(vec!["v1".to_string(), "v2".to_string()]);
    let e1 = ev("v1");
    assert_eq!(watch_step(&one, Received::Event(e1.clone())), WatchAction::Emit(e1));
    assert_eq!(watch_step(&one, Received::Event(ev("v2"))), WatchAction::Skip);
    assert!(matches!(watch_step(&set, Received::Event(ev("v2"))), WatchAction::Emit(_)));
    assert_eq!(watch_step(&set, Received::Event(ev("v3"))), WatchAction::Skip);
    match watch_step(&one, Received::Lagged(7)) {
        WatchAction::Emit(StreamEvent::StreamLagged(l)) => {
            assert_eq!((l.vault.as_deref(), l.missed), (Some("v1"), Some(7)));
        }
        other => panic!("unexpected {other:?}"),
    }
    match watch_step(&set, Received::Lagged(2)) {
        WatchAction::Emit(StreamEvent::StreamLagged(l)) => assert_eq!((l.vault, l.missed), (None, Some(2))),
        other => panic!("unexpected {other:?}"),
    }
    assert_eq!(watch_step(&set, Received::Closed), WatchAction::End);
    assert!(require_active_for_watch(&vec!["v1".to_string()], "v1", "notes").is_ok());
    let e = require_active_for_watch(&vec!["v1".to_string()], "v9", "notes").unwrap_err();
    assert_eq!((e.status, e.code.as_str(), e.message.as_str()), (409, "vault_not_active", "vault notes is not active (paused or errored)"));
}

#[test]
fn semantic_rows_group_into_documents_by_key() {
    let k = |v: &str, p: &str, h: &str| (v.to_string(), p.to_string(), h.to_string());
    let keys = vec![k("v2", "a.md", "h1"), k("v1", "b.md", "h1"), k("v2", "a.md", "h1"), k("v1", "a.md", "h1"), k("v1", "a.md", "h0")];
    assert_eq!(group_documents(&keys), vec![vec![4], vec![3], vec![1], vec![0, 2]]);
    assert!(group_documents(&Vec::new()).is_empty());
}

#[test]
fn semantic_text_fields_follow_the_request() {
    assert_eq!(include_text_payload("body".to_string(), IncludeText::Omit, 10), (None, None, None));
    assert_eq!(
        include_text_payload("body".to_string(), IncludeText::Full, 1),
        (Some("body".to_string()), Some("full".to_string()), Some(false))
    );
    assert_eq!(
        include_text_payload("héllo".to_string(), IncludeText::Preview, 2),
        (Some("h".to_string()), Some("preview".to_string()), Some(true))
    );
}

#[test]
fn semantic_candidate_depth_and_hint() {
    assert_eq!(semantic_candidate_limit(10, false, 5, 20), 10);
    assert_eq!(semantic_candidate_limit(10, true, 5, 200), 50);
    assert_eq!(semantic_candidate_limit(10, true, 5, 20), 20);
    assert_eq!(semantic_candidate_limit(0, true, 5, 20), 1);
    assert_eq!(semantic_candidate_limit(usize::MAX, true, 2, 7), 7);
    assert_eq!(semantic_hint(0, Some("building".to_string())), Some("building".to_string()));
    assert_eq!(semantic_hint(3, Some("building".to_string())), None);
}

#[test]
fn client_result_listings() {
    let rs = vec![fs_result("a.md", None), fs_result("b.md", None)];
    assert_eq!(
        filesystem_search_text(&rs, true),
        "a.md  1 bytes  2026-04-01T00:00:00Z\nb.md  1 bytes  2026-04-01T00:00:00Z\n(truncated; raise --limit)\n"
    );
    assert_eq!(filesystem_search_text(&Vec::new(), false), "");
    let blocks = vec!["a.md (1 matches)\n  1: x\n".to_string(), "b.md (0 matches)\n".to_string()];
    assert_eq!(
        content_search_text(&blocks, true),
        "a.md (1 matches)\n  1: x\n\nb.md (0 matches)\n\n(truncated; raise --limit)\n"
    );
    assert_eq!(content_search_text(&Vec::new(), true), "(truncated; raise --limit)\n");
    assert_eq!(
        status_text("/v", 12, None),
        "vault:         /v\nindexed files: 12\nlast indexed:  never\n"
    );
    assert_eq!(terminate_text(true, "abc"), "terminated: true\nid:         abc\n");
    let row = VaultRowJson {
        id: "abc".to_string(),
        name: "notes".to_string(),
        path: "/v".to_string(),
        status: "active".to_string(),
        created_at: "2026".to_string(),
        last_error: Some("x".to_string()),
    };
    assert_eq!(
        rescan_text(&row, "2026-05"),
        "id:         abc\nname:       notes\npath:       /v\nstatus:     active\ncreated_at: 2026\nlast_error: x\nrescan_initiated_at: 2026-05\n"
    );
}

#[test]
fn batch_ceiling_only_falls_after_multi_input_success() {
    assert_eq!(next_ceiling(8, 4, 4), 4);
    assert_eq!(next_ceiling(8, 4, 1), 8);
    assert_eq!(next_ceiling(2, 4, 3), 2);
}

#[test]
fn lexical_merge_sorts_and_caps() {
    let key = |p: &str, v: Option<&str>| (p.to_string(), v.map(String::from));
    let items = vec![10, 20, 30, 40];
    let keys = vec![key("b.md", Some("v1")), key("a.md", Some("v2")), key("a.md", None), key("a.md", Some("v1"))];
    assert_eq!(merge_lexical_results(items.clone(), &keys, 3, false), (vec![30, 40, 20], true));
    assert_eq!(merge_lexical_results(items, &keys, 10, false), (vec![30, 40, 20, 10], false));
    assert_eq!(merge_lexical_results(vec![1], &vec![key("a", None)], 5, true), (vec![1], true));
}

#[test]
fn frontmatter_only_shifts_chunk_offsets() {
    let fm = "title: x\ntags: [a]";
    let body = "# Head\n\nSome text here.\n\n## Sub\n\nMore.\n";
    let file = format!("---\n{fm}\n---\n{body}");
    let with = chunk_file(&file);
    let without = chunk_file(body);
    assert_eq!(with.len(), without.len());
    assert!(!with.is_empty());
    for (a, b) in with.iter().zip(without.iter()) {
        assert_eq!(a.start_byte, b.start_byte + fm.len() + 9);
        assert_eq!(a.end_byte, b.end_byte + fm.len() + 9);
        assert_eq!((&a.content, &a.heading_path, &a.content_hash, a.chunk_index), (&b.content, &b.heading_path, &b.content_hash, b.chunk_index));
        assert_eq!((&a.boundary_start, &a.boundary_end), (&b.boundary_start, &b.boundary_end));
    }
}

#[test]
fn scan_report_counts_walk_effects_and_deletions() {
    let wf = |p: &str| WalkedFile { rel_path: p.to_string(), abs_path: format!("/v/{p}"), size: 1, mtime: "m".to_string() };
    let row = |h: &str| StoredFile { size: 1, mtime: "m".to_string(), content_hash: h.to_string() };
    let walked = vec![wf("a.md"), wf("b.md")];
    let existing = vec![("gone.md".to_string(), row("sha256:01")), ("old.md".to_string(), row("sha256:02"))];
    let plan = plan_scan(&walked, &existing);
    let mut outcome = WalkOutcome::new();
    outcome.record(WalkVerdict::Outside, "/v/l.md".to_string(), true, None);
    outcome.note_walk_error();
    outcome.note_walk_error();
    let effects = vec![
        ProcessEffect::Inserted { content_hash: "h1".to_string() },
        ProcessEffect::Updated { content_hash: "h2".to_string() },
        ProcessEffect::HashMatched,
        ProcessEffect::StatGateHit,
        ProcessEffect::EmbeddingSkipped,
        ProcessEffect::Inserted { content_hash: "h3".to_string() },
    ];
    let r = scan_report(&outcome, &effects, &plan, 42);
    assert_eq!((r.inserted, r.updated, r.hash_unchanged), (2, 1, 1));
    assert_eq!(r.deleted, 2);
    assert_eq!((r.skipped_outside_vault, r.walk_errors), (1, 2));
    assert_eq!(r.duration_ms, 42);
}

fn registered() -> Vec<RegisteredVault> {
    vec![
        RegisteredVault { name: "work".to_string(), path: "/w".to_string() },
        RegisteredVault { name: "notes".to_string(), path: "/home/u/notes/".to_string() },
    ]
}

#[test]
fn create_checks_run_in_order() {
    let reg = registered();
    let ok = |p: &str| Ok::<String, String>(p.to_string());
    match check_create("rel/v", ok("/x"), "/data", "~/data", Some("n"), "default", &reg).unwrap_err() {
        ControlPlaneError::VaultPathInvalid { detail } => assert_eq!(detail, "vault path rel/v must be absolute"),
        other => panic!("unexpected {other:?}"),
    }
    match check_create("/v", Err("No such file or directory (os error 2)".to_string()), "/v/data", "~/data", None, "", &reg)
        .unwrap_err()
    {
        ControlPlaneError::VaultPathInvalid { detail } => {
            assert_eq!(detail, "cannot canonicalize /v: No such file or directory (os error 2)")
        },
        other => panic!("unexpected {other:?}"),
    }
    match check_create("/v", ok("/v"), "/v/data", "~/data", None, "", &reg).unwrap_err() {
        ControlPlaneError::VaultPathInvalid { detail } => assert_eq!(detail, "data_dir ~/data is under vault path /v"),
        other => panic!("unexpected {other:?}"),
    }
    match check_create("/v", ok("/v"), "/data", "~/data", Some("  "), " ", &reg).unwrap_err() {
        ControlPlaneError::VaultPathInvalid { detail } => {
            assert_eq!(detail, "name is required when default_vault_name is empty")
        },
        other => panic!("unexpected {other:?}"),
    }
    assert_eq!(
        check_create("/home/u/notes", ok("/home/u/notes"), "/data", "~/data", Some(" work "), "", &reg).unwrap_err(),
        ControlPlaneError::VaultNameConflict { existing_path: "/w".to_string(), name: "work".to_string() }
    );
    assert_eq!(
        check_create("/home/u/notes", ok("/home/u/notes"), "/data", "~/data", None, "fresh", &reg).unwrap_err(),
        ControlPlaneError::VaultPathConflict { existing_name: "notes".to_string(), path: "/home/u/notes".to_string() }
    );
    assert_eq!(
        check_create("/v", ok("/srv/v"), "/data", "~/data", None, " fresh ", &reg).unwrap(),
        ("fresh".to_string(), "/srv/v".to_string())
    );
}
