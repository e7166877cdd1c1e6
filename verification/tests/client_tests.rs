use hypomnema::api::types::{FilesystemResultJson, VaultRowJson};
use hypomnema::client_text::{
    answer_is_yes, base_url_for, column_widths, confirm_rescan, confirm_reset_rebuild,
    confirm_terminate, filesystem_line, human_bytes, normalize_base_url, resolve_target,
};

#[test]
fn human_bytes_picks_right_unit() {
    assert_eq!(human_bytes(0), "0 B");
    assert_eq!(human_bytes(512), "512 B");
    assert_eq!(human_bytes(1024), "1.0 KiB");
    assert_eq!(human_bytes(1536), "1.5 KiB");
    assert_eq!(human_bytes(1024 * 1024), "1.0 MiB");
}

#[test]
fn human_bytes_matches_float_rendering() {
    for n in [
        1023u64,
        1075,
        1280,
        1331,
        10239,
        10_000_000,
        5_000_000_000,
        1u64 << 40,
        (1u64 << 40) * 1500,
        u64::MAX,
        (1u64 << 53) + 1,
    ] {
        let expected = {
            let units = ["B", "KiB", "MiB", "GiB", "TiB"];
            let mut size = n as f64;
            let mut unit = 0;
            while size >= 1024.0 && unit < units.len() - 1 {
                size /= 1024.0;
                unit += 1;
            }
            if unit == 0 {
                format!("{n} B")
            } else {
                format!("{size:.1} {}", units[unit])
            }
        };
        assert_eq!(human_bytes(n), expected, "for {n}");
    }
}

#[test]
fn confirm_terminate_accepts_lowercase_y() {
    let mut sink = Vec::<u8>::new();
    let answered = confirm_terminate("personal", &b"y\n"[..], &mut sink).unwrap();
    assert!(answered);
    assert!(String::from_utf8_lossy(&sink).contains("Terminate vault 'personal'? (y/N) "));
}

#[test]
fn confirm_terminate_accepts_uppercase_y() {
    let mut sink = Vec::<u8>::new();
    let answered = confirm_terminate("personal", &b"Yes\n"[..], &mut sink).unwrap();
    assert!(answered);
}

#[test]
fn confirm_terminate_rejects_no() {
    let mut sink = Vec::<u8>::new();
    let answered = confirm_terminate("personal", &b"n\n"[..], &mut sink).unwrap();
    assert!(!answered);
}

#[test]
fn confirm_terminate_rejects_empty_line() {
    let mut sink = Vec::<u8>::new();
    let answered = confirm_terminate("personal", &b"\n"[..], &mut sink).unwrap();
    assert!(!answered);
}

#[test]
fn confirm_terminate_rejects_eof() {
    let mut sink = Vec::<u8>::new();
    let answered = confirm_terminate("personal", &b""[..], &mut sink).unwrap();
    assert!(!answered);
}

#[test]
fn confirm_reset_rebuild_emits_rebuild_prompt() {
    let mut sink = Vec::<u8>::new();
    let answered = confirm_reset_rebuild("personal", &b"y\n"[..], &mut sink).unwrap();
    assert!(answered);
    assert!(String::from_utf8_lossy(&sink).contains("Reset vault 'personal' and rebuild chunks? (y/N) "));
}

#[test]
fn confirm_rescan_emits_rescan_prompt() {
    let mut sink = Vec::<u8>::new();
    let answered = confirm_rescan("personal", &b"n\n"[..], &mut sink).unwrap();
    assert!(!answered);
    assert!(String::from_utf8_lossy(&sink)
        .contains("Rescan vault 'personal'? This will re-emit outbox events. (y/N) "));
}

#[test]
fn filesystem_line_has_path_size_mtime_layout() {
    let r = FilesystemResultJson {
        path: "notes/a.md".to_string(),
        size: 123,
        mtime: "2026-04-01T00:00:00Z".to_string(),
        content_hash: "sha256:00".to_string(),
        vault: None,
        vault_name: None,
    };
    assert_eq!(filesystem_line(&r), "notes/a.md  123 bytes  2026-04-01T00:00:00Z");
}

#[test]
fn confirm_reads_only_the_first_line_and_refuses_bad_utf8() {
    let mut sink = Vec::<u8>::new();
    assert!(!confirm_terminate("v", &b"  no\ny\n"[..], &mut sink).unwrap());
    assert!(confirm_terminate("v", &b"   yes"[..], &mut sink).unwrap());
    assert!(confirm_terminate("v", &b"\xff\n"[..], &mut sink).is_err());
    assert!(answer_is_yes("\u{a0}Y"));
    assert!(!answer_is_yes(""));
}

#[test]
fn base_urls_and_targets() {
    assert_eq!(normalize_base_url("http://h:1///"), "http://h:1");
    assert_eq!(base_url_for("127.0.0.1:7777", None), "http://127.0.0.1:7777");
    assert_eq!(base_url_for("ignored", Some("http://x/")), "http://x");
    assert_eq!(resolve_target("  main ", None).unwrap(), "main");
    assert_eq!(resolve_target("main", Some("other")).unwrap(), "other");
    assert!(resolve_target("   ", None).is_err());
}

#[test]
fn column_widths_cover_headers_and_cells() {
    let row = |id: &str, name: &str| VaultRowJson {
        id: id.to_string(),
        name: name.to_string(),
        path: "/p".to_string(),
        status: "active".to_string(),
        created_at: "2026".to_string(),
        last_error: None,
    };
    let w = column_widths(&vec![row("abcdef", "n"), row("a", "longname")]);
    assert_eq!((w.id, w.name, w.status, w.created), (6, 8, 6, 7));
}
