use std::io::Read;

use floral_sync_server::admin_api::{
    archive_file_names, build_notes_archive, check_bootstrap, check_login, check_password_change,
    cleared_session_cookie, current_session_response, issued_session_response, log_tail,
    normalize_archive_note_ids, overview_response, parse_note_state, read_cookie,
    recent_activity_summary, require_same_origin, resolve_backup_path, session_cookie,
    settings_response, sort_backups_newest_first, unique_archive_file_name, AdminRequestHeaders,
    ApiError, BackupEntry, NoteArchiveQuery, ParsedOrigin, SettingsUpdateRequest,
};
use floral_sync_server::admin_store::{
    markdown_download, sanitize_file_stem, AdminOverview, MarkdownDownload, NoteDetail,
    NoteListQuery, NoteStateFilter,
};
use floral_sync_server::auth::hash_admin_password;
use floral_sync_server::config::{RuntimeConfig, ServerConfig};
use floral_sync_server::session::AdminSessionClaims;
use floral_sync_server::time::Timestamp;

const T_0800: i64 = 1_779_091_200;

fn config(hash: Option<String>) -> ServerConfig {
    ServerConfig {
        config_path: "/srv/floral/sync-server.toml".into(),
        sync_listen: vec!["0.0.0.0:8787".into(), "[::]:8787".into()],
        admin_listen: vec!["127.0.0.1:8788".into(), "[::1]:8788".into()],
        db_path: "/srv/floral/data/floral-sync.sqlite3".into(),
        export_dir: "/srv/floral/exports".into(),
        log_path: "/srv/floral/logs/floral-sync-server.log".into(),
        log_level: "info".into(),
        sync_token: "sync-token".into(),
        admin_password_hash: hash,
        admin_session_secret: "session-secret".into(),
    }
}

fn headers(origin: Option<&str>, host: Option<&str>) -> AdminRequestHeaders {
    AdminRequestHeaders {
        origin: origin.map(|o| Some(o.to_string())),
        host: host.map(str::to_string),
        forwarded_proto: None,
        forwarded_host: None,
        cookie: None,
    }
}

fn forbidden(message: &str) -> Result<(), ApiError> {
    Err(ApiError::Forbidden(message.to_string()))
}

#[test]
fn login_rejects_missing_origin_header() {
    assert_eq!(
        require_same_origin(&headers(None, Some("127.0.0.1:8788"))),
        forbidden("origin header is required for POST requests")
    );
}

#[test]
fn token_reset_rejects_mismatched_origin_header() {
    let error = require_same_origin(&headers(Some("http://evil.example:8788"), Some("127.0.0.1:8788")))
        .expect_err("mismatched origin");
    assert_eq!(error, ApiError::Forbidden("origin header does not match an allowed admin host".into()));
    assert_eq!(error.status_code(), 403);
}

#[test]
fn login_accepts_localhost_origin_for_loopback_listener() {
    assert_eq!(require_same_origin(&headers(Some("http://localhost:8788"), Some("localhost:8788"))), Ok(()));
    assert_eq!(
        require_same_origin(&headers(Some("http://127.0.0.1:8788"), Some("127.0.0.1:8788"))),
        Ok(())
    );
}

#[test]
fn login_accepts_reverse_proxy_origin_with_forwarded_headers() {
    let request = AdminRequestHeaders {
        origin: Some(Some("https://admin.notes.example.com".into())),
        host: Some("127.0.0.1:8788".into()),
        forwarded_proto: Some("https".into()),
        forwarded_host: Some("admin.notes.example.com".into()),
        cookie: None,
    };
    assert_eq!(require_same_origin(&request), Ok(()));
}

#[test]
fn origins_compare_scheme_host_and_port() {
    assert_eq!(
        require_same_origin(&headers(Some("HTTP://LocalHost:8788"), Some("localhost:8788"))),
        Ok(())
    );
    assert_eq!(
        require_same_origin(&headers(Some("https://localhost:8788"), Some("localhost:8788"))),
        forbidden("origin header does not match an allowed admin host")
    );
    assert_eq!(
        require_same_origin(&headers(Some("http://localhost"), Some("localhost:80"))),
        Ok(())
    );
    assert_eq!(
        require_same_origin(&headers(Some("http://localhost:9999"), Some("localhost:8788"))),
        forbidden("origin header does not match an allowed admin host")
    );
    assert_eq!(
        require_same_origin(&headers(Some("null"), Some("localhost:8788"))),
        forbidden("origin header is invalid")
    );
    assert_eq!(
        require_same_origin(&headers(Some("http://localhost:8788"), None)),
        forbidden("host header is required for POST requests")
    );
    let unreadable = AdminRequestHeaders { origin: Some(None), ..headers(None, Some("localhost:8788")) };
    assert_eq!(require_same_origin(&unreadable), forbidden("origin header is invalid"));
}

#[test]
fn origin_parsing_handles_ports_paths_and_ipv6() {
    let parsed = ParsedOrigin::parse("http://[::1]:8788/admin").expect("origin");
    assert_eq!(parsed, ParsedOrigin { scheme: "http".into(), host: "::1".into(), port: 8788 });
    let parsed = ParsedOrigin::parse("https://example.com").expect("origin");
    assert_eq!(parsed.port, 443);
    assert_eq!(ParsedOrigin::parse("ftp://example.com"), None);
    assert_eq!(ParsedOrigin::parse("http://example.com:99999"), None);
    assert_eq!(ParsedOrigin::parse("example.com"), None);
}

#[test]
fn cookies_are_found_by_name() {
    let header = Some("theme=dark; floral_admin_session=abc.def ;other=1".to_string());
    assert_eq!(read_cookie(&header, "floral_admin_session"), Some("abc.def".into()));
    assert_eq!(read_cookie(&header, "theme"), Some("dark".into()));
    assert_eq!(read_cookie(&header, "missing"), None);
    assert_eq!(read_cookie(&None, "theme"), None);
}

#[test]
fn session_cookie_attributes() {
    assert_eq!(
        session_cookie("token"),
        "floral_admin_session=token; Path=/; HttpOnly; SameSite=Strict"
    );
    assert_eq!(
        cleared_session_cookie(),
        "floral_admin_session=; Path=/; Max-Age=0; HttpOnly; SameSite=Strict"
    );
}

#[test]
fn session_route_returns_authenticated_session_state() {
    let issued = Timestamp::new(T_0800, 0);
    let claims = AdminSessionClaims::new("s".into(), issued, 1);
    let response = current_session_response(&config(Some("hash".into())), &Some(claims));
    assert!(response.authenticated);
    assert!(!response.bootstrap_required);
    assert!(response.password_configured);
    assert_eq!(response.expires_at, Some(Timestamp::new(T_0800 + 43200, 0)));

    let anonymous = current_session_response(&config(None), &None);
    assert!(!anonymous.authenticated);
    assert!(anonymous.bootstrap_required);
    assert!(!anonymous.password_configured);
    assert_eq!(anonymous.expires_at, None);

    let issued_response = issued_session_response(issued);
    assert!(issued_response.authenticated && issued_response.password_configured);
    assert_eq!(issued_response.expires_at, Some(Timestamp::new(T_0800 + 43200, 0)));
}

#[test]
fn login_returns_session_cookie_for_valid_password() {
    let hash = hash_admin_password("hunter2").expect("hash");
    let configured = config(Some(hash));
    assert_eq!(check_login(&configured, "hunter2"), Ok(()));
    assert_eq!(check_login(&configured, "wrong"), Err(ApiError::Unauthorized));
    assert_eq!(
        check_login(&config(None), "hunter2"),
        Err(ApiError::Conflict("admin bootstrap must be completed before login".into()))
    );
}

#[test]
fn bootstrap_sets_admin_password_and_session_cookie() {
    let hash = check_bootstrap(&config(None), "hunter2").expect("bootstrap");
    assert!(hash.starts_with("$argon2"));
    assert_eq!(
        check_bootstrap(&config(Some(hash)), "again"),
        Err(ApiError::Conflict("admin bootstrap has already been completed".into()))
    );
    assert!(matches!(check_bootstrap(&config(None), ""), Err(ApiError::BadRequest(_))));
}

#[test]
fn password_change_checks_confirmation_and_current_password() {
    let hash = hash_admin_password("old-password").expect("hash");
    let configured = config(Some(hash));
    assert_eq!(
        check_password_change(&configured, "old-password", "new", "other"),
        Err(ApiError::BadRequest("new password confirmation does not match".into()))
    );
    assert_eq!(
        check_password_change(&configured, "wrong", "new", "new"),
        Err(ApiError::Unauthorized)
    );
    let new_hash = check_password_change(&configured, "old-password", "new", "new").expect("change");
    assert!(new_hash.starts_with("$argon2"));
    assert_eq!(
        check_password_change(&config(None), "a", "b", "b"),
        Err(ApiError::Conflict(
            "admin bootstrap must be completed before changing the password".into()
        ))
    );
}

#[test]
fn note_state_filter_parsing() {
    assert_eq!(parse_note_state(None), Ok(NoteStateFilter::All));
    assert_eq!(parse_note_state(Some("active")), Ok(NoteStateFilter::Active));
    assert_eq!(parse_note_state(Some("deleted")), Ok(NoteStateFilter::Deleted));
    assert_eq!(parse_note_state(Some("all")), Ok(NoteStateFilter::All));
    assert_eq!(
        parse_note_state(Some("archived")),
        Err(ApiError::BadRequest("invalid note state filter: archived".into()))
    );
}

#[test]
fn notes_route_returns_paginated_note_rows() {
    let query = NoteListQuery {
        page: 0,
        page_size: 500,
        search: Some("  groceries ".into()),
        category: Some("   ".into()),
        state: NoteStateFilter::Active,
    };
    let params = query.params();
    assert_eq!(params.page, 1);
    assert_eq!(params.page_size, 200);
    assert_eq!(params.search.as_deref(), Some("groceries"));
    assert_eq!(params.search_pattern.as_deref(), Some("%groceries%"));
    assert_eq!(params.category, None);
    assert_eq!(params.state, "active");
    assert_eq!(params.offset, 0);

    let third = NoteListQuery { page: 3, page_size: 50, ..NoteListQuery::first_page() }.params();
    assert_eq!(third.offset, 100);
}

fn note(id: &str, title: &str, content: &str, category: &str) -> NoteDetail {
    NoteDetail {
        id: id.into(),
        title: title.into(),
        content: content.into(),
        category: category.into(),
        created_at: Timestamp::new(T_0800, 0),
        updated_at: Timestamp::new(T_0800, 0),
        deleted_at: None,
        content_hash: format!("{id}:1"),
        device_id: "device-a".into(),
        revision: 1,
    }
}

#[test]
fn note_detail_route_returns_current_note_state() {
    let download = markdown_download(&note("note-1", "First note", "body", "Work")).expect("render");
    assert_eq!(download.file_name, "first-note.md");
    assert_eq!(
        download.markdown,
        "# First note\n\nCategory: Work\nUpdated: 2026-05-18T08:00:00+00:00\nRevision: 1\nDevice: device-a\n\n---\n\nbody\n"
    );
}

#[test]
fn markdown_of_deleted_untitled_note_uses_its_id() {
    let mut n = note("note-9", "   ", "ends with newline\n", "  ");
    n.deleted_at = Some(Timestamp::new(T_0800 + 60, 0));
    let download = markdown_download(&n).expect("render");
    assert_eq!(download.file_name, "note-9.md");
    assert_eq!(
        download.markdown,
        "# note-9\n\nUpdated: 2026-05-18T08:00:00+00:00\nDeleted: 2026-05-18T08:01:00+00:00\nRevision: 1\nDevice: device-a\n\n---\n\nends with newline\n"
    );
}

#[test]
fn file_stems_are_lowercase_ascii_with_single_dashes() {
    assert_eq!(sanitize_file_stem("Hello,  World!", "id"), "hello-world");
    assert_eq!(sanitize_file_stem("--A_b--c__", "id"), "a-b-c");
    assert_eq!(sanitize_file_stem("测试", "note-1"), "note-1");
    assert_eq!(sanitize_file_stem("Ünïcode Title 2", "id"), "ncode-title-2");
}

#[test]
fn notes_archive_download_rejects_empty_selection() {
    let ids = normalize_archive_note_ids(NoteArchiveQuery { id: Vec::new(), ids: None });
    assert!(ids.is_empty());
    let blanks = normalize_archive_note_ids(NoteArchiveQuery { id: vec!["  ".into()], ids: Some(" , ,".into()) });
    assert!(blanks.is_empty());
}

#[test]
fn archive_ids_are_trimmed_deduplicated_and_ordered() {
    let ids = normalize_archive_note_ids(NoteArchiveQuery {
        id: vec![" note-2 ".into(), "note-1".into()],
        ids: Some("note-1, note-3,,note-2".into()),
    });
    assert_eq!(ids, vec!["note-2", "note-1", "note-3"]);
}

#[test]
fn archive_names_are_made_unique() {
    let mut used = Vec::new();
    assert_eq!(unique_archive_file_name("note.md", &mut used), "note.md");
    assert_eq!(unique_archive_file_name("note.md", &mut used), "note-2.md");
    assert_eq!(unique_archive_file_name("note.md", &mut used), "note-3.md");
    assert_eq!(unique_archive_file_name("README", &mut used), "README");
    assert_eq!(unique_archive_file_name("README", &mut used), "README-2");
    assert_eq!(unique_archive_file_name(".md", &mut used), ".md");
    assert_eq!(unique_archive_file_name(".md", &mut used), ".md-2");
    assert_eq!(unique_archive_file_name("note-2.md", &mut used), "note-2-2.md");
    assert_eq!(used.len(), 8);
}

fn download(file_name: &str, markdown: &str) -> MarkdownDownload {
    MarkdownDownload { file_name: file_name.into(), markdown: markdown.into() }
}

#[test]
fn notes_archive_download_returns_zip_for_selected_notes() {
    let downloads = vec![
        download("first-note.md", "# First note\n\nbody\n"),
        download("second-note.md", "# Second note\n\nsecond body\n"),
        download("first-note.md", "# First note\n\nanother\n"),
    ];
    assert_eq!(
        archive_file_names(&downloads),
        vec!["first-note.md", "second-note.md", "first-note-2.md"]
    );

    let archive = build_notes_archive(&downloads, Timestamp::new(T_0800, 0)).expect("archive");
    assert_eq!(archive.file_name, "floral-sync-notes-2026-05-18T08-00-00Z.zip");

    let mut zip = zip::ZipArchive::new(std::io::Cursor::new(archive.bytes)).expect("read zip");
    assert_eq!(zip.len(), 3);
    let mut entries = Vec::new();
    for index in 0..zip.len() {
        let mut file = zip.by_index(index).expect("entry");
        let mut contents = String::new();
        file.read_to_string(&mut contents).expect("contents");
        entries.push((file.name().to_string(), contents));
    }
    assert_eq!(entries[0].0, "first-note.md");
    assert!(entries[0].1.contains("# First note"));
    assert!(entries[0].1.contains("body"));
    assert_eq!(entries[1].0, "second-note.md");
    assert!(entries[1].1.contains("second body"));
    assert_eq!(entries[2].0, "first-note-2.md");
    assert!(entries[2].1.contains("another"));
}

#[test]
fn equal_archives_have_equal_bytes() {
    let downloads = vec![download("a.md", "alpha\n")];
    let first = build_notes_archive(&downloads, Timestamp::new(T_0800, 0)).expect("archive");
    let second = build_notes_archive(&downloads, Timestamp::new(T_0800, 0)).expect("archive");
    assert_eq!(first.bytes, second.bytes);
}

#[test]
fn restore_backup_rejects_path_segments() {
    assert_eq!(
        resolve_backup_path("/srv/floral/exports", "../escape.sqlite3"),
        Err(ApiError::BadRequest("backup file name must not include path segments".into()))
    );
    assert_eq!(
        resolve_backup_path("/srv/floral/exports", "/etc/passwd"),
        Err(ApiError::BadRequest("backup file name must not include path segments".into()))
    );
    assert_eq!(
        resolve_backup_path("/srv/floral/exports", "  "),
        Err(ApiError::BadRequest("backup file name is required".into()))
    );
}

#[test]
fn restore_backup_replaces_current_note_state() {
    assert_eq!(
        resolve_backup_path("/srv/floral/exports", " floral-sync-2026.sqlite3 "),
        Ok("/srv/floral/exports/floral-sync-2026.sqlite3".to_string())
    );
}

#[test]
fn overview_route_returns_counts_and_listener_info() {
    let summary = AdminOverview {
        latest_revision: 5,
        note_count: 3,
        deleted_note_count: 1,
        category_count: 2,
        latest_snapshot_at: Some(Timestamp::new(T_0800, 0)),
    };
    let overview = overview_response(&config(None), &summary).expect("overview");
    assert_eq!(overview.latest_revision, 5);
    assert_eq!(overview.note_count, 3);
    assert_eq!(overview.deleted_note_count, 1);
    assert_eq!(overview.category_count, 2);
    assert_eq!(overview.sync_listen, vec!["0.0.0.0:8787", "[::]:8787"]);
    assert_eq!(overview.admin_listen, vec!["127.0.0.1:8788", "[::1]:8788"]);
    assert_eq!(overview.log_level, "info");
    assert_eq!(
        overview.recent_activity_summary,
        "Latest snapshot captured at 2026-05-18T08:00:00+00:00"
    );
    let empty = AdminOverview { latest_snapshot_at: None, ..summary };
    assert_eq!(
        recent_activity_summary(&empty).as_deref(),
        Some("No note snapshots have been captured yet")
    );
}

#[test]
fn settings_report_configuration_and_pending_restarts() {
    let runtime = RuntimeConfig::new(config(None));
    let settings = settings_response(&runtime.snapshot());
    assert_eq!(settings.sync_token, "sync-token");
    assert!(settings.sync_token_configured);
    assert!(!settings.admin_password_configured);
    assert!(settings.admin_session_secret_configured);
    assert!(settings.pending_restart_fields.is_empty());
    assert_eq!(settings.db_path, "/srv/floral/data/floral-sync.sqlite3");
}

#[test]
fn settings_update_never_touches_credentials() {
    let patch = SettingsUpdateRequest {
        sync_listen: Some(vec!["127.0.0.1:1".into()]),
        admin_listen: None,
        db_path: None,
        export_dir: Some("backups".into()),
        log_path: None,
        log_level: Some("debug".into()),
    }
    .into_patch();
    assert_eq!(patch.listen, Some(vec!["127.0.0.1:1".to_string()]));
    assert_eq!(patch.export_dir.as_deref(), Some("backups"));
    assert_eq!(patch.token, None);
    assert_eq!(patch.admin_password_hash, None);
}

#[test]
fn log_tail_keeps_the_last_lines() {
    let contents = "one\r\ntwo\n\nthree\nfour";
    assert_eq!(log_tail(contents, None), vec!["one", "two", "", "three", "four"]);
    assert_eq!(log_tail(contents, Some(2)), vec!["three", "four"]);
    assert_eq!(log_tail(contents, Some(0)), vec!["four"]);
    assert_eq!(log_tail("", Some(5)), Vec::<String>::new());
    assert_eq!(log_tail("a\n", Some(5)), vec!["a"]);
    let long: String = (0..1500).map(|i| format!("line {i}\n")).collect();
    let tail = log_tail(&long, Some(5000));
    assert_eq!(tail.len(), 1000);
    assert_eq!(tail[0], "line 500");
    assert_eq!(log_tail(&long, None).len(), 200);
}

#[test]
fn backups_are_listed_newest_first() {
    let entries = vec![
        BackupEntry { file_name: "floral-sync-2026-05-18T08-00-00Z.sqlite3".into(), size_bytes: 1 },
        BackupEntry { file_name: "floral-sync-2026-05-19T08-00-00Z.sqlite3".into(), size_bytes: 2 },
        BackupEntry { file_name: "floral-sync-2026-05-17T08-00-00Z.sqlite3".into(), size_bytes: 3 },
    ];
    let sorted = sort_backups_newest_first(entries);
    let sizes: Vec<u64> = sorted.iter().map(|e| e.size_bytes).collect();
    assert_eq!(sizes, vec![2, 1, 3]);
}

#[test]
fn api_errors_map_to_statuses() {
    assert_eq!(ApiError::BadRequest("x".into()).status_code(), 400);
    assert_eq!(ApiError::Unauthorized.status_code(), 401);
    assert_eq!(ApiError::NotFound("x".into()).status_code(), 404);
    assert_eq!(ApiError::Conflict("x".into()).status_code(), 409);
    assert_eq!(ApiError::BadRequest("bad".into()).message(), "bad");
}

#[test]
fn file_stems_are_clean_or_the_fallback() {
    for title in ["", "---", "  a  b  ", "A--B", "x_y-z", "日本語", "Ends-", "-Starts"] {
        let stem = sanitize_file_stem(title, "fallback-id");
        if stem != "fallback-id" {
            assert!(!stem.starts_with('-') && !stem.ends_with('-'));
            assert!(!stem.contains("--"));
            assert!(stem.chars().all(|c| c.is_ascii_lowercase() || c.is_ascii_digit() || c == '-'));
        }
    }
    assert_eq!(sanitize_file_stem("A--B", "id"), "a-b");
    assert_eq!(sanitize_file_stem("---", "id"), "id");
}

#[test]
fn empty_archive_is_built_and_named_after_the_time() {
    let archive = build_notes_archive(&Vec::new(), Timestamp::new(T_0800, 0)).expect("archive");
    assert!(archive.file_name.starts_with("floral-sync-notes-"));
    assert!(archive.file_name.ends_with(".zip"));
    assert!(!archive.bytes.is_empty());
}

#[test]
fn unformattable_time_fails_the_archive() {
    let error = build_notes_archive(&Vec::new(), Timestamp::new(i64::MAX, 0)).expect_err("time");
    assert_eq!(error, ApiError::Internal("current time cannot be formatted".into()));
}

#[test]
fn backup_names_are_judged_by_their_path_components() {
    assert!(resolve_backup_path("/srv/floral/exports", "./backup.sqlite3").is_err());
    assert!(resolve_backup_path("/srv/floral/exports", "a/b.sqlite3").is_err());
    assert!(resolve_backup_path("/srv/floral/exports", "..").is_err());
    assert_eq!(
        resolve_backup_path("/srv/floral/exports", "b.sqlite3"),
        Ok("/srv/floral/exports/b.sqlite3".to_string())
    );
}
