use floral_sync_server::config::{
    apply_and_persist_config, apply_config_patch, load_or_create_config, normalize_listen_addresses,
    update_config_file, ConfigError, ConfigFileUpdate, ConfigOverrides, ConfigPatch, RuntimeConfig,
    RuntimeConfigSnapshot, ServerConfig, StoredConfig,
};

const CONFIG_PATH: &str = "/srv/floral/sync-server.toml";

struct MemoryConfigFile {
    stored: Option<StoredConfig>,
    writes: usize,
}

impl MemoryConfigFile {
    fn missing() -> Self {
        MemoryConfigFile { stored: None, writes: 0 }
    }

    fn with(stored: StoredConfig) -> Self {
        MemoryConfigFile { stored: Some(stored), writes: 0 }
    }

    fn contents(&self) -> &StoredConfig {
        self.stored.as_ref().expect("file exists")
    }
}

impl MemoryConfigFile {
    fn read(&self) -> Option<StoredConfig> {
        self.stored.clone()
    }

    fn write(&mut self, stored: StoredConfig) {
        self.stored = Some(stored);
        self.writes += 1;
    }

    /// Performs the writes an operation asks for and gives its result.
    fn apply<T>(&mut self, update: ConfigFileUpdate<T>) -> Result<T, ConfigError> {
        for stored in update.writes {
            self.write(stored);
        }
        update.result
    }
}

fn apply_runtime_patch(
    runtime: &mut RuntimeConfig,
    patch: &ConfigPatch,
    file: &mut MemoryConfigFile,
) -> Result<RuntimeConfigSnapshot, ConfigError> {
    let (snapshot, stored) = runtime.apply_patch(patch)?;
    file.write(stored);
    Ok(snapshot)
}

/// A file with only the given fields set; the others read as their defaults.
fn file_with(fields: &[(&str, &str)]) -> StoredConfig {
    let mut stored = StoredConfig {
        sync_listen: Vec::new(),
        listen: Vec::new(),
        bind: None,
        db_path: "data/floral-sync.sqlite3".into(),
        export_dir: String::new(),
        log_path: "logs/floral-sync-server.log".into(),
        log_level: "info".into(),
        sync_token: String::new(),
        token: String::new(),
        admin_listen: Vec::new(),
        admin_password_hash: None,
        admin_session_secret: String::new(),
    };
    for (key, value) in fields {
        match *key {
            "sync_listen" => stored.sync_listen = value.split('|').map(str::to_string).collect(),
            "listen" => stored.listen = value.split('|').map(str::to_string).collect(),
            "admin_listen" => stored.admin_listen = value.split('|').map(str::to_string).collect(),
            "bind" => stored.bind = Some(value.to_string()),
            "db_path" => stored.db_path = value.to_string(),
            "sync_token" => stored.sync_token = value.to_string(),
            "token" => stored.token = value.to_string(),
            "admin_password_hash" => stored.admin_password_hash = Some(value.to_string()),
            "admin_session_secret" => stored.admin_session_secret = value.to_string(),
            other => panic!("unknown field {other}"),
        }
    }
    stored
}

fn default_admin_listen() -> Vec<String> {
    vec!["127.0.0.1:8788".to_string(), "[::1]:8788".to_string()]
}

fn load(file: &mut MemoryConfigFile) -> Result<ServerConfig, ConfigError> {
    let update = load_or_create_config(CONFIG_PATH, file.read(), &ConfigOverrides::default());
    file.apply(update)
}

#[test]
fn creates_default_config_file_when_missing() {
    let mut file = MemoryConfigFile::missing();

    let config = load(&mut file).expect("create default config");

    assert_eq!(file.writes, 1);
    assert_eq!(config.config_path, CONFIG_PATH);
    assert_eq!(config.sync_listen, vec!["0.0.0.0:8787", "[::]:8787"]);
    assert_eq!(config.admin_listen, default_admin_listen());
    assert_eq!(config.db_path, "/srv/floral/data/floral-sync.sqlite3");
    assert_eq!(config.export_dir, "/srv/floral/exports");
    assert_eq!(config.log_path, "/srv/floral/logs/floral-sync-server.log");
    assert_eq!(config.log_level, "info");
    assert!(!config.sync_token.trim().is_empty());
    assert!(config.admin_password_hash.is_none());
    assert!(!config.admin_session_secret.trim().is_empty());

    let raw = file.contents();
    assert!(!raw.sync_listen.is_empty());
    assert!(!raw.admin_listen.is_empty());
    assert!(!raw.sync_token.is_empty());
    assert!(!raw.admin_session_secret.is_empty());
}

#[test]
fn resolves_relative_database_path_and_applies_cli_overrides_without_rewriting_file() {
    let config_path = "/srv/floral/nested/sync-server.toml";
    let mut file = MemoryConfigFile::with(file_with(&[
        ("sync_listen", "0.0.0.0:9000"),
        ("db_path", "state/sync.sqlite3"),
        ("sync_token", "file-token"),
        ("admin_listen", "127.0.0.1:8788"),
        ("admin_session_secret", "session-secret"),
    ]));

    let update = load_or_create_config(
        config_path,
        file.read(),
        &ConfigOverrides {
            listen: Some(vec!["127.0.0.1:9001".into(), "[::1]:9001".into()]),
            db_path: None,
            token: Some("cli-token".into()),
        },
    );
    let config = file.apply(update).expect("load config");

    assert_eq!(config.sync_listen, vec!["127.0.0.1:9001", "[::1]:9001"]);
    assert_eq!(config.sync_token, "cli-token");
    assert_eq!(config.db_path, "/srv/floral/nested/state/sync.sqlite3");

    let raw = file.contents();
    assert_eq!(raw.sync_listen, vec!["0.0.0.0:9000"]);
    assert_eq!(raw.sync_token, "file-token");
}

#[test]
fn config_set_updates_selected_fields_without_losing_existing_values() {
    let new_db_path = "/srv/floral/server-data/sync.sqlite3".to_string();
    let mut file = MemoryConfigFile::with(file_with(&[
        ("sync_listen", "[::]:8787"),
        ("db_path", "data/floral-sync.sqlite3"),
        ("sync_token", "original-token"),
        ("admin_listen", "127.0.0.1:8788"),
        ("admin_session_secret", "original-secret"),
    ]));

    let update = update_config_file(
        CONFIG_PATH,
        file.read(),
        &ConfigPatch {
            listen: Some(vec!["0.0.0.0:9900".into(), "[::]:9900".into()]),
            admin_listen: None,
            db_path: Some(new_db_path.clone()),
            export_dir: None,
            log_path: None,
            log_level: None,
            token: None,
            admin_password_hash: None,
        },
    );
    let config = file.apply(update).expect("update config");

    assert_eq!(config.sync_listen, vec!["0.0.0.0:9900", "[::]:9900"]);
    assert_eq!(config.db_path, new_db_path);
    assert_eq!(config.sync_token, "original-token");

    let raw = file.contents();
    assert_eq!(raw.sync_listen, vec!["0.0.0.0:9900", "[::]:9900"]);
    assert!(raw.db_path.contains("server-data"));
    assert_eq!(raw.sync_token, "original-token");
    assert_eq!(raw.admin_session_secret, "original-secret");
}

#[test]
fn migrates_legacy_listen_field_to_sync_listen() {
    let mut file = MemoryConfigFile::with(file_with(&[
        ("listen", "127.0.0.1:8787"),
        ("db_path", "data/floral-sync.sqlite3"),
        ("token", "legacy-token"),
        ("admin_session_secret", "legacy-secret"),
    ]));

    let config = load(&mut file).expect("load migrated config");

    assert_eq!(config.sync_listen, vec!["127.0.0.1:8787"]);
    assert_eq!(config.sync_token, "legacy-token");
    let raw = file.contents();
    assert_eq!(raw.sync_listen, vec!["127.0.0.1:8787"]);
    assert_eq!(raw.sync_token, "legacy-token");
    assert!(raw.listen.is_empty());
    assert!(raw.token.is_empty());
}

#[test]
fn migrates_legacy_bind_field_to_sync_listen() {
    let mut file = MemoryConfigFile::with(file_with(&[
        ("bind", "[::1]:8787"),
        ("db_path", "data/floral-sync.sqlite3"),
        ("token", "legacy-token"),
        ("admin_session_secret", "legacy-secret"),
    ]));

    let config = load(&mut file).expect("load migrated config");

    assert_eq!(config.sync_listen, vec!["[::1]:8787"]);
    let raw = file.contents();
    assert_eq!(raw.sync_listen, vec!["[::1]:8787"]);
    assert!(raw.bind.is_none());
}

#[test]
fn expands_legacy_single_stack_default_sync_listen_to_dual_stack() {
    let mut file = MemoryConfigFile::with(file_with(&[
        ("sync_listen", "[::]:8787"),
        ("db_path", "data/floral-sync.sqlite3"),
        ("sync_token", "sync-token"),
        ("admin_listen", "127.0.0.1:8788"),
        ("admin_session_secret", "session-secret"),
    ]));

    let config = load(&mut file).expect("load config");

    assert_eq!(config.sync_listen, vec!["0.0.0.0:8787", "[::]:8787"]);
    assert_eq!(file.contents().sync_listen, vec!["0.0.0.0:8787", "[::]:8787"]);
}

#[test]
fn keeps_explicit_non_default_single_stack_sync_listen() {
    let mut file = MemoryConfigFile::with(file_with(&[
        ("sync_listen", "[::]:9900"),
        ("db_path", "data/floral-sync.sqlite3"),
        ("sync_token", "sync-token"),
        ("admin_listen", "127.0.0.1:8788"),
        ("admin_session_secret", "session-secret"),
    ]));

    let config = load(&mut file).expect("load config");

    assert_eq!(config.sync_listen, vec!["[::]:9900"]);
}

#[test]
fn missing_admin_listen_defaults_to_loopback_admin_addresses() {
    let mut file = MemoryConfigFile::with(file_with(&[
        ("sync_listen", "0.0.0.0:8787"),
        ("db_path", "data/floral-sync.sqlite3"),
        ("sync_token", "sync-token"),
        ("admin_session_secret", "session-secret"),
        ("admin_password_hash", "hashed-password"),
    ]));

    let config = load(&mut file).expect("load config");

    assert_eq!(config.admin_listen, default_admin_listen());
    assert_eq!(file.contents().admin_listen, default_admin_listen());
}

#[test]
fn missing_admin_session_secret_is_generated() {
    let mut file = MemoryConfigFile::with(file_with(&[
        ("sync_listen", "0.0.0.0:8787"),
        ("db_path", "data/floral-sync.sqlite3"),
        ("sync_token", "sync-token"),
        ("admin_listen", "127.0.0.1:8788"),
        ("admin_password_hash", "hashed-password"),
    ]));

    let config = load(&mut file).expect("load config");

    assert!(!config.admin_session_secret.trim().is_empty());
    assert!(!file.contents().admin_session_secret.is_empty());
}

#[test]
fn missing_admin_password_hash_leaves_bootstrap_mode_enabled() {
    let mut file = MemoryConfigFile::with(file_with(&[
        ("sync_listen", "0.0.0.0:8787"),
        ("db_path", "data/floral-sync.sqlite3"),
        ("sync_token", "sync-token"),
        ("admin_listen", "127.0.0.1:8788"),
        ("admin_session_secret", "session-secret"),
    ]));

    let config = load(&mut file).expect("load config");

    assert!(config.admin_password_hash.is_none());
    assert!(file.contents().admin_password_hash.is_none());
}

#[test]
fn rejects_invalid_sync_listen_addresses_during_config_load() {
    let mut file = MemoryConfigFile::with(file_with(&[
        ("sync_listen", "not-an-address"),
        ("db_path", "data/floral-sync.sqlite3"),
        ("sync_token", "sync-token"),
        ("admin_listen", "127.0.0.1:8788"),
        ("admin_session_secret", "session-secret"),
    ]));

    let error = load(&mut file).expect_err("invalid sync listen should fail");

    assert_eq!(
        error.message(),
        "invalid config: sync_listen entry must be a valid socket address: not-an-address"
    );
}

#[test]
fn rejects_invalid_admin_listen_addresses_during_config_load() {
    let mut file = MemoryConfigFile::with(file_with(&[
        ("sync_listen", "0.0.0.0:8787"),
        ("db_path", "data/floral-sync.sqlite3"),
        ("sync_token", "sync-token"),
        ("admin_listen", "nope"),
        ("admin_session_secret", "session-secret"),
    ]));

    let error = load(&mut file).expect_err("invalid admin listen should fail");

    assert_eq!(
        error.message(),
        "invalid config: admin_listen entry must be a valid socket address: nope"
    );
}

#[test]
fn rejects_whitespace_token_updates_without_rotating_credentials() {
    let mut file = MemoryConfigFile::with(file_with(&[
        ("sync_listen", "0.0.0.0:8787"),
        ("db_path", "data/floral-sync.sqlite3"),
        ("sync_token", "original-token"),
        ("admin_listen", "127.0.0.1:8788"),
        ("admin_session_secret", "session-secret"),
    ]));

    let update = update_config_file(
        CONFIG_PATH,
        file.read(),
        &ConfigPatch {
            listen: None,
            admin_listen: None,
            db_path: None,
            export_dir: None,
            log_path: None,
            log_level: None,
            token: Some("   ".into()),
            admin_password_hash: None,
        },
    );
    let error = file.apply(update).expect_err("whitespace token should fail");

    assert_eq!(error.message(), "invalid config: sync_token patch must not be empty");
    assert_eq!(file.contents().sync_token, "original-token");
}

#[test]
fn listener_lists_are_trimmed_deduplicated_and_required() {
    let normalized = normalize_listen_addresses(
        "sync_listen",
        vec![" 0.0.0.0:1 ".into(), "".into(), "0.0.0.0:1".into(), "[::]:1".into()],
    )
    .expect("valid list");
    assert_eq!(normalized, vec!["0.0.0.0:1", "[::]:1"]);

    let again = normalize_listen_addresses("sync_listen", normalized.clone()).expect("valid list");
    assert_eq!(again, normalized);

    let error = normalize_listen_addresses("admin_listen", vec!["  ".into()]).expect_err("empty");
    assert_eq!(error, ConfigError::Invalid("admin_listen must contain at least one address".into()));
}

#[test]
fn empty_patch_changes_nothing_and_patches_keep_unnamed_settings() {
    let mut file = MemoryConfigFile::missing();
    let config = load(&mut file).expect("config");

    let same = apply_config_patch(&config, &ConfigPatch::default()).expect("empty patch");
    assert_eq!(same, config);

    let patched = apply_config_patch(&config, &ConfigPatch::with_sync_token("  new-token ".into()))
        .expect("token patch");
    assert_eq!(patched.sync_token, "new-token");
    assert_eq!(patched.sync_listen, config.sync_listen);
    assert_eq!(patched.admin_session_secret, config.admin_session_secret);

    let error = apply_config_patch(
        &config,
        &ConfigPatch { db_path: Some(String::new()), ..ConfigPatch::default() },
    )
    .expect_err("empty path");
    assert_eq!(error.message(), "invalid config: db_path patch must not be empty");

    let relative = apply_config_patch(
        &config,
        &ConfigPatch { log_path: Some("other/x.log".into()), ..ConfigPatch::default() },
    )
    .expect("relative path");
    assert_eq!(relative.log_path, "/srv/floral/other/x.log");
}

#[test]
fn restart_required_settings_stay_pending_while_runtime_paths_remain_effective() {
    let mut file = MemoryConfigFile::missing();
    let config = load(&mut file).expect("config");
    let mut runtime = RuntimeConfig::new(config.clone());
    assert!(runtime.snapshot().pending_restart_fields.is_empty());

    let snapshot = apply_runtime_patch(
        &mut runtime,
        &ConfigPatch {
            listen: Some(vec!["127.0.0.1:9900".into()]),
            db_path: Some("/var/lib/floral/sync.sqlite3".into()),
            log_level: Some("debug".into()),
            ..ConfigPatch::default()
        },
        &mut file,
    )
    .expect("apply patch");

    assert_eq!(snapshot.pending_restart_fields, vec!["syncListen", "dbPath"]);
    assert_eq!(snapshot.effective.sync_listen, config.sync_listen);
    assert_eq!(snapshot.effective.db_path, config.db_path);
    assert_eq!(snapshot.effective.log_level, "debug");
    assert_eq!(snapshot.persisted.sync_listen, vec!["127.0.0.1:9900"]);
    assert_eq!(snapshot.persisted.db_path, "/var/lib/floral/sync.sqlite3");
    assert_eq!(runtime.persisted_config().db_path, "/var/lib/floral/sync.sqlite3");
    assert_eq!(file.contents().db_path, "/var/lib/floral/sync.sqlite3");
}

#[test]
fn token_reset_updates_sync_auth_immediately() {
    let mut file = MemoryConfigFile::missing();
    let config = load(&mut file).expect("config");
    let mut runtime = RuntimeConfig::new(config);

    apply_runtime_patch(&mut runtime, &ConfigPatch::with_sync_token("fresh-token".into()), &mut file)
        .expect("token reset");

    assert_eq!(runtime.effective_config().sync_token, "fresh-token");
    assert_eq!(file.contents().sync_token, "fresh-token");
    assert!(runtime.snapshot().pending_restart_fields.is_empty());
}

#[test]
fn rejected_patch_leaves_runtime_and_file_unchanged() {
    let mut file = MemoryConfigFile::missing();
    let config = load(&mut file).expect("config");
    let writes = file.writes;
    let mut runtime = RuntimeConfig::new(config.clone());

    let error = apply_runtime_patch(
        &mut runtime,
        &ConfigPatch { log_level: Some("  ".into()), ..ConfigPatch::default() },
        &mut file,
    )
    .expect_err("blank level");

    assert_eq!(error, ConfigError::Invalid("log_level patch must not be empty".into()));
    assert_eq!(file.writes, writes);
    assert_eq!(runtime.effective_config(), config);
}

#[test]
fn normalized_file_is_not_rewritten_on_the_next_load() {
    let mut file = MemoryConfigFile::with(file_with(&[
        ("listen", " 127.0.0.1:8787 "),
        ("token", " legacy-token "),
    ]));

    let first = load(&mut file).expect("first load");
    assert_eq!(file.writes, 1);
    let second = load(&mut file).expect("second load");

    assert_eq!(file.writes, 1);
    assert_eq!(first, second);
    assert_eq!(second.sync_token, "legacy-token");
    assert_eq!(second.sync_listen, vec!["127.0.0.1:8787"]);
}

#[test]
fn legacy_default_listener_is_widened_once() {
    let mut file = MemoryConfigFile::with(file_with(&[("bind", "0.0.0.0:8787")]));
    let config = load(&mut file).expect("load");
    assert_eq!(config.sync_listen, vec!["0.0.0.0:8787", "[::]:8787"]);
    let writes = file.writes;
    load(&mut file).expect("reload");
    assert_eq!(file.writes, writes);
}

#[test]
fn overrides_never_reach_the_file() {
    let stored = file_with(&[
        ("sync_listen", "0.0.0.0:9000"),
        ("db_path", "state/sync.sqlite3"),
        ("sync_token", "file-token"),
        ("admin_listen", "127.0.0.1:8788"),
        ("admin_session_secret", "session-secret"),
    ]);
    let plain = load_or_create_config(CONFIG_PATH, Some(stored.clone()), &ConfigOverrides::default());
    let overridden = load_or_create_config(
        CONFIG_PATH,
        Some(stored),
        &ConfigOverrides {
            listen: Some(vec!["127.0.0.1:9001".into()]),
            db_path: Some("/tmp/other.sqlite3".into()),
            token: Some("cli-token".into()),
        },
    );
    assert_eq!(plain.writes, overridden.writes);
    assert_eq!(overridden.writes.len(), 1);
    assert_eq!(overridden.writes[0].sync_token, "file-token");
    assert_eq!(overridden.writes[0].sync_listen, vec!["0.0.0.0:9000"]);
    assert_eq!(overridden.result.expect("load").sync_token, "cli-token");
}

#[test]
fn invalid_listener_leaves_the_file_unwritten() {
    let update = load_or_create_config(
        CONFIG_PATH,
        Some(file_with(&[("sync_listen", "not-an-address"), ("sync_token", "t")])),
        &ConfigOverrides::default(),
    );
    assert!(update.writes.is_empty());
    assert!(update.result.is_err());
}

#[test]
fn persisting_a_patch_gives_its_stored_form_and_refuses_invalid_patches() {
    let mut file = MemoryConfigFile::missing();
    let config = load(&mut file).expect("config");

    let (updated, stored) =
        apply_and_persist_config(&config, &ConfigPatch::with_sync_token(" rotated ".into())).expect("patch");
    assert_eq!(updated.sync_token, "rotated");
    assert_eq!(stored, StoredConfig::from_server_config(&updated));
    assert_eq!(stored.db_path, "data/floral-sync.sqlite3");

    let error = apply_and_persist_config(&config, &ConfigPatch::with_sync_token("  ".into()))
        .expect_err("blank token");
    assert_eq!(error, ConfigError::Invalid("sync_token patch must not be empty".into()));
}

#[test]
fn missing_file_read_is_created_once() {
    let first = load_or_create_config(CONFIG_PATH, None, &ConfigOverrides::default());
    assert_eq!(first.writes.len(), 1);
    let written = first.writes[0].clone();
    let config = first.result.expect("config");
    let second = load_or_create_config(CONFIG_PATH, Some(written), &ConfigOverrides::default());
    assert!(second.writes.is_empty());
    assert_eq!(second.result.expect("reload"), config);
}

#[test]
fn persisted_config_loads_back_unchanged() {
    let mut file = MemoryConfigFile::missing();
    let config = load(&mut file).expect("config");
    let (patched, stored) = apply_and_persist_config(
        &config,
        &ConfigPatch {
            listen: Some(vec!["127.0.0.1:9900".into()]),
            db_path: Some("other/sync.sqlite3".into()),
            log_level: Some(" debug ".into()),
            ..ConfigPatch::default()
        },
    )
    .expect("patch");
    assert_eq!(stored.db_path, "other/sync.sqlite3");

    let reloaded = load_or_create_config(CONFIG_PATH, Some(stored), &ConfigOverrides::default());
    assert!(reloaded.writes.is_empty());
    assert_eq!(reloaded.result.expect("reload"), patched);
}

#[test]
fn loaded_settings_are_trimmed_and_listeners_normalized() {
    let stored = file_with(&[
        ("sync_listen", " 0.0.0.0:9000 |0.0.0.0:9000| [::]:9000"),
        ("sync_token", "  token  "),
        ("admin_session_secret", " secret "),
        ("admin_password_hash", " hash "),
    ]);
    let config = load_or_create_config(CONFIG_PATH, Some(stored), &ConfigOverrides::default())
        .result
        .expect("config");
    assert_eq!(config.sync_listen, vec!["0.0.0.0:9000", "[::]:9000"]);
    assert_eq!(config.sync_token, "token");
    assert_eq!(config.admin_session_secret, "secret");
    assert_eq!(config.admin_password_hash.as_deref(), Some("hash"));
}
