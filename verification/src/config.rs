//! Server configuration: the stored (file) form and its normalization and
//! migration, the resolved runtime form, patches applied from the CLI and the
//! admin UI, and the runtime view that separates settings that take effect
//! immediately from those that wait for a restart.
//!
//! The application reads and writes the configuration file: operations on it
//! take what a read gave and hand back, in a [`ConfigFileUpdate`], what to write.
use vstd::prelude::*;
use crate::paths::{path_for_storage, resolve_path_from_config, resolve_path_spec, storage_path_spec};
use crate::text::{
    is_ws, lemma_not_blank_if_no_ws, lemma_trim_fixed, lemma_trim_shape, clone_opt_string, clone_strings, concat2, concat3, contains_string, is_blank, is_blank_str,
    opt_strs_view, opt_view, string_of, strings_eq, strs_view, trim, trim_spec,
};

verus! {

/// Errors of configuration handling. The payload is the message that the
/// error reports after its category prefix (see [`ConfigError::message`]).
#[derive(Debug, Clone, PartialEq, Eq)]
pub enum ConfigError {
    Io(String),
    Parse(String),
    Serialize(String),
    Invalid(String),
}

impl ConfigError {
    /// The error's display text: its category prefix and its message.
    pub open spec fn text(self) -> Seq<char> {
        match self {
            ConfigError::Io(m) => "io error: "@ + m@,
            ConfigError::Parse(m) => "config parse error: "@ + m@,
            ConfigError::Serialize(m) => "config serialize error: "@ + m@,
            ConfigError::Invalid(m) => "invalid config: "@ + m@,
        }
    }

    /// The error's display text, e.g. `invalid config: <reason>`.
    pub fn message(&self) -> (r: String)
        ensures
            r@ == self.text(),
    {
        match self {
            ConfigError::Io(m) => concat2("io error: ", m.as_str()),
            ConfigError::Parse(m) => concat2("config parse error: ", m.as_str()),
            ConfigError::Serialize(m) => concat2("config serialize error: ", m.as_str()),
            ConfigError::Invalid(m) => concat2("invalid config: ", m.as_str()),
        }
    }
}

/// Overrides given on the command line for one run; they are never written
/// back to the configuration file.
#[derive(Debug, Clone, PartialEq, Eq)]
pub struct ConfigOverrides {
    pub listen: Option<Vec<String>>,
    pub db_path: Option<String>,
    pub token: Option<String>,
}

/// A partial update of the configuration; `None` leaves a field as it is.
#[derive(Debug, Clone, PartialEq, Eq)]
pub struct ConfigPatch {
    pub listen: Option<Vec<String>>,
    pub admin_listen: Option<Vec<String>>,
    pub db_path: Option<String>,
    pub export_dir: Option<String>,
    pub log_path: Option<String>,
    pub log_level: Option<String>,
    pub token: Option<String>,
    pub admin_password_hash: Option<String>,
}

/// The resolved configuration that the server runs with. Paths are absolute
/// or relative to the process, having been resolved against the directory of
/// `config_path`.
#[derive(Debug, Clone, PartialEq, Eq)]
pub struct ServerConfig {
    pub config_path: String,
    pub sync_listen: Vec<String>,
    pub admin_listen: Vec<String>,
    pub db_path: String,
    pub export_dir: String,
    pub log_path: String,
    pub log_level: String,
    pub sync_token: String,
    pub admin_password_hash: Option<String>,
    pub admin_session_secret: String,
}

/// The configuration as it is written in the TOML file, including the legacy
/// fields `listen`, `bind` and `token` that older versions wrote.
#[derive(Debug, Clone, PartialEq, Eq)]
pub struct StoredConfig {
    pub sync_listen: Vec<String>,
    pub listen: Vec<String>,
    pub bind: Option<String>,
    pub db_path: String,
    pub export_dir: String,
    pub log_path: String,
    pub log_level: String,
    pub sync_token: String,
    pub token: String,
    pub admin_listen: Vec<String>,
    pub admin_password_hash: Option<String>,
    pub admin_session_secret: String,
}

/// Mathematical form of [`ConfigOverrides`].
pub struct ConfigOverridesView {
    pub listen: Option<Seq<Seq<char>>>,
    pub db_path: Option<Seq<char>>,
    pub token: Option<Seq<char>>,
}

/// Mathematical form of [`ConfigPatch`].
pub struct ConfigPatchView {
    pub listen: Option<Seq<Seq<char>>>,
    pub admin_listen: Option<Seq<Seq<char>>>,
    pub db_path: Option<Seq<char>>,
    pub export_dir: Option<Seq<char>>,
    pub log_path: Option<Seq<char>>,
    pub log_level: Option<Seq<char>>,
    pub token: Option<Seq<char>>,
    pub admin_password_hash: Option<Seq<char>>,
}

/// Mathematical form of [`ServerConfig`].
pub struct ServerConfigView {
    pub config_path: Seq<char>,
    pub sync_listen: Seq<Seq<char>>,
    pub admin_listen: Seq<Seq<char>>,
    pub db_path: Seq<char>,
    pub export_dir: Seq<char>,
    pub log_path: Seq<char>,
    pub log_level: Seq<char>,
    pub sync_token: Seq<char>,
    pub admin_password_hash: Option<Seq<char>>,
    pub admin_session_secret: Seq<char>,
}

/// Mathematical form of [`StoredConfig`].
pub struct StoredConfigView {
    pub sync_listen: Seq<Seq<char>>,
    pub listen: Seq<Seq<char>>,
    pub bind: Option<Seq<char>>,
    pub db_path: Seq<char>,
    pub export_dir: Seq<char>,
    pub log_path: Seq<char>,
    pub log_level: Seq<char>,
    pub sync_token: Seq<char>,
    pub token: Seq<char>,
    pub admin_listen: Seq<Seq<char>>,
    pub admin_password_hash: Option<Seq<char>>,
    pub admin_session_secret: Seq<char>,
}

impl View for ConfigOverrides {
    type V = ConfigOverridesView;

    open spec fn view(&self) -> ConfigOverridesView {
        ConfigOverridesView {
            listen: opt_strs_view(self.listen),
            db_path: opt_view(self.db_path),
            token: opt_view(self.token),
        }
    }
}

impl View for ConfigPatch {
    type V = ConfigPatchView;

    open spec fn view(&self) -> ConfigPatchView {
        ConfigPatchView {
            listen: opt_strs_view(self.listen),
            admin_listen: opt_strs_view(self.admin_listen),
            db_path: opt_view(self.db_path),
            export_dir: opt_view(self.export_dir),
            log_path: opt_view(self.log_path),
            log_level: opt_view(self.log_level),
            token: opt_view(self.token),
            admin_password_hash: opt_view(self.admin_password_hash),
        }
    }
}

impl View for ServerConfig {
    type V = ServerConfigView;

    open spec fn view(&self) -> ServerConfigView {
        ServerConfigView {
            config_path: self.config_path@,
            sync_listen: strs_view(self.sync_listen@),
            admin_listen: strs_view(self.admin_listen@),
            db_path: self.db_path@,
            export_dir: self.export_dir@,
            log_path: self.log_path@,
            log_level: self.log_level@,
            sync_token: self.sync_token@,
            admin_password_hash: opt_view(self.admin_password_hash),
            admin_session_secret: self.admin_session_secret@,
        }
    }
}

impl View for StoredConfig {
    type V = StoredConfigView;

    open spec fn view(&self) -> StoredConfigView {
        StoredConfigView {
            sync_listen: strs_view(self.sync_listen@),
            listen: strs_view(self.listen@),
            bind: opt_view(self.bind),
            db_path: self.db_path@,
            export_dir: self.export_dir@,
            log_path: self.log_path@,
            log_level: self.log_level@,
            sync_token: self.sync_token@,
            token: self.token@,
            admin_listen: strs_view(self.admin_listen@),
            admin_password_hash: opt_view(self.admin_password_hash),
            admin_session_secret: self.admin_session_secret@,
        }
    }
}

impl ConfigOverrides {
    /// Overrides that override nothing.
    pub fn none() -> (r: Self)
        ensures
            r.listen is None,
            r.db_path is None,
            r.token is None,
    {
        ConfigOverrides { listen: None, db_path: None, token: None }
    }
}

impl Default for ConfigOverrides {
    fn default() -> (r: Self)
        ensures
            r.listen is None,
            r.db_path is None,
            r.token is None,
    {
        ConfigOverrides::none()
    }
}

impl ConfigPatch {
    /// A patch that changes nothing.
    pub fn empty() -> (r: Self)
        ensures
            r@ == empty_patch_spec(),
    {
        ConfigPatch {
            listen: None,
            admin_listen: None,
            db_path: None,
            export_dir: None,
            log_path: None,
            log_level: None,
            token: None,
            admin_password_hash: None,
        }
    }
}

impl ConfigPatch {
    /// The patch that sets the admin password hash and nothing else.
    pub fn with_password_hash(hash: String) -> (r: Self)
        ensures
            r@ == (ConfigPatchView { admin_password_hash: Some(hash@), ..empty_patch_spec() }),
    {
        ConfigPatch { admin_password_hash: Some(hash), ..ConfigPatch::empty() }
    }

    /// The patch that sets the sync token and nothing else.
    pub fn with_sync_token(token: String) -> (r: Self)
        ensures
            r@ == (ConfigPatchView { token: Some(token@), ..empty_patch_spec() }),
    {
        ConfigPatch { token: Some(token), ..ConfigPatch::empty() }
    }

    /// The patch of the command-line `config set`: the given listeners (none
    /// given leaves them as they are), database path and sync token.
    pub fn for_config_set(listen: Vec<String>, db_path: Option<String>, token: Option<String>) -> (r:
        Self)
        ensures
            r@ == (ConfigPatchView {
                listen: optional_listen_spec(strs_view(listen@)),
                db_path: opt_view(db_path),
                token: opt_view(token),
                ..empty_patch_spec()
            }),
    {
        ConfigPatch {
            listen: to_optional_listen(listen),
            db_path,
            token,
            ..ConfigPatch::empty()
        }
    }
}

/// A listener list from the command line: `None` when none was given.
pub open spec fn optional_listen_spec(addresses: Seq<Seq<char>>) -> Option<Seq<Seq<char>>> {
    if addresses.len() == 0 {
        None
    } else {
        Some(addresses)
    }
}

/// The listener addresses given on the command line, or `None` when none was
/// given.
pub fn to_optional_listen(addresses: Vec<String>) -> (r: Option<Vec<String>>)
    ensures
        opt_strs_view(r) == optional_listen_spec(strs_view(addresses@)),
{
    if addresses.len() == 0 {
        None
    } else {
        Some(addresses)
    }
}

impl ConfigOverrides {
    /// The overrides given on the command line when starting the server.
    pub fn from_cli(listen: Vec<String>, db_path: Option<String>, token: Option<String>) -> (r: Self)
        ensures
            opt_strs_view(r.listen) == optional_listen_spec(strs_view(listen@)),
            opt_view(r.db_path) == opt_view(db_path),
            opt_view(r.token) == opt_view(token),
    {
        ConfigOverrides { listen: to_optional_listen(listen), db_path, token }
    }
}

impl Default for ConfigPatch {
    fn default() -> (r: Self)
        ensures
            r@ == empty_patch_spec(),
    {
        ConfigPatch::empty()
    }
}

/// The patch that changes nothing.
pub open spec fn empty_patch_spec() -> ConfigPatchView {
    ConfigPatchView {
        listen: None,
        admin_listen: None,
        db_path: None,
        export_dir: None,
        log_path: None,
        log_level: None,
        token: None,
        admin_password_hash: None,
    }
}

/// Whether `s` parses as a `SocketAddr` (an IPv4 or bracketed IPv6 address
/// with a port), as `str::parse::<SocketAddr>` decides.
pub uninterp spec fn spec_parses_socket_addr(s: Seq<char>) -> bool;

/// Calls `str::parse::<SocketAddr>` and reports whether it succeeded; the
/// answer is the named result. Per the documented syntax (`ip:port`, an IPv6
/// address in brackets), the four default listener addresses parse.
#[verifier::external_body]
fn is_socket_address(s: &str) -> (r: bool)
    ensures
        r == spec_parses_socket_addr(s@),
        (s@ == "0.0.0.0:8787"@ || s@ == "[::]:8787"@ || s@ == "127.0.0.1:8788"@ || s@ == "[::1]:8788"@)
            ==> r,
{
    s.parse::<core::net::SocketAddr>().is_ok()
}

/// The default sync listeners: all IPv4 and all IPv6 interfaces on port 8787.
pub open spec fn default_sync_listen_spec() -> Seq<Seq<char>> {
    seq!["0.0.0.0:8787"@, "[::]:8787"@]
}

/// The default admin listeners: the IPv4 and IPv6 loopback on port 8788.
pub open spec fn default_admin_listen_spec() -> Seq<Seq<char>> {
    seq!["127.0.0.1:8788"@, "[::1]:8788"@]
}

/// The default sync listeners, both of which parse as socket addresses.
pub fn default_sync_listen() -> (r: Vec<String>)
    ensures
        strs_view(r@) == default_sync_listen_spec(),
        spec_parses_socket_addr("0.0.0.0:8787"@),
        spec_parses_socket_addr("[::]:8787"@),
{
    let r = vec![string_of("0.0.0.0:8787"), string_of("[::]:8787")];
    is_socket_address(r[0].as_str());
    is_socket_address(r[1].as_str());
    assert(strs_view(r@) =~= default_sync_listen_spec());
    r
}

/// The default admin listeners, both of which parse as socket addresses.
pub fn default_admin_listen() -> (r: Vec<String>)
    ensures
        strs_view(r@) == default_admin_listen_spec(),
        spec_parses_socket_addr("127.0.0.1:8788"@),
        spec_parses_socket_addr("[::1]:8788"@),
{
    let r = vec![string_of("127.0.0.1:8788"), string_of("[::1]:8788")];
    is_socket_address(r[0].as_str());
    is_socket_address(r[1].as_str());
    assert(strs_view(r@) =~= default_admin_listen_spec());
    r
}

pub fn default_db_path() -> (r: String)
    ensures
        r@ == "data/floral-sync.sqlite3"@,
{
    string_of("data/floral-sync.sqlite3")
}

pub fn default_export_dir() -> (r: String)
    ensures
        r@ == "exports"@,
{
    string_of("exports")
}

pub fn default_log_path() -> (r: String)
    ensures
        r@ == "logs/floral-sync-server.log"@,
{
    string_of("logs/floral-sync-server.log")
}

pub fn default_log_level() -> (r: String)
    ensures
        r@ == "info"@,
{
    string_of("info")
}

/// A single-address sync listener on the default port of one IP stack only,
/// as written by versions that listened on one stack.
pub open spec fn is_legacy_single_stack_spec(v: Seq<Seq<char>>) -> bool {
    v.len() == 1 && (v[0] == "0.0.0.0:8787"@ || v[0] == "[::]:8787"@)
}

pub fn is_legacy_single_stack_default_sync_listen(v: &Vec<String>) -> (r: bool)
    ensures
        r == is_legacy_single_stack_spec(strs_view(v@)),
{
    if v.len() != 1 {
        return false;
    }
    let a = string_of("0.0.0.0:8787");
    let b = string_of("[::]:8787");
    v[0] == a || v[0] == b
}

/// The listener addresses seen so far when normalizing `listen` from the left:
/// trimmed, blank entries skipped, duplicates dropped, first occurrence kept;
/// `Err` carries the message for the first entry that is not a socket address.
pub open spec fn listen_fold(field: Seq<char>, listen: Seq<Seq<char>>) -> Result<
    Seq<Seq<char>>,
    Seq<char>,
>
    decreases listen.len(),
{
    if listen.len() == 0 {
        Ok(Seq::empty())
    } else {
        match listen_fold(field, listen.drop_last()) {
            Err(e) => Err(e),
            Ok(acc) => {
                let t = trim_spec(listen.last());
                if t.len() == 0 {
                    Ok(acc)
                } else if !spec_parses_socket_addr(t) {
                    Err(field + " entry must be a valid socket address: "@ + t)
                } else if acc.contains(t) {
                    Ok(acc)
                } else {
                    Ok(acc.push(t))
                }
            },
        }
    }
}

/// The normalized listener list, or the message of the error it is rejected with.
pub open spec fn normalize_listen_spec(field: Seq<char>, listen: Seq<Seq<char>>) -> Result<
    Seq<Seq<char>>,
    Seq<char>,
> {
    match listen_fold(field, listen) {
        Err(e) => Err(e),
        Ok(acc) => if acc.len() == 0 {
            Err(field + " must contain at least one address"@)
        } else {
            Ok(acc)
        },
    }
}

/// `r` is the executable form of the spec outcome `s`, with spec errors being
/// `ConfigError::Invalid` messages.
pub open spec fn list_result_is(r: Result<Vec<String>, ConfigError>, s: Result<Seq<Seq<char>>, Seq<char>>) -> bool {
    match r {
        Ok(v) => s == Ok::<Seq<Seq<char>>, Seq<char>>(strs_view(v@)),
        Err(ConfigError::Invalid(m)) => s == Err::<Seq<Seq<char>>, Seq<char>>(m@),
        Err(_) => false,
    }
}

/// `r` is the executable form of the spec outcome `s` for a single string.
pub open spec fn str_result_is(r: Result<String, ConfigError>, s: Result<Seq<char>, Seq<char>>) -> bool {
    match r {
        Ok(v) => s == Ok::<Seq<char>, Seq<char>>(v@),
        Err(ConfigError::Invalid(m)) => s == Err::<Seq<char>, Seq<char>>(m@),
        Err(_) => false,
    }
}

proof fn lemma_listen_fold_err_persists(field: Seq<char>, s: Seq<Seq<char>>, k: int)
    requires
        0 <= k <= s.len(),
        listen_fold(field, s.take(k)) is Err,
    ensures
        listen_fold(field, s) == listen_fold(field, s.take(k)),
    decreases s.len(),
{
    if k == s.len() {
        assert(s.take(k) =~= s);
    } else {
        assert(s.drop_last().take(k) =~= s.take(k));
        lemma_listen_fold_err_persists(field, s.drop_last(), k);
    }
}

proof fn lemma_strs_take_push(v: Seq<String>, i: int)
    requires
        0 <= i < v.len(),
    ensures
        strs_view(v.take(i + 1)).drop_last() == strs_view(v.take(i)),
        strs_view(v.take(i + 1)).last() == v[i]@,
        strs_view(v.take(i + 1)).len() > 0,
{
    assert(strs_view(v.take(i + 1)).drop_last() =~= strs_view(v.take(i)));
}

/// Trims each listener address, drops blank entries and duplicates (keeping
/// the first occurrence), and rejects an entry that is not a socket address
/// or a list that ends up empty.
pub fn normalize_listen_addresses(field_name: &str, listen: Vec<String>) -> (r: Result<
    Vec<String>,
    ConfigError,
>)
    ensures
        list_result_is(r, normalize_listen_spec(field_name@, strs_view(listen@))),
{
    let mut normalized: Vec<String> = Vec::new();
    assert(strs_view(listen@.take(0)) =~= Seq::<Seq<char>>::empty());
    assert(strs_view(normalized@) =~= Seq::<Seq<char>>::empty());
    for i in 0..listen.len()
        invariant
            listen_fold(field_name@, strs_view(listen@.take(i as int))) == Ok::<
                Seq<Seq<char>>,
                Seq<char>,
            >(strs_view(normalized@)),
    {
        proof {
            lemma_strs_take_push(listen@, i as int);
        }
        let trimmed = trim(listen[i].as_str());
        if !trimmed.as_str().is_empty() {
            if !is_socket_address(trimmed.as_str()) {
                let m = concat3(
                    field_name,
                    " entry must be a valid socket address: ",
                    trimmed.as_str(),
                );
                proof {
                    lemma_listen_fold_err_persists(field_name@, strs_view(listen@), i + 1);
                    assert(strs_view(listen@).take(i + 1) =~= strs_view(listen@.take(i + 1)));
                }
                return Err(ConfigError::Invalid(m));
            }
            if !contains_string(&normalized, &trimmed) {
                let ghost before = normalized@;
                normalized.push(trimmed);
                assert(strs_view(normalized@) =~= strs_view(before).push(trimmed@));
            }
        }
    }
    assert(listen@.take(listen@.len() as int) =~= listen@);
    if normalized.len() == 0 {
        return Err(ConfigError::Invalid(concat2(field_name, " must contain at least one address")));
    }
    Ok(normalized)
}

/// The outcome of patching one path field: `None` keeps `current`; an empty
/// path is rejected; any other path is resolved against the config file.
pub open spec fn patch_path_spec(
    config_path: Seq<char>,
    field: Seq<char>,
    patch: Option<Seq<char>>,
    current: Seq<char>,
) -> Result<Seq<char>, Seq<char>> {
    match patch {
        None => Ok(current),
        Some(p) => if p.len() == 0 {
            Err(field + " patch must not be empty"@)
        } else {
            Ok(resolve_path_spec(config_path, p))
        },
    }
}

/// The outcome of patching one trimmed text field: `None` keeps `current`; a
/// blank value is rejected under the name `field`.
pub open spec fn patch_text_spec(field: Seq<char>, patch: Option<Seq<char>>, current: Seq<char>) -> Result<
    Seq<char>,
    Seq<char>,
> {
    match patch {
        None => Ok(current),
        Some(p) => if trim_spec(p).len() == 0 {
            Err(field + " patch must not be empty"@)
        } else {
            Ok(trim_spec(p))
        },
    }
}

/// The outcome of patching a listener list: `None` keeps `current`.
pub open spec fn patch_listen_spec(
    field: Seq<char>,
    patch: Option<Seq<Seq<char>>>,
    current: Seq<Seq<char>>,
) -> Result<Seq<Seq<char>>, Seq<char>> {
    match patch {
        None => Ok(current),
        Some(l) => normalize_listen_spec(field, l),
    }
}

/// `c` with `p` applied, or the message of the first invalid field, checked
/// in the order sync listeners, admin listeners, database path, export
/// directory, log path, log level, sync token, admin password hash.
pub open spec fn apply_patch_spec(c: ServerConfigView, p: ConfigPatchView) -> Result<
    ServerConfigView,
    Seq<char>,
> {
    let sync = patch_listen_spec("sync_listen"@, p.listen, c.sync_listen);
    let admin = patch_listen_spec("admin_listen"@, p.admin_listen, c.admin_listen);
    let db = patch_path_spec(c.config_path, "db_path"@, p.db_path, c.db_path);
    let export = patch_path_spec(c.config_path, "export_dir"@, p.export_dir, c.export_dir);
    let log = patch_path_spec(c.config_path, "log_path"@, p.log_path, c.log_path);
    let level = patch_text_spec("log_level"@, p.log_level, c.log_level);
    let token = patch_text_spec("sync_token"@, p.token, c.sync_token);
    let hash = match p.admin_password_hash {
        None => Ok(c.admin_password_hash),
        Some(h) => if trim_spec(h).len() == 0 {
            Err("admin_password_hash patch must not be empty"@)
        } else {
            Ok(Some(trim_spec(h)))
        },
    };
    if sync is Err {
        Err(sync->Err_0)
    } else if admin is Err {
        Err(admin->Err_0)
    } else if db is Err {
        Err(db->Err_0)
    } else if export is Err {
        Err(export->Err_0)
    } else if log is Err {
        Err(log->Err_0)
    } else if level is Err {
        Err(level->Err_0)
    } else if token is Err {
        Err(token->Err_0)
    } else if hash is Err {
        Err(hash->Err_0)
    } else {
        Ok(
            ServerConfigView {
                config_path: c.config_path,
                sync_listen: sync->Ok_0,
                admin_listen: admin->Ok_0,
                db_path: db->Ok_0,
                export_dir: export->Ok_0,
                log_path: log->Ok_0,
                log_level: level->Ok_0,
                sync_token: token->Ok_0,
                admin_password_hash: hash->Ok_0,
                admin_session_secret: c.admin_session_secret,
            },
        )
    }
}

/// `r` is the executable form of the spec outcome `s` for a whole configuration.
pub open spec fn config_result_is(r: Result<ServerConfig, ConfigError>, s: Result<ServerConfigView, Seq<char>>) -> bool {
    match r {
        Ok(c) => s == Ok::<ServerConfigView, Seq<char>>(c@),
        Err(ConfigError::Invalid(m)) => s == Err::<ServerConfigView, Seq<char>>(m@),
        Err(_) => false,
    }
}

/// Resolves a patched path, rejecting an empty one.
fn normalize_patch_path(config_path: &str, field_name: &str, path: &str) -> (r: Result<
    String,
    ConfigError,
>)
    ensures
        str_result_is(r, patch_path_spec(config_path@, field_name@, Some(path@), config_path@)),
{
    if path.is_empty() {
        return Err(ConfigError::Invalid(concat2(field_name, " patch must not be empty")));
    }
    Ok(resolve_path_from_config(config_path, path))
}

/// Applies `patch` to `current`, validating every patched field; untouched
/// fields keep their values and the config path and session secret never change.
pub fn apply_config_patch(current: &ServerConfig, patch: &ConfigPatch) -> (r: Result<
    ServerConfig,
    ConfigError,
>)
    ensures
        config_result_is(r, apply_patch_spec(current@, patch@)),
{
    let mut updated = current.clone_config();
    if let Some(listen) = &patch.listen {
        updated.sync_listen = normalize_listen_addresses("sync_listen", clone_strings(listen))?;
    }
    if let Some(admin_listen) = &patch.admin_listen {
        updated.admin_listen = normalize_listen_addresses("admin_listen", clone_strings(admin_listen))?;
    }
    if let Some(db_path) = &patch.db_path {
        updated.db_path = normalize_patch_path(current.config_path.as_str(), "db_path", db_path.as_str())?;
    }
    if let Some(export_dir) = &patch.export_dir {
        updated.export_dir = normalize_patch_path(current.config_path.as_str(), "export_dir", export_dir.as_str())?;
    }
    if let Some(log_path) = &patch.log_path {
        updated.log_path = normalize_patch_path(current.config_path.as_str(), "log_path", log_path.as_str())?;
    }
    if let Some(log_level) = &patch.log_level {
        let trimmed = trim(log_level.as_str());
        if trimmed.as_str().is_empty() {
            return Err(ConfigError::Invalid(concat2("log_level", " patch must not be empty")));
        }
        updated.log_level = trimmed;
    }
    if let Some(token) = &patch.token {
        let trimmed = trim(token.as_str());
        if trimmed.as_str().is_empty() {
            return Err(ConfigError::Invalid(concat2("sync_token", " patch must not be empty")));
        }
        updated.sync_token = trimmed;
    }
    if let Some(admin_password_hash) = &patch.admin_password_hash {
        let trimmed = trim(admin_password_hash.as_str());
        if trimmed.as_str().is_empty() {
            return Err(ConfigError::Invalid(string_of("admin_password_hash patch must not be empty")));
        }
        updated.admin_password_hash = Some(trimmed);
    }
    Ok(updated)
}

impl ServerConfig {
    /// A copy of this configuration.
    pub fn clone_config(&self) -> (r: ServerConfig)
        ensures
            r@ == self@,
    {
        ServerConfig {
            config_path: self.config_path.clone(),
            sync_listen: clone_strings(&self.sync_listen),
            admin_listen: clone_strings(&self.admin_listen),
            db_path: self.db_path.clone(),
            export_dir: self.export_dir.clone(),
            log_path: self.log_path.clone(),
            log_level: self.log_level.clone(),
            sync_token: self.sync_token.clone(),
            admin_password_hash: clone_opt_string(&self.admin_password_hash),
            admin_session_secret: self.admin_session_secret.clone(),
        }
    }
}

/// The sync listener list that normalization starts from: the current one, or
/// when it is empty the legacy `listen` list, the legacy `bind` address, or
/// the defaults, in that order.
pub open spec fn base_sync_listen(s: StoredConfigView) -> Seq<Seq<char>> {
    if s.sync_listen.len() == 0 {
        if s.listen.len() > 0 {
            s.listen
        } else if s.bind is Some {
            seq![s.bind->Some_0]
        } else {
            default_sync_listen_spec()
        }
    } else {
        s.sync_listen
    }
}

/// The admin listener list that normalization starts from.
pub open spec fn base_admin_listen(s: StoredConfigView) -> Seq<Seq<char>> {
    if s.admin_listen.len() == 0 {
        default_admin_listen_spec()
    } else {
        s.admin_listen
    }
}

/// The sync listeners after normalization: the normalized list, widened to
/// both stacks when it is the legacy single-stack default.
pub open spec fn expected_sync_listen(s: StoredConfigView) -> Seq<Seq<char>> {
    let n = normalize_listen_spec("sync_listen"@, base_sync_listen(s))->Ok_0;
    if is_legacy_single_stack_spec(n) {
        default_sync_listen_spec()
    } else {
        n
    }
}

/// The message with which normalization rejects `s`, if it does: an invalid
/// sync listener, then (where a legacy single-stack entry is widened) an
/// invalid default sync listener, then an invalid admin listener.
pub open spec fn normalize_stored_error(s: StoredConfigView) -> Option<Seq<char>> {
    let defaults = normalize_listen_spec("sync_listen"@, default_sync_listen_spec());
    match normalize_listen_spec("sync_listen"@, base_sync_listen(s)) {
        Err(e) => Some(e),
        Ok(n) => if is_legacy_single_stack_spec(n) && defaults is Err {
            Some(defaults->Err_0)
        } else {
            match normalize_listen_spec("admin_listen"@, base_admin_listen(s)) {
                Err(e) => Some(e),
                Ok(_) => None,
            }
        },
    }
}

/// The value of `v`, or `d` when `v` is blank.
pub open spec fn non_blank_or(v: Seq<char>, d: Seq<char>) -> Seq<char> {
    if is_blank(v) {
        d
    } else {
        v
    }
}

/// A token as [`generate_token`] produces it: a hyphenated lower-case UUID.
pub open spec fn is_generated_token(s: Seq<char>) -> bool {
    &&& s.len() == 36
    &&& forall|i: int|
        0 <= i < 36 ==> ('0' <= #[trigger] s[i] && s[i] <= '9') || ('a' <= s[i] && s[i] <= 'f')
            || s[i] == '-'
}

/// `new` is what normalization makes of `old` (the fresh tokens it may draw
/// being any generated tokens).
pub open spec fn stored_normalized_from(old: StoredConfigView, new: StoredConfigView) -> bool {
    &&& new.sync_listen == expected_sync_listen(old)
    &&& new.listen.len() == 0
    &&& new.bind is None
    &&& new.admin_listen == normalize_listen_spec("admin_listen"@, base_admin_listen(old))->Ok_0
    &&& new.db_path == non_blank_or(old.db_path, "data/floral-sync.sqlite3"@)
    &&& new.export_dir == non_blank_or(old.export_dir, "exports"@)
    &&& new.log_path == non_blank_or(old.log_path, "logs/floral-sync-server.log"@)
    &&& new.log_level == (if is_blank(old.log_level) {
        "info"@
    } else {
        trim_spec(old.log_level)
    })
    &&& if !is_blank(old.sync_token) {
        new.sync_token == trim_spec(old.sync_token)
    } else if !is_blank(old.token) {
        new.sync_token == trim_spec(old.token)
    } else {
        is_generated_token(new.sync_token)
    }
    &&& new.token.len() == 0
    &&& new.admin_password_hash == match old.admin_password_hash {
        None => None,
        Some(h) => if is_blank(h) {
            None
        } else {
            Some(trim_spec(h))
        },
    }
    &&& if is_blank(old.admin_session_secret) {
        is_generated_token(new.admin_session_secret)
    } else {
        new.admin_session_secret == trim_spec(old.admin_session_secret)
    }
}

/// Generates a fresh random token (a version 4 UUID, hyphenated), by calling
/// `uuid::Uuid::new_v4` and formatting it. Its value is random; the contract
/// states only the textual shape of every such UUID.
#[verifier::external_body]
pub fn generate_token() -> (r: String)
    ensures
        is_generated_token(r@),
{
    uuid::Uuid::new_v4().to_string()
}

pub proof fn lemma_generated_token_not_blank(s: Seq<char>)
    requires
        is_generated_token(s),
    ensures
        !is_blank(s),
        trim_spec(s) == s,
{
    assert forall|i: int| 0 <= i < s.len() implies !is_ws(#[trigger] s[i]) by {
        assert(('0' <= s[i] && s[i] <= '9') || ('a' <= s[i] && s[i] <= 'f') || s[i] == '-');
    }
    lemma_not_blank_if_no_ws(s);
}

proof fn lemma_default_sync_listen_shape()
    ensures
        trim_spec("0.0.0.0:8787"@) == "0.0.0.0:8787"@,
        trim_spec("[::]:8787"@) == "[::]:8787"@,
        "0.0.0.0:8787"@ != "[::]:8787"@,
        default_sync_listen_spec().len() == 2,
        "0.0.0.0:8787"@.len() > 0,
        "[::]:8787"@.len() > 0,
{
    reveal_strlit("0.0.0.0:8787");
    reveal_strlit("[::]:8787");
    lemma_trim_fixed("0.0.0.0:8787"@);
    lemma_trim_fixed("[::]:8787"@);
    assert("0.0.0.0:8787"@[0] != "[::]:8787"@[0]);
}

/// A list of two distinct, trimmed, non-empty addresses that both parse
/// normalizes to itself.
proof fn lemma_address_pair_normalizes(field: Seq<char>, a: Seq<char>, b: Seq<char>)
    requires
        trim_spec(a) == a,
        trim_spec(b) == b,
        a.len() > 0,
        b.len() > 0,
        a != b,
        spec_parses_socket_addr(a),
        spec_parses_socket_addr(b),
    ensures
        normalize_listen_spec(field, seq![a, b]) == Ok::<Seq<Seq<char>>, Seq<char>>(seq![a, b]),
{
    let d = seq![a, b];
    assert(d.drop_last().drop_last() =~= Seq::<Seq<char>>::empty());
    assert(d.drop_last() =~= seq![a]);
    assert(d.drop_last().last() == a);
    assert(d.last() == b);
    assert(listen_fold(field, d.drop_last().drop_last()) == Ok::<Seq<Seq<char>>, Seq<char>>(Seq::empty()));
    assert(Seq::<Seq<char>>::empty().push(a) =~= seq![a]);
    assert(listen_fold(field, d.drop_last()) == Ok::<Seq<Seq<char>>, Seq<char>>(seq![a]));
    assert(!seq![a].contains(b)) by {
        assert(seq![a][0] != b);
    }
    assert(seq![a].push(b) =~= d);
}

/// Where the four default addresses parse (as `default_sync_listen` and
/// `default_admin_listen` establish), both default lists normalize to themselves.
proof fn lemma_default_listeners_normalize()
    requires
        spec_parses_socket_addr("0.0.0.0:8787"@),
        spec_parses_socket_addr("[::]:8787"@),
        spec_parses_socket_addr("127.0.0.1:8788"@),
        spec_parses_socket_addr("[::1]:8788"@),
    ensures
        normalize_listen_spec("sync_listen"@, default_sync_listen_spec()) == Ok::<
            Seq<Seq<char>>,
            Seq<char>,
        >(default_sync_listen_spec()),
        normalize_listen_spec("admin_listen"@, default_admin_listen_spec()) == Ok::<
            Seq<Seq<char>>,
            Seq<char>,
        >(default_admin_listen_spec()),
{
    lemma_default_sync_listen_shape();
    reveal_strlit("127.0.0.1:8788");
    reveal_strlit("[::1]:8788");
    lemma_trim_fixed("127.0.0.1:8788"@);
    lemma_trim_fixed("[::1]:8788"@);
    assert("127.0.0.1:8788"@[0] != "[::1]:8788"@[0]);
    lemma_address_pair_normalizes("sync_listen"@, "0.0.0.0:8787"@, "[::]:8787"@);
    lemma_address_pair_normalizes("admin_listen"@, "127.0.0.1:8788"@, "[::1]:8788"@);
}

/// Normalizing the default sync listeners yields them unchanged or fails.
proof fn lemma_default_sync_listen_normalizes()
    ensures
        normalize_listen_spec("sync_listen"@, default_sync_listen_spec()) is Ok ==> normalize_listen_spec(
            "sync_listen"@,
            default_sync_listen_spec(),
        )->Ok_0 == default_sync_listen_spec(),
{
    lemma_default_sync_listen_shape();
    let d = default_sync_listen_spec();
    assert(d.drop_last().drop_last() =~= Seq::<Seq<char>>::empty());
    assert(d.drop_last() =~= seq!["0.0.0.0:8787"@]);
    assert(d.drop_last().last() == "0.0.0.0:8787"@);
    assert(d.last() == "[::]:8787"@);
    let f = listen_fold("sync_listen"@, d.drop_last());
    assert(listen_fold("sync_listen"@, d.drop_last().drop_last()) == Ok::<Seq<Seq<char>>, Seq<char>>(Seq::empty()));
    if f is Ok {
        assert(f->Ok_0 =~= seq!["0.0.0.0:8787"@]);
        assert(!f->Ok_0.contains("[::]:8787"@)) by {
            assert(f->Ok_0[0] != "[::]:8787"@);
        }
        let g = listen_fold("sync_listen"@, d);
        if g is Ok {
            assert(g->Ok_0 =~= d);
        }
    }
}

/// Everything but the listener fields of `a` and `b` agrees.
pub open spec fn same_but_listeners(a: StoredConfigView, b: StoredConfigView) -> bool {
    &&& a.db_path == b.db_path
    &&& a.export_dir == b.export_dir
    &&& a.log_path == b.log_path
    &&& a.log_level == b.log_level
    &&& a.sync_token == b.sync_token
    &&& a.token == b.token
    &&& a.admin_password_hash == b.admin_password_hash
    &&& a.admin_session_secret == b.admin_session_secret
}

/// Migrates and normalizes the listener fields (step one of
/// [`normalize_stored_config`]).
fn normalize_stored_listeners(stored: &mut StoredConfig) -> (r: Result<bool, ConfigError>)
    ensures
        same_but_listeners(old(stored)@, final(stored)@),
        match r {
            Ok(changed) => {
                &&& normalize_stored_error(old(stored)@) is None
                &&& final(stored)@.sync_listen == expected_sync_listen(old(stored)@)
                &&& final(stored)@.listen.len() == 0
                &&& final(stored)@.bind is None
                &&& final(stored)@.admin_listen == normalize_listen_spec(
                    "admin_listen"@,
                    base_admin_listen(old(stored)@),
                )->Ok_0
                &&& changed == (final(stored)@.sync_listen != old(stored)@.sync_listen
                    || final(stored)@.listen != old(stored)@.listen || final(stored)@.bind != old(
                    stored,
                )@.bind || final(stored)@.admin_listen != old(stored)@.admin_listen)
            },
            Err(ConfigError::Invalid(m)) => normalize_stored_error(old(stored)@) == Some(m@),
            Err(_) => false,
        },
{
    let ghost o = stored@;
    let mut changed = false;
    if stored.sync_listen.len() == 0 {
        if stored.listen.len() > 0 {
            stored.sync_listen = clone_strings(&stored.listen);
        } else if let Some(bind) = &stored.bind {
            let b = bind.clone();
            stored.sync_listen = vec![b];
            assert(strs_view(stored.sync_listen@) =~= seq![o.bind->Some_0]);
        } else {
            stored.sync_listen = default_sync_listen();
        }
        changed = true;
    }
    assert(stored@.sync_listen == base_sync_listen(o));
    if stored.listen.len() > 0 {
        stored.listen = Vec::new();
        changed = true;
    }
    assert(strs_view(stored.listen@) =~= Seq::<Seq<char>>::empty());
    if stored.bind.is_some() {
        stored.bind = None;
        changed = true;
    }
    let normalized = normalize_listen_addresses("sync_listen", clone_strings(&stored.sync_listen))?;
    let ghost n = strs_view(normalized@);
    if !strings_eq(&normalized, &stored.sync_listen) {
        stored.sync_listen = normalized;
        changed = true;
    }
    assert(stored@.sync_listen == n);
    if is_legacy_single_stack_default_sync_listen(&stored.sync_listen) {
        stored.sync_listen = normalize_listen_addresses("sync_listen", default_sync_listen())?;
        changed = true;
        proof {
            lemma_default_sync_listen_normalizes();
            if o.sync_listen == default_sync_listen_spec() {
                lemma_default_sync_listen_shape();
            }
        }
    }
    let ghost sync_changed = changed;
    assert(sync_changed == (stored@.sync_listen != o.sync_listen || o.listen.len() > 0 || o.bind is Some));
    let ghost admin_before = stored@.admin_listen;
    if stored.admin_listen.len() == 0 {
        stored.admin_listen = default_admin_listen();
        changed = true;
    }
    let na = normalize_listen_addresses("admin_listen", clone_strings(&stored.admin_listen))?;
    if !strings_eq(&na, &stored.admin_listen) {
        stored.admin_listen = na;
        changed = true;
    }
    proof {
        if o.admin_listen.len() == 0 {
            assert(stored@.admin_listen.len() > 0);
        }
    }
    Ok(changed)
}

proof fn lemma_default_literals_not_blank()
    ensures
        !is_blank("data/floral-sync.sqlite3"@),
        !is_blank("exports"@),
        !is_blank("logs/floral-sync-server.log"@),
        !is_blank("info"@),
        trim_spec("info"@) == "info"@,
{
    reveal_strlit("data/floral-sync.sqlite3");
    reveal_strlit("exports");
    reveal_strlit("logs/floral-sync-server.log");
    reveal_strlit("info");
    lemma_trim_fixed("data/floral-sync.sqlite3"@);
    lemma_trim_fixed("exports"@);
    lemma_trim_fixed("logs/floral-sync-server.log"@);
    lemma_trim_fixed("info"@);
}

/// Everything but the path and log-level fields of `a` and `b` agrees.
pub open spec fn same_but_paths(a: StoredConfigView, b: StoredConfigView) -> bool {
    &&& a.sync_listen == b.sync_listen
    &&& a.listen == b.listen
    &&& a.bind == b.bind
    &&& a.admin_listen == b.admin_listen
    &&& a.sync_token == b.sync_token
    &&& a.token == b.token
    &&& a.admin_password_hash == b.admin_password_hash
    &&& a.admin_session_secret == b.admin_session_secret
}

/// Fills in blank paths and the log level (step two of [`normalize_stored_config`]).
fn normalize_stored_paths(stored: &mut StoredConfig) -> (changed: bool)
    ensures
        same_but_paths(old(stored)@, final(stored)@),
        final(stored)@.db_path == non_blank_or(old(stored)@.db_path, "data/floral-sync.sqlite3"@),
        final(stored)@.export_dir == non_blank_or(old(stored)@.export_dir, "exports"@),
        final(stored)@.log_path == non_blank_or(old(stored)@.log_path, "logs/floral-sync-server.log"@),
        final(stored)@.log_level == (if is_blank(old(stored)@.log_level) {
            "info"@
        } else {
            trim_spec(old(stored)@.log_level)
        }),
        changed == (final(stored)@.db_path != old(stored)@.db_path || final(stored)@.export_dir
            != old(stored)@.export_dir || final(stored)@.log_path != old(stored)@.log_path
            || final(stored)@.log_level != old(stored)@.log_level),
{
    proof {
        lemma_default_literals_not_blank();
    }
    let mut changed = false;
    if is_blank_str(stored.db_path.as_str()) {
        stored.db_path = default_db_path();
        changed = true;
    }
    if is_blank_str(stored.export_dir.as_str()) {
        stored.export_dir = default_export_dir();
        changed = true;
    }
    if is_blank_str(stored.log_path.as_str()) {
        stored.log_path = default_log_path();
        changed = true;
    }
    let level = trim(stored.log_level.as_str());
    if level.as_str().is_empty() {
        stored.log_level = default_log_level();
        changed = true;
    } else if level != stored.log_level {
        stored.log_level = level;
        changed = true;
    }
    changed
}

/// Everything but the credential fields of `a` and `b` agrees.
pub open spec fn same_but_credentials(a: StoredConfigView, b: StoredConfigView) -> bool {
    &&& a.sync_listen == b.sync_listen
    &&& a.listen == b.listen
    &&& a.bind == b.bind
    &&& a.admin_listen == b.admin_listen
    &&& a.db_path == b.db_path
    &&& a.export_dir == b.export_dir
    &&& a.log_path == b.log_path
    &&& a.log_level == b.log_level
}

/// Trims the credentials, migrates the legacy `token` field and generates
/// missing secrets (step three of [`normalize_stored_config`]).
fn normalize_stored_credentials(stored: &mut StoredConfig) -> (changed: bool)
    ensures
        same_but_credentials(old(stored)@, final(stored)@),
        if !is_blank(old(stored)@.sync_token) {
            final(stored)@.sync_token == trim_spec(old(stored)@.sync_token)
        } else if !is_blank(old(stored)@.token) {
            final(stored)@.sync_token == trim_spec(old(stored)@.token)
        } else {
            is_generated_token(final(stored)@.sync_token)
        },
        final(stored)@.token.len() == 0,
        final(stored)@.admin_password_hash == match old(stored)@.admin_password_hash {
            None => None,
            Some(h) => if is_blank(h) {
                None
            } else {
                Some(trim_spec(h))
            },
        },
        if is_blank(old(stored)@.admin_session_secret) {
            is_generated_token(final(stored)@.admin_session_secret)
        } else {
            final(stored)@.admin_session_secret == trim_spec(old(stored)@.admin_session_secret)
        },
        changed == (final(stored)@.sync_token != old(stored)@.sync_token || final(stored)@.token
            != old(stored)@.token || final(stored)@.admin_password_hash != old(
            stored,
        )@.admin_password_hash || final(stored)@.admin_session_secret != old(
            stored,
        )@.admin_session_secret),
{
    let ghost o = stored@;
    let mut changed = false;
    if is_blank_str(stored.sync_token.as_str()) {
        if !is_blank_str(stored.token.as_str()) {
            stored.sync_token = trim(stored.token.as_str());
            proof {
                lemma_trim_shape(o.token);
            }
        } else {
            stored.sync_token = generate_token();
            proof {
                lemma_generated_token_not_blank(stored.sync_token@);
            }
        }
        changed = true;
    } else {
        let t = trim(stored.sync_token.as_str());
        if t != stored.sync_token {
            stored.sync_token = t;
            changed = true;
        }
    }
    if !stored.token.as_str().is_empty() {
        stored.token = String::new();
        changed = true;
    }
    let ghost hash_before = stored@.admin_password_hash;
    let new_hash = match &stored.admin_password_hash {
        None => None,
        Some(h) => {
            let t = trim(h.as_str());
            if t.as_str().is_empty() {
                changed = true;
                None
            } else if t != *h {
                changed = true;
                Some(t)
            } else {
                Some(t)
            }
        },
    };
    stored.admin_password_hash = new_hash;
    let secret = trim(stored.admin_session_secret.as_str());
    if secret.as_str().is_empty() {
        stored.admin_session_secret = generate_token();
        proof {
            lemma_generated_token_not_blank(stored.admin_session_secret@);
        }
        changed = true;
    } else if secret != stored.admin_session_secret {
        stored.admin_session_secret = secret;
        changed = true;
    }
    changed
}

/// Migrates legacy fields and fills in defaults in a stored configuration, and
/// reports whether anything changed (so that the file needs rewriting).
///
/// On success the result is [`stored_normalized_from`] the old value and the
/// returned flag is whether the value changed; it fails exactly when the sync
/// or admin listener list cannot be normalized ([`normalize_stored_error`]).
pub fn normalize_stored_config(stored: &mut StoredConfig) -> (r: Result<bool, ConfigError>)
    ensures
        match r {
            Ok(changed) => {
                &&& normalize_stored_error(old(stored)@) is None
                &&& stored_normalized_from(old(stored)@, final(stored)@)
                &&& changed == (final(stored)@ != old(stored)@)
            },
            Err(ConfigError::Invalid(m)) => normalize_stored_error(old(stored)@) == Some(m@),
            Err(_) => false,
        },
{
    let ghost o = stored@;
    let listeners_changed = normalize_stored_listeners(stored)?;
    let ghost a = stored@;
    let paths_changed = normalize_stored_paths(stored);
    let ghost b = stored@;
    let credentials_changed = normalize_stored_credentials(stored);
    let changed = listeners_changed || paths_changed || credentials_changed;
    proof {
        lemma_default_literals_not_blank();
        lemma_trim_shape(o.log_level);
        lemma_trim_shape(o.sync_token);
        lemma_trim_shape(o.token);
        lemma_trim_shape(o.admin_session_secret);
    }
    if is_blank_str(stored.db_path.as_str()) {
        return Err(ConfigError::Invalid(string_of("db_path must not be empty")));
    }
    if is_blank_str(stored.export_dir.as_str()) {
        return Err(ConfigError::Invalid(string_of("export_dir must not be empty")));
    }
    if is_blank_str(stored.log_path.as_str()) {
        return Err(ConfigError::Invalid(string_of("log_path must not be empty")));
    }
    if is_blank_str(stored.log_level.as_str()) {
        return Err(ConfigError::Invalid(string_of("log_level must not be empty")));
    }
    if is_blank_str(stored.sync_token.as_str()) {
        return Err(ConfigError::Invalid(string_of("sync_token must not be empty")));
    }
    if is_blank_str(stored.admin_session_secret.as_str()) {
        return Err(ConfigError::Invalid(string_of("admin_session_secret must not be empty")));
    }
    assert(changed == (stored@ != o));
    Ok(changed)
}

impl StoredConfig {
    /// The configuration written when no file exists yet: default listeners and
    /// paths, log level `info`, and freshly generated sync token and session secret.
    pub fn default_config() -> (r: StoredConfig)
        ensures
            r@.sync_listen == default_sync_listen_spec(),
            r@.listen.len() == 0,
            r@.bind is None,
            r@.db_path == "data/floral-sync.sqlite3"@,
            r@.export_dir == "exports"@,
            r@.log_path == "logs/floral-sync-server.log"@,
            r@.log_level == "info"@,
            is_generated_token(r@.sync_token),
            r@.token.len() == 0,
            r@.admin_listen == default_admin_listen_spec(),
            r@.admin_password_hash is None,
            is_generated_token(r@.admin_session_secret),
            normalize_stored_error(r@) is None,
    {
        let r = StoredConfig {
            sync_listen: default_sync_listen(),
            listen: Vec::new(),
            bind: None,
            db_path: default_db_path(),
            export_dir: default_export_dir(),
            log_path: default_log_path(),
            log_level: default_log_level(),
            sync_token: generate_token(),
            token: String::new(),
            admin_listen: default_admin_listen(),
            admin_password_hash: None,
            admin_session_secret: generate_token(),
        };
        assert(strs_view(r.listen@) =~= Seq::<Seq<char>>::empty());
        proof {
            lemma_default_listeners_normalize();
            lemma_default_sync_listen_shape();
        }
        r
    }

    /// The stored form of a resolved configuration: paths below the config
    /// file's directory are written relative to it, legacy fields are empty.
    pub fn from_server_config(config: &ServerConfig) -> (r: StoredConfig)
        ensures
            r@ == stored_from_server_spec(config@),
    {
        let r = StoredConfig {
            sync_listen: clone_strings(&config.sync_listen),
            listen: Vec::new(),
            bind: None,
            db_path: path_for_storage(config.config_path.as_str(), config.db_path.as_str()),
            export_dir: path_for_storage(config.config_path.as_str(), config.export_dir.as_str()),
            log_path: path_for_storage(config.config_path.as_str(), config.log_path.as_str()),
            log_level: config.log_level.clone(),
            sync_token: config.sync_token.clone(),
            token: String::new(),
            admin_listen: clone_strings(&config.admin_listen),
            admin_password_hash: clone_opt_string(&config.admin_password_hash),
            admin_session_secret: config.admin_session_secret.clone(),
        };
        assert(strs_view(r.listen@) =~= Seq::<Seq<char>>::empty());
        r
    }
}

impl Default for StoredConfig {
    fn default() -> (r: StoredConfig)
        ensures
            r@.sync_listen == default_sync_listen_spec(),
            r@.admin_listen == default_admin_listen_spec(),
            is_generated_token(r@.sync_token),
            is_generated_token(r@.admin_session_secret),
    {
        StoredConfig::default_config()
    }
}

/// The stored form of the resolved configuration `c`.
pub open spec fn stored_from_server_spec(c: ServerConfigView) -> StoredConfigView {
    StoredConfigView {
        sync_listen: c.sync_listen,
        listen: Seq::empty(),
        bind: None,
        db_path: storage_path_spec(c.config_path, c.db_path),
        export_dir: storage_path_spec(c.config_path, c.export_dir),
        log_path: storage_path_spec(c.config_path, c.log_path),
        log_level: c.log_level,
        sync_token: c.sync_token,
        token: Seq::empty(),
        admin_listen: c.admin_listen,
        admin_password_hash: c.admin_password_hash,
        admin_session_secret: c.admin_session_secret,
    }
}

/// The configuration resolved from the (normalized) stored configuration `s`
/// of the file at `path`, with the command-line overrides `ov` applied, or the
/// message of the error: invalid sync listeners, then an empty sync token,
/// then invalid admin listeners.
pub open spec fn config_from_stored_spec(
    path: Seq<char>,
    s: StoredConfigView,
    ov: ConfigOverridesView,
) -> Result<ServerConfigView, Seq<char>> {
    let sync = normalize_listen_spec(
        "sync_listen"@,
        match ov.listen {
            Some(l) => l,
            None => s.sync_listen,
        },
    );
    let token = trim_spec(
        match ov.token {
            Some(t) => t,
            None => s.sync_token,
        },
    );
    let db = match ov.db_path {
        Some(p) => p,
        None => s.db_path,
    };
    let admin = normalize_listen_spec("admin_listen"@, s.admin_listen);
    if sync is Err {
        Err(sync->Err_0)
    } else if token.len() == 0 {
        Err("sync_token must not be empty"@)
    } else if admin is Err {
        Err(admin->Err_0)
    } else {
        Ok(
            ServerConfigView {
                config_path: path,
                sync_listen: sync->Ok_0,
                admin_listen: admin->Ok_0,
                db_path: resolve_path_spec(path, db),
                export_dir: resolve_path_spec(path, s.export_dir),
                log_path: resolve_path_spec(path, s.log_path),
                log_level: trim_spec(s.log_level),
                sync_token: token,
                admin_password_hash: s.admin_password_hash,
                admin_session_secret: trim_spec(s.admin_session_secret),
            },
        )
    }
}

/// Resolves the server configuration from the stored configuration of the
/// file at `config_path` and the command-line overrides; relative paths are
/// resolved against the config file's directory.
pub fn server_config_from_stored(
    config_path: &str,
    stored: &StoredConfig,
    overrides: &ConfigOverrides,
) -> (r: Result<ServerConfig, ConfigError>)
    ensures
        config_result_is(r, config_from_stored_spec(config_path@, stored@, overrides@)),
{
    let sync_source = match &overrides.listen {
        Some(listen) => clone_strings(listen),
        None => clone_strings(&stored.sync_listen),
    };
    let sync_listen = normalize_listen_addresses("sync_listen", sync_source)?;
    let sync_token = match &overrides.token {
        Some(token) => trim(token.as_str()),
        None => trim(stored.sync_token.as_str()),
    };
    if sync_token.as_str().is_empty() {
        return Err(ConfigError::Invalid(string_of("sync_token must not be empty")));
    }
    let db_path = match &overrides.db_path {
        Some(path) => resolve_path_from_config(config_path, path.as_str()),
        None => resolve_path_from_config(config_path, stored.db_path.as_str()),
    };
    let admin_listen = normalize_listen_addresses("admin_listen", clone_strings(&stored.admin_listen))?;
    Ok(
        ServerConfig {
            config_path: string_of(config_path),
            sync_listen,
            admin_listen,
            db_path,
            export_dir: resolve_path_from_config(config_path, stored.export_dir.as_str()),
            log_path: resolve_path_from_config(config_path, stored.log_path.as_str()),
            log_level: trim(stored.log_level.as_str()),
            sync_token,
            admin_password_hash: clone_opt_string(&stored.admin_password_hash),
            admin_session_secret: trim(stored.admin_session_secret.as_str()),
        },
    )
}

/// What an operation on the configuration file hands back: the stored
/// configurations to write to the file, in order, and the operation's result.
/// The application writes them and, where a write fails, returns that
/// failure in place of the result.
pub struct ConfigFileUpdate<T> {
    pub writes: Vec<StoredConfig>,
    pub result: Result<T, ConfigError>,
}

/// The views of the stored configurations in `s`.
pub open spec fn stored_views(s: Seq<StoredConfig>) -> Seq<StoredConfigView> {
    s.map_values(|c: StoredConfig| c@)
}

/// The view of what a file read gave (`None` for a missing file).
pub open spec fn read_view(read: Option<StoredConfig>) -> Option<StoredConfigView> {
    match read {
        Some(s) => Some(s@),
        None => None,
    }
}

/// The stored configuration that a missing file is created with: default
/// listeners and paths, log level `info`, and freshly generated sync token
/// and session secret.
pub open spec fn is_default_stored(d: StoredConfigView) -> bool {
    &&& d.sync_listen == default_sync_listen_spec()
    &&& d.listen.len() == 0
    &&& d.bind is None
    &&& d.db_path == "data/floral-sync.sqlite3"@
    &&& d.export_dir == "exports"@
    &&& d.log_path == "logs/floral-sync-server.log"@
    &&& d.log_level == "info"@
    &&& is_generated_token(d.sync_token)
    &&& d.token.len() == 0
    &&& d.admin_listen == default_admin_listen_spec()
    &&& d.admin_password_hash is None
    &&& is_generated_token(d.admin_session_secret)
}

/// Loading the file's contents `read` (`None` for a missing file) gives the
/// stored configuration `n` and writes `w`: `n` is the normalized form of
/// what was read, or of the default configuration for a missing file, and it
/// is written exactly when the file was missing or normalization changed it.
pub open spec fn load_outcome(read: Option<StoredConfigView>, n: StoredConfigView, w: Seq<
    StoredConfigView,
>) -> bool {
    match read {
        Some(raw) => {
            &&& normalize_stored_error(raw) is None
            &&& stored_normalized_from(raw, n)
            &&& w == if n == raw {
                Seq::<StoredConfigView>::empty()
            } else {
                seq![n]
            }
        },
        None => {
            &&& w == seq![n]
            &&& exists|d: StoredConfigView|
                is_default_stored(d) && normalize_stored_error(d) is None
                    && #[trigger] stored_normalized_from(d, n)
        },
    }
}

/// Loading the file's contents `read` fails with the message `m`:
/// normalization refuses what was read (or the default configuration).
pub open spec fn load_error(read: Option<StoredConfigView>, m: Seq<char>) -> bool {
    match read {
        Some(raw) => normalize_stored_error(raw) == Some(m),
        None => exists|d: StoredConfigView|
            is_default_stored(d) && #[trigger] normalize_stored_error(d) == Some(m),
    }
}

impl StoredConfig {
    /// A copy of this stored configuration.
    pub fn clone_stored(&self) -> (r: StoredConfig)
        ensures
            r@ == self@,
    {
        StoredConfig {
            sync_listen: clone_strings(&self.sync_listen),
            listen: clone_strings(&self.listen),
            bind: clone_opt_string(&self.bind),
            db_path: self.db_path.clone(),
            export_dir: self.export_dir.clone(),
            log_path: self.log_path.clone(),
            log_level: self.log_level.clone(),
            sync_token: self.sync_token.clone(),
            token: self.token.clone(),
            admin_listen: clone_strings(&self.admin_listen),
            admin_password_hash: clone_opt_string(&self.admin_password_hash),
            admin_session_secret: self.admin_session_secret.clone(),
        }
    }
}

/// Loads the configuration file from what reading it gave (`None` for a
/// missing file): creates the default configuration for a missing file,
/// normalizes it, and asks for it to be written when the file was missing or
/// normalization changed it.
pub fn load_or_create_stored_config(read: Option<StoredConfig>) -> (r: ConfigFileUpdate<StoredConfig>)
    ensures
        read is None ==> r.result is Ok,
        match r.result {
            Ok(n) => load_outcome(read_view(read), n@, stored_views(r.writes@)),
            Err(ConfigError::Invalid(m)) => load_error(read_view(read), m@) && r.writes@.len() == 0,
            Err(_) => false,
        },
{
    let (mut stored, created) = match read {
        Some(stored) => (stored, false),
        None => (StoredConfig::default_config(), true),
    };
    match normalize_stored_config(&mut stored) {
        Ok(changed) => {
            let mut writes: Vec<StoredConfig> = Vec::new();
            if created || changed {
                writes.push(stored.clone_stored());
                assert(stored_views(writes@) =~= seq![stored@]);
            } else {
                assert(stored_views(writes@) =~= Seq::<StoredConfigView>::empty());
            }
            ConfigFileUpdate { writes, result: Ok(stored) }
        },
        Err(e) => ConfigFileUpdate { writes: Vec::new(), result: Err(e) },
    }
}

/// Loads the configuration file at `config_path` from what reading it gave
/// (creating and normalizing it as [`load_or_create_stored_config`] does) and
/// resolves the server configuration with the command-line overrides. What
/// is written depends on the file alone: the overrides never reach it.
pub fn load_or_create_config(
    config_path: &str,
    read: Option<StoredConfig>,
    overrides: &ConfigOverrides,
) -> (r: ConfigFileUpdate<ServerConfig>)
    ensures
        read is None ==> r.writes@.len() == 1,
        r.result matches Ok(c) ==> is_resolved_config(config_path@, c@),
        ({
            ||| (r.result matches Err(ConfigError::Invalid(m)) && load_error(read_view(read), m@)
                && r.writes@.len() == 0)
            ||| exists|n: StoredConfigView|
                #[trigger] load_outcome(read_view(read), n, stored_views(r.writes@)) && config_result_is(
                    r.result,
                    config_from_stored_spec(config_path@, n, overrides@),
                )
        }),
{
    let loaded = load_or_create_stored_config(read);
    let ConfigFileUpdate { writes, result } = loaded;
    match result {
        Ok(stored) => {
            let result = server_config_from_stored(config_path, &stored, overrides);
            let r = ConfigFileUpdate { writes, result };
            assert(load_outcome(read_view(read), stored@, stored_views(r.writes@)));
            assert(config_result_is(r.result, config_from_stored_spec(config_path@, stored@, overrides@)));
            assert(stored_views(r.writes@).len() == r.writes@.len());
            proof {
                if r.result is Ok {
                    lemma_loaded_config_is_resolved(
                        config_path@,
                        read_view(read),
                        stored@,
                        stored_views(r.writes@),
                        overrides@,
                        r.result->Ok_0@,
                    );
                }
            }
            r
        },
        Err(e) => ConfigFileUpdate { writes, result: Err(e) },
    }
}

/// Applies `patch` to `current` and gives the updated configuration together
/// with the stored form to write to the configuration file; a rejected patch
/// gives its error and nothing to write.
pub fn apply_and_persist_config(current: &ServerConfig, patch: &ConfigPatch) -> (r: Result<
    (ServerConfig, StoredConfig),
    ConfigError,
>)
    ensures
        match apply_patch_spec(current@, patch@) {
            Ok(u) => r matches Ok((c, s)) && c@ == u && s@ == stored_from_server_spec(u),
            Err(m) => r matches Err(ConfigError::Invalid(e)) && e@ == m,
        },
{
    let updated = apply_config_patch(current, patch)?;
    let stored = StoredConfig::from_server_config(&updated);
    Ok((updated, stored))
}

/// What updating the file with `p` does once loading gave `loaded` (the
/// configuration resolved from the file, or the message of the error): the
/// patched configuration and the stored form to write after loading's own
/// writes, or the message of the error and nothing more to write.
pub open spec fn update_step_spec(loaded: Result<ServerConfigView, Seq<char>>, p: ConfigPatchView) -> (
    Result<ServerConfigView, Seq<char>>,
    Seq<StoredConfigView>,
) {
    match loaded {
        Ok(cur) => match apply_patch_spec(cur, p) {
            Ok(u) => (Ok(u), seq![stored_from_server_spec(u)]),
            Err(m) => (Err(m), Seq::empty()),
        },
        Err(m) => (Err(m), Seq::empty()),
    }
}

/// `r` is the outcome `s` of an update step that follows loading's writes `w`.
pub open spec fn update_result_is(r: ConfigFileUpdate<ServerConfig>, w: Seq<StoredConfigView>, s: (
    Result<ServerConfigView, Seq<char>>,
    Seq<StoredConfigView>,
)) -> bool {
    config_result_is(r.result, s.0) && stored_views(r.writes@) == w + s.1
}

/// Loads the configuration file at `config_path` from what reading it gave,
/// applies `patch` and asks for the result to be written: after loading's own
/// writes comes the patched configuration's stored form, unless loading,
/// resolving or the patch failed.
pub fn update_config_file(config_path: &str, read: Option<StoredConfig>, patch: &ConfigPatch) -> (r:
    ConfigFileUpdate<ServerConfig>)
    ensures
        read is None ==> r.writes@.len() >= 1,
        ({
            ||| (r.result matches Err(ConfigError::Invalid(m)) && load_error(read_view(read), m@)
                && r.writes@.len() == 0)
            ||| exists|n: StoredConfigView, w: Seq<StoredConfigView>|
                #[trigger] load_outcome(read_view(read), n, w) && update_result_is(
                    r,
                    w,
                    update_step_spec(config_from_stored_spec(config_path@, n, empty_overrides_spec()), patch@),
                )
        }),
{
    let loaded = load_or_create_config(config_path, read, &ConfigOverrides::none());
    let ghost w = stored_views(loaded.writes@);
    let ConfigFileUpdate { mut writes, result } = loaded;
    match result {
        Ok(current) => {
            match apply_and_persist_config(&current, patch) {
                Ok((updated, stored)) => {
                    writes.push(stored);
                    assert(stored_views(writes@) =~= w + seq![stored@]);
                    ConfigFileUpdate { writes, result: Ok(updated) }
                },
                Err(e) => ConfigFileUpdate { writes, result: Err(e) },
            }
        },
        Err(e) => ConfigFileUpdate { writes, result: Err(e) },
    }
}

/// Overrides that override nothing.
pub open spec fn empty_overrides_spec() -> ConfigOverridesView {
    ConfigOverridesView { listen: None, db_path: None, token: None }
}

/// The names (as the admin API reports them) of the restart-required settings
/// on which `effective` and `persisted` differ, in a fixed order.
pub open spec fn pending_restart_spec(effective: ServerConfigView, persisted: ServerConfigView) -> Seq<
    Seq<char>,
> {
    let a: Seq<Seq<char>> = if effective.sync_listen != persisted.sync_listen {
        seq!["syncListen"@]
    } else {
        Seq::empty()
    };
    let b: Seq<Seq<char>> = if effective.admin_listen != persisted.admin_listen {
        seq!["adminListen"@]
    } else {
        Seq::empty()
    };
    let c: Seq<Seq<char>> = if effective.db_path != persisted.db_path {
        seq!["dbPath"@]
    } else {
        Seq::empty()
    };
    let d: Seq<Seq<char>> = if effective.export_dir != persisted.export_dir {
        seq!["exportDir"@]
    } else {
        Seq::empty()
    };
    let e: Seq<Seq<char>> = if effective.log_path != persisted.log_path {
        seq!["logPath"@]
    } else {
        Seq::empty()
    };
    a + b + c + d + e
}

/// Whether `effective` and `persisted` agree on every setting that only takes
/// effect after a restart.
pub open spec fn restart_settings_agree(effective: ServerConfigView, persisted: ServerConfigView) -> bool {
    &&& effective.sync_listen == persisted.sync_listen
    &&& effective.admin_listen == persisted.admin_listen
    &&& effective.db_path == persisted.db_path
    &&& effective.export_dir == persisted.export_dir
    &&& effective.log_path == persisted.log_path
}

/// Lists the restart-required settings whose persisted value differs from the
/// one in effect.
pub fn pending_restart_fields_for(effective: &ServerConfig, persisted: &ServerConfig) -> (r: Vec<
    String,
>)
    ensures
        strs_view(r@) == pending_restart_spec(effective@, persisted@),
        r@.len() == 0 <==> restart_settings_agree(effective@, persisted@),
{
    let mut fields: Vec<String> = Vec::new();
    let ghost e = effective@;
    let ghost p = persisted@;
    if !strings_eq(&effective.sync_listen, &persisted.sync_listen) {
        fields.push(string_of("syncListen"));
    }
    let ghost f1 = strs_view(fields@);
    assert(f1 =~= (if e.sync_listen != p.sync_listen { seq!["syncListen"@] } else { Seq::<Seq<char>>::empty() }));
    if !strings_eq(&effective.admin_listen, &persisted.admin_listen) {
        fields.push(string_of("adminListen"));
    }
    let ghost f2 = strs_view(fields@);
    assert(f2 =~= f1 + (if e.admin_listen != p.admin_listen { seq!["adminListen"@] } else { Seq::<Seq<char>>::empty() }));
    if effective.db_path != persisted.db_path {
        fields.push(string_of("dbPath"));
    }
    let ghost f3 = strs_view(fields@);
    assert(f3 =~= f2 + (if e.db_path != p.db_path { seq!["dbPath"@] } else { Seq::<Seq<char>>::empty() }));
    if effective.export_dir != persisted.export_dir {
        fields.push(string_of("exportDir"));
    }
    let ghost f4 = strs_view(fields@);
    assert(f4 =~= f3 + (if e.export_dir != p.export_dir { seq!["exportDir"@] } else { Seq::<Seq<char>>::empty() }));
    if effective.log_path != persisted.log_path {
        fields.push(string_of("logPath"));
    }
    assert(strs_view(fields@) =~= f4 + (if e.log_path != p.log_path { seq!["logPath"@] } else { Seq::<Seq<char>>::empty() }));
    assert(strs_view(fields@) =~= pending_restart_spec(e, p));
    fields
}

/// The configuration in effect, the configuration on disk, and which
/// restart-required settings differ between them.
#[derive(Debug, Clone)]
pub struct RuntimeConfigSnapshot {
    pub effective: ServerConfig,
    pub persisted: ServerConfig,
    pub pending_restart_fields: Vec<String>,
}

/// The running server's configuration: what is in effect and what has been
/// persisted. Live settings (sync token, admin password hash, session secret,
/// log level) take effect as soon as they are persisted; listeners and paths
/// wait for a restart.
#[derive(Debug, Clone)]
pub struct RuntimeConfig {
    effective: ServerConfig,
    persisted: ServerConfig,
}

/// `e` is `effective` with the live settings taken from `persisted`.
pub open spec fn with_live_settings(effective: ServerConfigView, persisted: ServerConfigView) -> ServerConfigView {
    ServerConfigView {
        sync_token: persisted.sync_token,
        admin_password_hash: persisted.admin_password_hash,
        admin_session_secret: persisted.admin_session_secret,
        log_level: persisted.log_level,
        ..effective
    }
}

impl RuntimeConfig {
    /// The configuration in effect.
    pub closed spec fn effective_spec(&self) -> ServerConfigView {
        self.effective@
    }

    /// The configuration last persisted.
    pub closed spec fn persisted_spec(&self) -> ServerConfigView {
        self.persisted@
    }

    /// A runtime configuration whose effective and persisted forms are `initial`.
    pub fn new(initial: ServerConfig) -> (r: Self)
        ensures
            r.effective_spec() == initial@,
            r.persisted_spec() == initial@,
    {
        let effective = initial.clone_config();
        RuntimeConfig { effective, persisted: initial }
    }

    pub fn effective_config(&self) -> (r: ServerConfig)
        ensures
            r@ == self.effective_spec(),
    {
        self.effective.clone_config()
    }

    pub fn persisted_config(&self) -> (r: ServerConfig)
        ensures
            r@ == self.persisted_spec(),
    {
        self.persisted.clone_config()
    }

    /// Both configurations and the restart-required settings that differ.
    pub fn snapshot(&self) -> (r: RuntimeConfigSnapshot)
        ensures
            r.effective@ == self.effective_spec(),
            r.persisted@ == self.persisted_spec(),
            strs_view(r.pending_restart_fields@) == pending_restart_spec(
                self.effective_spec(),
                self.persisted_spec(),
            ),
    {
        snapshot_from_state(&self.effective, &self.persisted)
    }

    /// Records `persisted` as the configuration on disk and puts its live
    /// settings into effect; listeners and paths in effect stay as they are.
    pub fn apply_persisted_config(&mut self, persisted: ServerConfig)
        ensures
            final(self).persisted_spec() == persisted@,
            final(self).effective_spec() == with_live_settings(old(self).effective_spec(), persisted@),
    {
        self.effective.sync_token = persisted.sync_token.clone();
        self.effective.admin_password_hash = clone_opt_string(&persisted.admin_password_hash);
        self.effective.admin_session_secret = persisted.admin_session_secret.clone();
        self.effective.log_level = persisted.log_level.clone();
        self.persisted = persisted;
    }

    /// Applies `patch` to the persisted configuration and puts its live
    /// settings into effect; gives the new snapshot and the stored form that
    /// the application writes to the configuration file. A rejected patch
    /// changes nothing.
    pub fn apply_patch(&mut self, patch: &ConfigPatch) -> (r: Result<
        (RuntimeConfigSnapshot, StoredConfig),
        ConfigError,
    >)
        ensures
            match apply_patch_spec(old(self).persisted_spec(), patch@) {
                Ok(u) => r matches Ok((snap, stored)) && {
                    &&& final(self).persisted_spec() == u
                    &&& stored@ == stored_from_server_spec(u)
                    &&& final(self).effective_spec() == with_live_settings(old(self).effective_spec(), u)
                    &&& snap.effective@ == final(self).effective_spec()
                    &&& snap.persisted@ == u
                    &&& strs_view(snap.pending_restart_fields@) == pending_restart_spec(
                        final(self).effective_spec(),
                        u,
                    )
                },
                Err(m) => {
                    &&& r matches Err(ConfigError::Invalid(e)) && e@ == m
                    &&& final(self).effective_spec() == old(self).effective_spec()
                    &&& final(self).persisted_spec() == old(self).persisted_spec()
                },
            },
    {
        let (updated, stored) = apply_and_persist_config(&self.persisted, patch)?;
        self.apply_persisted_config(updated);
        Ok((self.snapshot(), stored))
    }
}

fn snapshot_from_state(effective: &ServerConfig, persisted: &ServerConfig) -> (r: RuntimeConfigSnapshot)
    ensures
        r.effective@ == effective@,
        r.persisted@ == persisted@,
        strs_view(r.pending_restart_fields@) == pending_restart_spec(effective@, persisted@),
{
    RuntimeConfigSnapshot {
        effective: effective.clone_config(),
        persisted: persisted.clone_config(),
        pending_restart_fields: pending_restart_fields_for(effective, persisted),
    }
}

/// A freshly started runtime has no settings waiting for a restart.
pub proof fn lemma_new_runtime_has_no_pending_restart(initial: ServerConfigView)
    ensures
        pending_restart_spec(initial, initial).len() == 0,
{
    assert(pending_restart_spec(initial, initial) =~= Seq::<Seq<char>>::empty());
}

/// Persisting a configuration never changes the listeners or paths in effect,
/// and the live settings in effect are then those persisted.
pub proof fn lemma_live_settings_follow_persisted(effective: ServerConfigView, persisted: ServerConfigView)
    ensures
        ({
            let e = with_live_settings(effective, persisted);
            &&& e.sync_listen == effective.sync_listen
            &&& e.admin_listen == effective.admin_listen
            &&& e.db_path == effective.db_path
            &&& e.export_dir == effective.export_dir
            &&& e.log_path == effective.log_path
            &&& e.config_path == effective.config_path
            &&& e.sync_token == persisted.sync_token
            &&& e.admin_password_hash == persisted.admin_password_hash
            &&& e.admin_session_secret == persisted.admin_session_secret
            &&& e.log_level == persisted.log_level
        }),
{
}

/// The entries a listener list is normalized into: trimmed, not blank, socket
/// addresses, and no address twice.
pub open spec fn is_normalized_listen(l: Seq<Seq<char>>) -> bool {
    &&& forall|i: int|
        0 <= i < l.len() ==> {
            &&& (#[trigger] l[i]).len() > 0
            &&& trim_spec(l[i]) == l[i]
            &&& spec_parses_socket_addr(l[i])
        }
    &&& forall|i: int, j: int| 0 <= i < j < l.len() ==> l[i] != l[j]
}

proof fn lemma_listen_fold_shape(field: Seq<char>, l: Seq<Seq<char>>)
    ensures
        listen_fold(field, l) matches Ok(acc) ==> is_normalized_listen(acc),
    decreases l.len(),
{
    if l.len() > 0 {
        lemma_listen_fold_shape(field, l.drop_last());
        lemma_trim_shape(l.last());
        match listen_fold(field, l.drop_last()) {
            Ok(acc) => {
                let t = trim_spec(l.last());
                if t.len() > 0 && spec_parses_socket_addr(t) && !acc.contains(t) {
                    let cur = acc.push(t);
                    assert forall|i: int, j: int| 0 <= i < j < cur.len() implies cur[i] != cur[j] by {
                        if j == cur.len() - 1 {
                            assert(cur[i] == acc[i]);
                        }
                    }
                    assert forall|i: int| 0 <= i < cur.len() implies {
                        &&& (#[trigger] cur[i]).len() > 0
                        &&& trim_spec(cur[i]) == cur[i]
                        &&& spec_parses_socket_addr(cur[i])
                    } by {
                        if i < cur.len() - 1 {
                            assert(cur[i] == acc[i]);
                        }
                    }
                }
            },
            Err(_) => {},
        }
    }
}

proof fn lemma_listen_fold_fixed(field: Seq<char>, l: Seq<Seq<char>>)
    requires
        is_normalized_listen(l),
    ensures
        listen_fold(field, l) == Ok::<Seq<Seq<char>>, Seq<char>>(l),
    decreases l.len(),
{
    if l.len() > 0 {
        let prev = l.drop_last();
        assert forall|i: int, j: int| 0 <= i < j < prev.len() implies prev[i] != prev[j] by {
            assert(prev[i] == l[i] && prev[j] == l[j]);
        }
        assert forall|i: int| 0 <= i < prev.len() implies {
            &&& (#[trigger] prev[i]).len() > 0
            &&& trim_spec(prev[i]) == prev[i]
            &&& spec_parses_socket_addr(prev[i])
        } by {
            assert(prev[i] == l[i]);
        }
        lemma_listen_fold_fixed(field, prev);
        let last = l.last();
        assert(l[l.len() - 1] == last);
        if prev.contains(last) {
            let k = choose|k: int| 0 <= k < prev.len() && prev[k] == last;
            assert(l[k] == l[l.len() - 1]);
        }
        assert(prev.push(last) =~= l);
    } else {
        assert(l =~= Seq::<Seq<char>>::empty());
    }
}

/// A normalized listener list is non-empty, its entries are trimmed
/// socket addresses without repeats, and normalizing it again changes
/// nothing.
pub proof fn lemma_normalize_listen_idempotent(field: Seq<char>, listen: Seq<Seq<char>>)
    ensures
        normalize_listen_spec(field, listen) matches Ok(n) ==> {
            &&& n.len() > 0
            &&& is_normalized_listen(n)
            &&& normalize_listen_spec(field, n) == Ok::<Seq<Seq<char>>, Seq<char>>(n)
        },
{
    lemma_listen_fold_shape(field, listen);
    if let Ok(n) = normalize_listen_spec(field, listen) {
        lemma_listen_fold_fixed(field, n);
    }
}

/// A patch that names nothing gives the configuration back unchanged.
pub proof fn lemma_empty_patch_is_identity(c: ServerConfigView)
    ensures
        apply_patch_spec(c, empty_patch_spec()) == Ok::<ServerConfigView, Seq<char>>(c),
{
}

/// A patch never changes the config path or the session secret, leaves each
/// setting it does not name as it was, and sets each text setting it names
/// to the trimmed, non-blank value.
pub proof fn lemma_patch_changes_only_named_settings(c: ServerConfigView, p: ConfigPatchView)
    ensures
        apply_patch_spec(c, p) matches Ok(n) ==> {
            &&& n.config_path == c.config_path
            &&& n.admin_session_secret == c.admin_session_secret
            &&& (p.listen is None ==> n.sync_listen == c.sync_listen)
            &&& (p.admin_listen is None ==> n.admin_listen == c.admin_listen)
            &&& (p.db_path is None ==> n.db_path == c.db_path)
            &&& (p.export_dir is None ==> n.export_dir == c.export_dir)
            &&& (p.log_path is None ==> n.log_path == c.log_path)
            &&& (p.log_level is None ==> n.log_level == c.log_level)
            &&& (p.token is None ==> n.sync_token == c.sync_token)
            &&& (p.admin_password_hash is None ==> n.admin_password_hash == c.admin_password_hash)
            &&& (p.log_level matches Some(l) ==> n.log_level == trim_spec(l) && !is_blank(n.log_level))
            &&& (p.token matches Some(t) ==> n.sync_token == trim_spec(t) && !is_blank(n.sync_token))
            &&& (p.admin_password_hash matches Some(h) ==> n.admin_password_hash == Some(trim_spec(h)))
        },
{
    if let Some(l) = p.log_level {
        lemma_trim_shape(l);
    }
    if let Some(t) = p.token {
        lemma_trim_shape(t);
    }
}

/// A patch with a blank log level, sync token or password hash, or an empty
/// path, is rejected.
pub proof fn lemma_blank_patch_values_rejected(c: ServerConfigView, p: ConfigPatchView)
    ensures
        (p.log_level matches Some(l) && is_blank(l)) ==> apply_patch_spec(c, p) is Err,
        (p.token matches Some(t) && is_blank(t)) ==> apply_patch_spec(c, p) is Err,
        (p.admin_password_hash matches Some(h) && is_blank(h)) ==> apply_patch_spec(c, p) is Err,
        (p.db_path matches Some(d) && d.len() == 0) ==> apply_patch_spec(c, p) is Err,
        (p.export_dir matches Some(d) && d.len() == 0) ==> apply_patch_spec(c, p) is Err,
        (p.log_path matches Some(d) && d.len() == 0) ==> apply_patch_spec(c, p) is Err,
{
}

/// A trimmed, non-blank text is its own trim and stays non-blank.
proof fn lemma_trimmed_fixed(v: Seq<char>)
    ensures
        !is_blank(v) ==> !is_blank(trim_spec(v)) && trim_spec(trim_spec(v)) == trim_spec(v),
{
    lemma_trim_shape(v);
}

/// A normalized configuration is stable: normalization accepts it again and
/// yields it unchanged, so loading it does not rewrite it.
pub proof fn lemma_normalized_config_is_stable(raw: StoredConfigView, n: StoredConfigView)
    requires
        normalize_stored_error(raw) is None,
        stored_normalized_from(raw, n),
    ensures
        normalize_stored_error(n) is None,
        stored_normalized_from(n, n),
        forall|m: StoredConfigView| #[trigger] stored_normalized_from(n, m) ==> m == n,
{
    reveal_strlit("data/floral-sync.sqlite3");
    reveal_strlit("exports");
    reveal_strlit("logs/floral-sync-server.log");
    reveal_strlit("info");
    let sync_n = normalize_listen_spec("sync_listen"@, base_sync_listen(raw))->Ok_0;
    let admin_n = normalize_listen_spec("admin_listen"@, base_admin_listen(raw))->Ok_0;
    lemma_normalize_listen_idempotent("sync_listen"@, base_sync_listen(raw));
    lemma_normalize_listen_idempotent("admin_listen"@, base_admin_listen(raw));
    assert(base_admin_listen(n) == admin_n);
    assert(normalize_listen_spec("admin_listen"@, base_admin_listen(n)) == Ok::<Seq<Seq<char>>, Seq<char>>(admin_n));
    lemma_default_sync_listen_normalizes();
    lemma_default_sync_listen_shape();
    if !is_legacy_single_stack_spec(sync_n) {
        assert(base_sync_listen(n) == sync_n);
    } else {
        assert(base_sync_listen(n) == default_sync_listen_spec());
        assert(!is_legacy_single_stack_spec(default_sync_listen_spec()));
    }
    assert(normalize_stored_error(n) is None);
    assert(base_sync_listen(n) == n.sync_listen);
    assert(expected_sync_listen(n) == n.sync_listen);
    lemma_trimmed_fixed(raw.log_level);
    lemma_trimmed_fixed(raw.sync_token);
    lemma_trimmed_fixed(raw.token);
    lemma_trimmed_fixed(raw.admin_session_secret);
    if let Some(h) = raw.admin_password_hash {
        lemma_trimmed_fixed(h);
    }
    if is_generated_token(n.sync_token) {
        lemma_generated_token_not_blank(n.sync_token);
    }
    if is_generated_token(n.admin_session_secret) {
        lemma_generated_token_not_blank(n.admin_session_secret);
    }
    lemma_trim_fixed("info"@);
    assert(stored_normalized_from(n, n));
    assert forall|m: StoredConfigView| #[trigger] stored_normalized_from(n, m) implies m == n by {
        assert(m.listen =~= n.listen);
        assert(m.token =~= n.token);
        assert(m.db_path == n.db_path);
        assert(m.export_dir == n.export_dir);
        assert(m.log_path == n.log_path);
        assert(m.log_level == n.log_level);
        assert(m.sync_token == n.sync_token);
        assert(m.admin_password_hash == n.admin_password_hash);
        assert(m.admin_session_secret == n.admin_session_secret);
    }
}

/// What loading gives (and writes, or leaves as it was) loads again as the
/// same configuration with nothing to write and no error: a file is created
/// or migrated once and then left as it is.
pub proof fn lemma_reload_writes_nothing(
    read: Option<StoredConfigView>,
    n: StoredConfigView,
    w: Seq<StoredConfigView>,
)
    requires
        load_outcome(read, n, w),
    ensures
        load_outcome(Some(n), n, Seq::empty()),
        forall|n2: StoredConfigView, w2: Seq<StoredConfigView>|
            #[trigger] load_outcome(Some(n), n2, w2) ==> n2 == n && w2.len() == 0,
        forall|m: Seq<char>| !#[trigger] load_error(Some(n), m),
{
    match read {
        Some(raw) => lemma_normalized_config_is_stable(raw, n),
        None => {
            let d = choose|d: StoredConfigView|
                is_default_stored(d) && normalize_stored_error(d) is None
                    && #[trigger] stored_normalized_from(d, n);
            lemma_normalized_config_is_stable(d, n);
        },
    }
}

/// Loading depends on the file's contents alone: two loads of the same
/// contents, which need no freshly generated credentials, give the same
/// configuration and the same writes, whatever overrides each then resolved with.
pub proof fn lemma_load_depends_on_file_alone(
    raw: StoredConfigView,
    n1: StoredConfigView,
    w1: Seq<StoredConfigView>,
    n2: StoredConfigView,
    w2: Seq<StoredConfigView>,
)
    requires
        load_outcome(Some(raw), n1, w1),
        load_outcome(Some(raw), n2, w2),
        !is_blank(raw.sync_token) || !is_blank(raw.token),
        !is_blank(raw.admin_session_secret),
    ensures
        n1 == n2,
        w1 == w2,
{
    assert(n1.listen =~= n2.listen);
    assert(n1.token =~= n2.token);
    assert(n1 == n2);
}

/// What every configuration that loading resolves satisfies: it names its
/// own file, its listener lists are non-empty lists of distinct, trimmed
/// socket addresses, and its sync token, log level, session secret and
/// password hash (when set) are trimmed and not blank.
pub open spec fn is_resolved_config(path: Seq<char>, c: ServerConfigView) -> bool {
    &&& c.config_path == path
    &&& c.sync_listen.len() > 0 && is_normalized_listen(c.sync_listen)
    &&& c.admin_listen.len() > 0 && is_normalized_listen(c.admin_listen)
    &&& !is_blank(c.sync_token) && trim_spec(c.sync_token) == c.sync_token
    &&& !is_blank(c.log_level) && trim_spec(c.log_level) == c.log_level
    &&& !is_blank(c.admin_session_secret) && trim_spec(c.admin_session_secret) == c.admin_session_secret
    &&& match c.admin_password_hash {
        None => true,
        Some(h) => !is_blank(h) && trim_spec(h) == h,
    }
}

/// A value that normalization produced from `raw` has a non-blank, trimmed
/// log level, session secret and password hash (when set).
proof fn lemma_normalized_settings_trimmed(raw: StoredConfigView, n: StoredConfigView)
    requires
        stored_normalized_from(raw, n),
    ensures
        !is_blank(n.log_level) && trim_spec(n.log_level) == n.log_level,
        !is_blank(n.admin_session_secret) && trim_spec(n.admin_session_secret) == n.admin_session_secret,
        match n.admin_password_hash {
            None => true,
            Some(h) => !is_blank(h) && trim_spec(h) == h,
        },
{
    reveal_strlit("info");
    lemma_trim_fixed("info"@);
    lemma_trimmed_fixed(raw.log_level);
    lemma_trimmed_fixed(raw.admin_session_secret);
    if is_generated_token(n.admin_session_secret) {
        lemma_generated_token_not_blank(n.admin_session_secret);
    }
    if let Some(h) = raw.admin_password_hash {
        lemma_trimmed_fixed(h);
    }
}

/// Every configuration resolved from what loading gives is a resolved
/// configuration of its file, whatever the overrides.
pub proof fn lemma_loaded_config_is_resolved(
    path: Seq<char>,
    read: Option<StoredConfigView>,
    n: StoredConfigView,
    w: Seq<StoredConfigView>,
    ov: ConfigOverridesView,
    c: ServerConfigView,
)
    requires
        load_outcome(read, n, w),
        config_from_stored_spec(path, n, ov) == Ok::<ServerConfigView, Seq<char>>(c),
    ensures
        is_resolved_config(path, c),
{
    match read {
        Some(raw) => lemma_normalized_settings_trimmed(raw, n),
        None => {
            let d = choose|d: StoredConfigView|
                is_default_stored(d) && normalize_stored_error(d) is None
                    && #[trigger] stored_normalized_from(d, n);
            lemma_normalized_settings_trimmed(d, n);
        },
    }
    let sync_source = match ov.listen {
        Some(l) => l,
        None => n.sync_listen,
    };
    lemma_normalize_listen_idempotent("sync_listen"@, sync_source);
    lemma_normalize_listen_idempotent("admin_listen"@, n.admin_listen);
    lemma_trim_shape(
        match ov.token {
            Some(t) => t,
            None => n.sync_token,
        },
    );
}

/// Patching a resolved configuration gives a resolved configuration.
pub proof fn lemma_patch_keeps_config_resolved(
    path: Seq<char>,
    c: ServerConfigView,
    p: ConfigPatchView,
    u: ServerConfigView,
)
    requires
        is_resolved_config(path, c),
        apply_patch_spec(c, p) == Ok::<ServerConfigView, Seq<char>>(u),
    ensures
        is_resolved_config(path, u),
{
    if let Some(l) = p.listen {
        lemma_normalize_listen_idempotent("sync_listen"@, l);
    }
    if let Some(l) = p.admin_listen {
        lemma_normalize_listen_idempotent("admin_listen"@, l);
    }
    if let Some(t) = p.log_level {
        lemma_trim_shape(t);
    }
    if let Some(t) = p.token {
        lemma_trim_shape(t);
    }
    if let Some(h) = p.admin_password_hash {
        lemma_trim_shape(h);
    }
}

/// Each of the configuration's paths comes back from the form in which it is
/// stored, and that form is not blank.
pub open spec fn paths_round_trip(c: ServerConfigView) -> bool {
    &&& resolve_path_spec(c.config_path, storage_path_spec(c.config_path, c.db_path)) == c.db_path
    &&& resolve_path_spec(c.config_path, storage_path_spec(c.config_path, c.export_dir)) == c.export_dir
    &&& resolve_path_spec(c.config_path, storage_path_spec(c.config_path, c.log_path)) == c.log_path
    &&& !is_blank(storage_path_spec(c.config_path, c.db_path))
    &&& !is_blank(storage_path_spec(c.config_path, c.export_dir))
    &&& !is_blank(storage_path_spec(c.config_path, c.log_path))
}

/// Writing a resolved configuration in its stored form and loading the file
/// again gives the configuration back with nothing to write. It holds where
/// its paths come back from their stored form, and where its sync listeners
/// are not a legacy single-stack default, which loading widens.
pub proof fn lemma_persisted_config_reloads(path: Seq<char>, c: ServerConfigView)
    requires
        is_resolved_config(path, c),
        paths_round_trip(c),
        !is_legacy_single_stack_spec(c.sync_listen),
    ensures
        load_outcome(Some(stored_from_server_spec(c)), stored_from_server_spec(c), Seq::empty()),
        config_from_stored_spec(path, stored_from_server_spec(c), empty_overrides_spec()) == Ok::<
            ServerConfigView,
            Seq<char>,
        >(c),
{
    let s = stored_from_server_spec(c);
    lemma_listen_fold_fixed("sync_listen"@, c.sync_listen);
    lemma_listen_fold_fixed("admin_listen"@, c.admin_listen);
    assert(base_sync_listen(s) == c.sync_listen);
    assert(base_admin_listen(s) == c.admin_listen);
    assert(normalize_stored_error(s) is None);
    assert(s.listen =~= Seq::<Seq<char>>::empty());
    assert(s.token =~= Seq::<char>::empty());
    assert(stored_normalized_from(s, s));
    let r = config_from_stored_spec(path, s, empty_overrides_spec());
    assert(r == Ok::<ServerConfigView, Seq<char>>(c));
}

/// A patch that `apply_and_persist_config` (or `RuntimeConfig::apply_patch`)
/// accepts is what loading the written file gives back, with nothing more
/// to write: where the patched paths come back from their stored form and
/// the patched sync listeners are not a legacy single-stack default.
pub proof fn lemma_persisted_patch_reloads(path: Seq<char>, c: ServerConfigView, p: ConfigPatchView, u: ServerConfigView)
    requires
        is_resolved_config(path, c),
        apply_patch_spec(c, p) == Ok::<ServerConfigView, Seq<char>>(u),
        paths_round_trip(u),
        !is_legacy_single_stack_spec(u.sync_listen),
    ensures
        load_outcome(Some(stored_from_server_spec(u)), stored_from_server_spec(u), Seq::empty()),
        config_from_stored_spec(path, stored_from_server_spec(u), empty_overrides_spec()) == Ok::<
            ServerConfigView,
            Seq<char>,
        >(u),
{
    lemma_patch_keeps_config_resolved(path, c, p, u);
    lemma_persisted_config_reloads(path, u);
}

/// An update patches the configuration that a separate, earlier load of the
/// same file gave: what the update loads itself resolves to that earlier
/// configuration, so the patched result is the patch applied to it. It holds
/// where the file needs no freshly generated credentials (each load would
/// otherwise draw its own).
pub proof fn lemma_update_patches_the_earlier_load(
    path: Seq<char>,
    raw: StoredConfigView,
    n0: StoredConfigView,
    w0: Seq<StoredConfigView>,
    c0: ServerConfigView,
    n: StoredConfigView,
    w: Seq<StoredConfigView>,
    p: ConfigPatchView,
)
    requires
        load_outcome(Some(raw), n0, w0),
        config_from_stored_spec(path, n0, empty_overrides_spec()) == Ok::<ServerConfigView, Seq<char>>(c0),
        load_outcome(Some(raw), n, w),
        !is_blank(raw.sync_token) || !is_blank(raw.token),
        !is_blank(raw.admin_session_secret),
    ensures
        update_step_spec(config_from_stored_spec(path, n, empty_overrides_spec()), p).0 == apply_patch_spec(c0, p),
{
    lemma_load_depends_on_file_alone(raw, n0, w0, n, w);
}

/// Command-line overrides win over the file: a database path, listener list
/// or sync token given on the command line is the one the resolved
/// configuration uses (resolved, normalized or trimmed), and the file's value
/// is used only where no override is given; the other settings always come
/// from the file.
pub proof fn lemma_overrides_take_precedence(
    path: Seq<char>,
    s: StoredConfigView,
    ov: ConfigOverridesView,
    c: ServerConfigView,
)
    requires
        config_from_stored_spec(path, s, ov) == Ok::<ServerConfigView, Seq<char>>(c),
    ensures
        c.config_path == path,
        ov.db_path matches Some(p) ==> c.db_path == resolve_path_spec(path, p),
        ov.db_path is None ==> c.db_path == resolve_path_spec(path, s.db_path),
        ov.listen matches Some(l) ==> normalize_listen_spec("sync_listen"@, l) == Ok::<
            Seq<Seq<char>>,
            Seq<char>,
        >(c.sync_listen),
        ov.listen is None ==> normalize_listen_spec("sync_listen"@, s.sync_listen) == Ok::<
            Seq<Seq<char>>,
            Seq<char>,
        >(c.sync_listen),
        ov.token matches Some(t) ==> c.sync_token == trim_spec(t),
        ov.token is None ==> c.sync_token == trim_spec(s.sync_token),
        normalize_listen_spec("admin_listen"@, s.admin_listen) == Ok::<Seq<Seq<char>>, Seq<char>>(
            c.admin_listen,
        ),
        c.export_dir == resolve_path_spec(path, s.export_dir),
        c.log_path == resolve_path_spec(path, s.log_path),
        c.log_level == trim_spec(s.log_level),
        c.admin_password_hash == s.admin_password_hash,
        c.admin_session_secret == trim_spec(s.admin_session_secret),
{
}

/// Two files that differ only in their database path resolve to the same
/// database path when the command line names one.
pub proof fn lemma_db_path_override_ignores_the_file(
    path: Seq<char>,
    s1: StoredConfigView,
    s2: StoredConfigView,
    ov: ConfigOverridesView,
    c1: ServerConfigView,
    c2: ServerConfigView,
)
    requires
        config_from_stored_spec(path, s1, ov) == Ok::<ServerConfigView, Seq<char>>(c1),
        config_from_stored_spec(path, s2, ov) == Ok::<ServerConfigView, Seq<char>>(c2),
        ov.db_path is Some,
    ensures
        c1.db_path == c2.db_path,
{
    lemma_overrides_take_precedence(path, s1, ov, c1);
    lemma_overrides_take_precedence(path, s2, ov, c2);
}

} // verus!
