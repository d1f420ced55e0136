//! The admin API's request logic: origin checks for state-changing requests,
//! the session cookie, the password flows (login, bootstrap, change), note
//! filters, ZIP archives of notes with unique entry names, backup names,
//! paths and listings, log tails, and the response bodies. The HTTP routing,
//! database access and file handling live in the application.
use vstd::prelude::*;
use crate::admin_store::{AdminOverview, MarkdownDownload, NoteStateFilter};
use crate::auth::{bootstrap_required, hash_admin_password, spec_argon2_verify, verify_admin_password, AuthError};
use crate::config::{ConfigError, ConfigPatch, ConfigPatchView, RuntimeConfigSnapshot, ServerConfig, ServerConfigView};
use crate::paths::{path_join, spec_path_join};
use crate::session::{expires_at_spec, AdminSessionClaims, ADMIN_SESSION_TTL_SECONDS};
use crate::text::{
    authority_end, clone_strings, concat2, concat3, eq_ignore_ascii_case, eq_ignore_ascii_case_spec,
    is_blank, is_blank_str, split_first, split_first_exec, split_first_str, split_last,
    split_last_exec, split_once_str, string_of, strip_prefix, strs_view, trim, trim_spec,
    parse_u16, parse_u16_spec, authority_part, lemma_index_of, contains_string, decimal_spec,
    lemma_decimal_injective, lemma_trim_shape, u64_to_decimal, opt_strs_view, str_less, str_lt,
    lemma_str_lt_order,
};
use vstd::relations::injective_on;
use vstd::set_lib::{lemma_int_range, lemma_len_subset, lemma_map_size, set_int_range};
use crate::time::{spec_file_stamp, spec_rfc3339, Timestamp};

verus! {

/// Errors of the admin API, each answered with an HTTP status and a message.
#[derive(Debug, Clone, PartialEq, Eq)]
pub enum ApiError {
    BadRequest(String),
    Unauthorized,
    Forbidden(String),
    NotFound(String),
    Conflict(String),
    Config(ConfigError),
    Store(String),
    Io(String),
    Internal(String),
}

impl ApiError {
    /// The HTTP status the error is answered with.
    pub fn status_code(&self) -> (r: u16)
        ensures
            r == match self {
                ApiError::BadRequest(_) => 400u16,
                ApiError::Unauthorized => 401u16,
                ApiError::Forbidden(_) => 403u16,
                ApiError::NotFound(_) => 404u16,
                ApiError::Conflict(_) => 409u16,
                _ => 500u16,
            },
    {
        match self {
            ApiError::BadRequest(_) => 400,
            ApiError::Unauthorized => 401,
            ApiError::Forbidden(_) => 403,
            ApiError::NotFound(_) => 404,
            ApiError::Conflict(_) => 409,
            _ => 500,
        }
    }

    /// The message of the JSON error body.
    pub fn message(&self) -> (r: String)
        ensures
            match self {
                ApiError::BadRequest(m) => r@ == m@,
                ApiError::Unauthorized => r@ == "unauthorized"@,
                ApiError::Forbidden(m) => r@ == m@,
                ApiError::NotFound(m) => r@ == m@,
                ApiError::Conflict(m) => r@ == m@,
                ApiError::Config(e) => r@ == e.text(),
                ApiError::Store(m) => r@ == m@,
                ApiError::Io(m) => r@ == m@,
                ApiError::Internal(m) => r@ == m@,
            },
    {
        match self {
            ApiError::BadRequest(m) => m.clone(),
            ApiError::Unauthorized => string_of("unauthorized"),
            ApiError::Forbidden(m) => m.clone(),
            ApiError::NotFound(m) => m.clone(),
            ApiError::Conflict(m) => m.clone(),
            ApiError::Config(e) => e.message(),
            ApiError::Store(m) => m.clone(),
            ApiError::Io(m) => m.clone(),
            ApiError::Internal(m) => m.clone(),
        }
    }
}

/// The note state filter named by the `state` query parameter (default `all`).
pub open spec fn parse_note_state_spec(value: Option<Seq<char>>) -> Option<NoteStateFilter> {
    let v = match value {
        Some(v) => v,
        None => "all"@,
    };
    if v == "all"@ {
        Some(NoteStateFilter::All)
    } else if v == "active"@ {
        Some(NoteStateFilter::Active)
    } else if v == "deleted"@ {
        Some(NoteStateFilter::Deleted)
    } else {
        None
    }
}

/// Reads the `state` query parameter; an unknown value is a bad request.
pub fn parse_note_state(value: Option<&str>) -> (r: Result<NoteStateFilter, ApiError>)
    ensures
        match parse_note_state_spec(
            match value {
                Some(v) => Some(v@),
                None => None,
            },
        ) {
            Some(f) => r == Ok::<NoteStateFilter, ApiError>(f),
            None => r matches Err(ApiError::BadRequest(m)) && m@ == "invalid note state filter: "@
                + value->Some_0@,
        },
{
    let v = match value {
        Some(v) => string_of(v),
        None => string_of("all"),
    };
    if v == string_of("all") {
        Ok(NoteStateFilter::All)
    } else if v == string_of("active") {
        Ok(NoteStateFilter::Active)
    } else if v == string_of("deleted") {
        Ok(NoteStateFilter::Deleted)
    } else {
        proof {
            if value is None {
                assert(v@ == "all"@);
            }
        }
        Err(ApiError::BadRequest(concat2("invalid note state filter: ", v.as_str())))
    }
}

/// The scheme, host and port of a request origin.
#[derive(Debug, Clone, PartialEq, Eq)]
pub struct ParsedOrigin {
    pub scheme: String,
    pub host: String,
    pub port: u16,
}

/// Mathematical form of [`ParsedOrigin`].
pub struct OriginView {
    pub scheme: Seq<char>,
    pub host: Seq<char>,
    pub port: u16,
}

impl View for ParsedOrigin {
    type V = OriginView;

    open spec fn view(&self) -> OriginView {
        OriginView { scheme: self.scheme@, host: self.host@, port: self.port }
    }
}

/// The view of an optional origin.
pub open spec fn opt_origin(o: Option<ParsedOrigin>) -> Option<OriginView> {
    match o {
        Some(p) => Some(p@),
        None => None,
    }
}

/// The port a scheme implies: 80 for `http`, 443 for `https`.
pub open spec fn default_port_spec(scheme: Seq<char>) -> Option<u16> {
    if scheme == "http"@ {
        Some(80u16)
    } else if scheme == "https"@ {
        Some(443u16)
    } else {
        None
    }
}

pub fn default_port_for_scheme(scheme: &str) -> (r: Option<u16>)
    ensures
        r == default_port_spec(scheme@),
{
    let s = string_of(scheme);
    if s == string_of("http") {
        Some(80)
    } else if s == string_of("https") {
        Some(443)
    } else {
        None
    }
}

/// The origin named by `scheme` and an authority (`host[:port]`, with IPv6
/// hosts in brackets): an explicit port must be a valid port number, except
/// that after a bracketed host an unparsable port falls back to the scheme's
/// default; without a usable port the scheme must imply one. An empty or
/// `null` authority names no origin.
pub open spec fn from_authority_spec(scheme: Seq<char>, authority: Seq<char>) -> Option<OriginView> {
    if authority.len() == 0 || authority == "null"@ {
        None
    } else if authority[0] == '[' {
        match split_first(authority.drop_first(), ']') {
            None => None,
            Some((host, after)) => {
                let explicit = if after.len() > 0 && after[0] == ':' {
                    parse_u16_spec(after.drop_first())
                } else {
                    None
                };
                let port = if explicit is Some {
                    explicit
                } else {
                    default_port_spec(scheme)
                };
                match port {
                    Some(p) => Some(OriginView { scheme, host, port: p }),
                    None => None,
                }
            },
        }
    } else {
        let implied = match default_port_spec(scheme) {
            Some(p) => Some(OriginView { scheme, host: authority, port: p }),
            None => None,
        };
        match split_last(authority, ':') {
            Some((host, port)) => if host.len() > 0 {
                match parse_u16_spec(port) {
                    Some(p) => Some(OriginView { scheme, host, port: p }),
                    None => None,
                }
            } else {
                implied
            },
            None => implied,
        }
    }
}

/// The origin named by an `Origin` header value (`scheme://authority...`).
pub open spec fn parse_origin_spec(value: Seq<char>) -> Option<OriginView> {
    match split_first_str(value, "://"@) {
        None => None,
        Some((scheme, rest)) => from_authority_spec(scheme, rest.take(authority_end(rest) as int)),
    }
}

/// Whether two origins are the same: equal ports, and scheme and host equal
/// up to ASCII case.
pub open spec fn origins_match(a: OriginView, b: OriginView) -> bool {
    a.port == b.port && eq_ignore_ascii_case_spec(a.scheme, b.scheme) && eq_ignore_ascii_case_spec(
        a.host,
        b.host,
    )
}

proof fn lemma_one_char_literals()
    ensures
        "["@ == seq!['['],
        ":"@ == seq![':'],
{
    reveal_strlit("[");
    reveal_strlit(":");
    assert("["@ =~= seq!['[']);
    assert(":"@ =~= seq![':']);
}

impl ParsedOrigin {
    /// Parses an `Origin` header value.
    pub fn parse(value: &str) -> (r: Option<Self>)
        ensures
            opt_origin(r) == parse_origin_spec(value@),
    {
        let (scheme, rest) = match split_once_str(value, "://") {
            Some(parts) => parts,
            None => return None,
        };
        let authority = authority_part(rest.as_str());
        Self::from_authority(scheme.as_str(), authority.as_str())
    }

    /// The origin of `scheme` and `authority`.
    pub fn from_authority(scheme: &str, authority: &str) -> (r: Option<Self>)
        ensures
            opt_origin(r) == from_authority_spec(scheme@, authority@),
    {
        proof {
            lemma_one_char_literals();
        }
        if authority.is_empty() || string_of(authority) == string_of("null") {
            return None;
        }
        assert(authority@.len() > 0);
        match strip_prefix(authority, "[") {
            Some(remainder) => {
                assert(authority@[0] == '[');
                assert(remainder@ =~= authority@.drop_first());
                let (host, after) = match split_first_exec(remainder.as_str(), ']') {
                    Some(parts) => parts,
                    None => return None,
                };
                let explicit = match strip_prefix(after.as_str(), ":") {
                    Some(port) => {
                        assert(after@[0] == ':');
                        assert(port@ =~= after@.drop_first());
                        parse_u16(port.as_str())
                    },
                    None => {
                        assert(!(after@.len() > 0 && after@[0] == ':')) by {
                            if after@.len() > 0 && after@[0] == ':' {
                                assert(after@.take(1) =~= ":"@);
                            }
                        }
                        None
                    },
                };
                let port = match explicit {
                    Some(p) => Some(p),
                    None => default_port_for_scheme(scheme),
                };
                match port {
                    Some(port) => Some(ParsedOrigin { scheme: string_of(scheme), host, port }),
                    None => None,
                }
            },
            None => {
                assert(authority@[0] != '[') by {
                    if authority@[0] == '[' {
                        assert(authority@.take(1) =~= "["@);
                    }
                }
                let implied = match default_port_for_scheme(scheme) {
                    Some(p) => Some(ParsedOrigin { scheme: string_of(scheme), host: string_of(authority), port: p }),
                    None => None,
                };
                match split_last_exec(authority, ':') {
                    Some((host, port)) => {
                        if !host.as_str().is_empty() {
                            match parse_u16(port.as_str()) {
                                Some(p) => Some(ParsedOrigin { scheme: string_of(scheme), host, port: p }),
                                None => None,
                            }
                        } else {
                            implied
                        }
                    },
                    None => implied,
                }
            },
        }
    }

    /// Whether `self` and `other` are the same origin.
    pub fn matches(&self, other: &Self) -> (r: bool)
        ensures
            r == origins_match(self@, other@),
    {
        self.port == other.port && eq_ignore_ascii_case(self.scheme.as_str(), other.scheme.as_str())
            && eq_ignore_ascii_case(self.host.as_str(), other.host.as_str())
    }
}

/// The headers of an admin request that its checks read. `origin` is `None`
/// when the header is absent and `Some(None)` when it is not valid text; the
/// other headers are `None` when absent or not valid text.
#[derive(Debug, Clone, PartialEq, Eq)]
pub struct AdminRequestHeaders {
    pub origin: Option<Option<String>>,
    pub host: Option<String>,
    pub forwarded_proto: Option<String>,
    pub forwarded_host: Option<String>,
    pub cookie: Option<String>,
}

/// The first comma-separated entry of a forwarding header, trimmed; a blank
/// entry counts as absent.
pub open spec fn forwarded_value_spec(value: Option<Seq<char>>) -> Option<Seq<char>> {
    match value {
        None => None,
        Some(v) => {
            let first = match split_first(v, ',') {
                Some((a, _)) => a,
                None => v,
            };
            if trim_spec(first).len() == 0 {
                None
            } else {
                Some(trim_spec(first))
            }
        },
    }
}

/// The view of an optional string.
pub open spec fn opt_s(o: Option<String>) -> Option<Seq<char>> {
    match o {
        Some(s) => Some(s@),
        None => None,
    }
}

pub fn forwarded_header_value(value: &Option<String>) -> (r: Option<String>)
    ensures
        opt_s(r) == forwarded_value_spec(opt_s(*value)),
{
    match value {
        None => None,
        Some(v) => {
            let first = match split_first_exec(v.as_str(), ',') {
                Some((a, _)) => a,
                None => string_of(v.as_str()),
            };
            let trimmed = trim(first.as_str());
            if trimmed.as_str().is_empty() {
                None
            } else {
                Some(trimmed)
            }
        },
    }
}

/// The origin the request was addressed to: the forwarded scheme (default
/// `http`) with the forwarded host, or else the `Host` header.
pub open spec fn request_origin_spec(
    forwarded_proto: Option<Seq<char>>,
    forwarded_host: Option<Seq<char>>,
    host: Option<Seq<char>>,
) -> Option<OriginView> {
    let scheme = match forwarded_value_spec(forwarded_proto) {
        Some(s) => s,
        None => "http"@,
    };
    let authority = match forwarded_value_spec(forwarded_host) {
        Some(a) => Some(a),
        None => host,
    };
    match authority {
        Some(a) => from_authority_spec(scheme, a),
        None => None,
    }
}

pub fn request_origin_from_headers(headers: &AdminRequestHeaders) -> (r: Option<ParsedOrigin>)
    ensures
        opt_origin(r) == request_origin_spec(
            opt_s(headers.forwarded_proto),
            opt_s(headers.forwarded_host),
            opt_s(headers.host),
        ),
{
    let scheme = match forwarded_header_value(&headers.forwarded_proto) {
        Some(s) => s,
        None => string_of("http"),
    };
    let authority = match forwarded_header_value(&headers.forwarded_host) {
        Some(a) => a,
        None => match &headers.host {
            Some(h) => h.clone(),
            None => return None,
        },
    };
    ParsedOrigin::from_authority(scheme.as_str(), authority.as_str())
}

/// The outcome of the same-origin check of a state-changing admin request.
pub open spec fn same_origin_spec(h: AdminRequestHeaders) -> Result<(), Seq<char>> {
    match h.origin {
        None => Err("origin header is required for POST requests"@),
        Some(None) => Err("origin header is invalid"@),
        Some(Some(o)) => match parse_origin_spec(o@) {
            None => Err("origin header is invalid"@),
            Some(parsed) => match request_origin_spec(
                opt_s(h.forwarded_proto),
                opt_s(h.forwarded_host),
                opt_s(h.host),
            ) {
                None => Err("host header is required for POST requests"@),
                Some(expected) => if origins_match(parsed, expected) {
                    Ok(())
                } else {
                    Err("origin header does not match an allowed admin host"@)
                },
            },
        },
    }
}

/// Requires that a state-changing request comes from the admin UI's own
/// origin: the `Origin` header must name the host (and scheme) the request
/// was addressed to, directly or through a reverse proxy. Refusals are
/// `Forbidden` with the reason.
pub fn require_same_origin(headers: &AdminRequestHeaders) -> (r: Result<(), ApiError>)
    ensures
        match same_origin_spec(*headers) {
            Ok(()) => r == Ok::<(), ApiError>(()),
            Err(m) => r matches Err(ApiError::Forbidden(e)) && e@ == m,
        },
{
    let origin = match &headers.origin {
        None => return Err(ApiError::Forbidden(string_of("origin header is required for POST requests"))),
        Some(None) => return Err(ApiError::Forbidden(string_of("origin header is invalid"))),
        Some(Some(o)) => o,
    };
    let parsed = match ParsedOrigin::parse(origin.as_str()) {
        Some(p) => p,
        None => return Err(ApiError::Forbidden(string_of("origin header is invalid"))),
    };
    let expected = match request_origin_from_headers(headers) {
        Some(e) => e,
        None => return Err(ApiError::Forbidden(string_of("host header is required for POST requests"))),
    };
    if parsed.matches(&expected) {
        Ok(())
    } else {
        Err(ApiError::Forbidden(string_of("origin header does not match an allowed admin host")))
    }
}

/// The value of the cookie `name` in one `;`-separated entry.
pub open spec fn cookie_entry(part: Seq<char>, name: Seq<char>) -> Option<Seq<char>> {
    match split_first(trim_spec(part), '=') {
        Some((n, v)) => if n == name {
            Some(v)
        } else {
            None
        },
        None => None,
    }
}

/// The value of the first entry for cookie `name` in a `Cookie` header.
pub open spec fn cookie_lookup(s: Seq<char>, name: Seq<char>) -> Option<Seq<char>>
    decreases s.len(),
{
    match split_first(s, ';') {
        Some((a, rest)) => {
            proof {
                lemma_index_of(s, ';');
            }
            match cookie_entry(a, name) {
                Some(v) => Some(v),
                None => cookie_lookup(rest, name),
            }
        },
        None => cookie_entry(s, name),
    }
}

fn cookie_entry_exec(part: &str, name: &str) -> (r: Option<String>)
    ensures
        opt_s(r) == cookie_entry(part@, name@),
{
    let trimmed = trim(part);
    match split_first_exec(trimmed.as_str(), '=') {
        Some((n, v)) => {
            if n == string_of(name) {
                Some(v)
            } else {
                None
            }
        },
        None => None,
    }
}

/// The value of the cookie `name` in the `Cookie` header, if present.
pub fn read_cookie(cookie_header: &Option<String>, name: &str) -> (r: Option<String>)
    ensures
        opt_s(r) == match opt_s(*cookie_header) {
            Some(h) => cookie_lookup(h, name@),
            None => None,
        },
{
    let raw = match cookie_header {
        Some(h) => h,
        None => return None,
    };
    let mut remaining = raw.clone();
    loop
        invariant
            opt_s(*cookie_header) == Some(raw@),
            cookie_lookup(raw@, name@) == cookie_lookup(remaining@, name@),
        decreases remaining@.len(),
    {
        proof {
            lemma_index_of(remaining@, ';');
        }
        match split_first_exec(remaining.as_str(), ';') {
            Some((part, rest)) => {
                match cookie_entry_exec(part.as_str(), name) {
                    Some(v) => return Some(v),
                    None => {},
                }
                remaining = rest;
            },
            None => return cookie_entry_exec(remaining.as_str(), name),
        }
    }
}

/// The `Set-Cookie` value that installs a session cookie.
pub fn session_cookie(cookie_value: &str) -> (r: String)
    ensures
        r@ == "floral_admin_session="@ + cookie_value@ + "; Path=/; HttpOnly; SameSite=Strict"@,
{
    concat3("floral_admin_session=", cookie_value, "; Path=/; HttpOnly; SameSite=Strict")
}

/// The `Set-Cookie` value that removes the session cookie.
pub fn cleared_session_cookie() -> (r: String)
    ensures
        r@ == "floral_admin_session=; Path=/; Max-Age=0; HttpOnly; SameSite=Strict"@,
{
    string_of("floral_admin_session=; Path=/; Max-Age=0; HttpOnly; SameSite=Strict")
}

/// The body of the session endpoints.
#[derive(Debug, Clone, PartialEq, Eq)]
pub struct SessionResponse {
    pub authenticated: bool,
    pub bootstrap_required: bool,
    pub password_configured: bool,
    pub expires_at: Option<Timestamp>,
}

/// The session state reported for a request: authenticated when it carries
/// valid session claims, with their expiry.
pub fn current_session_response(config: &ServerConfig, claims: &Option<AdminSessionClaims>) -> (r:
    SessionResponse)
    requires
        claims matches Some(c) ==> c.issued_at.secs <= i64::MAX - ADMIN_SESSION_TTL_SECONDS,
    ensures
        r.authenticated == claims is Some,
        r.bootstrap_required == (config.admin_password_hash is None),
        r.password_configured == (config.admin_password_hash is Some),
        match claims {
            Some(c) => r.expires_at matches Some(t) && (t.secs as int, t.nanos) == expires_at_spec(
                c.issued_at,
            ),
            None => r.expires_at is None,
        },
{
    SessionResponse {
        authenticated: claims.is_some(),
        bootstrap_required: bootstrap_required(config),
        password_configured: config.admin_password_hash.is_some(),
        expires_at: match claims {
            Some(c) => Some(c.expires_at()),
            None => None,
        },
    }
}

/// The session response after a successful login, bootstrap or password
/// change, for a session issued at `issued_at`.
pub fn issued_session_response(issued_at: Timestamp) -> (r: SessionResponse)
    requires
        issued_at.secs <= i64::MAX - ADMIN_SESSION_TTL_SECONDS,
    ensures
        r.authenticated,
        !r.bootstrap_required,
        r.password_configured,
        r.expires_at matches Some(t) && (t.secs as int, t.nanos) == expires_at_spec(issued_at),
{
    SessionResponse {
        authenticated: true,
        bootstrap_required: false,
        password_configured: true,
        expires_at: Some(Timestamp { secs: issued_at.secs + ADMIN_SESSION_TTL_SECONDS, nanos: issued_at.nanos }),
    }
}

/// The error an Argon2 verification failure is answered with.
pub open spec fn verify_failure(hash: Seq<char>, password: Seq<char>) -> Option<Seq<char>> {
    if password.len() == 0 {
        None
    } else {
        match spec_argon2_verify(hash, password) {
            Err(m) => Some(m),
            Ok(_) => None,
        }
    }
}

/// Whether `password` matches the Argon2 hash `hash` (an empty password never does).
pub open spec fn password_matches(hash: Seq<char>, password: Seq<char>) -> bool {
    password.len() > 0 && spec_argon2_verify(hash, password) == Ok::<bool, Seq<char>>(true)
}

/// Decides a login: refused with `Conflict` while the admin password is not
/// set up, `Unauthorized` for a wrong password, `BadRequest` when the stored
/// hash cannot be used.
pub fn check_login(config: &ServerConfig, password: &str) -> (r: Result<(), ApiError>)
    ensures
        config.admin_password_hash is None ==> (r matches Err(ApiError::Conflict(m)) && m@
            == "admin bootstrap must be completed before login"@),
        config.admin_password_hash matches Some(h) ==> {
            match verify_failure(h@, password@) {
                Some(m) => r matches Err(ApiError::BadRequest(e)) && e@ == "password hash error: "@ + m,
                None => if password_matches(h@, password@) {
                    r == Ok::<(), ApiError>(())
                } else {
                    r == Err::<(), ApiError>(ApiError::Unauthorized)
                },
            }
        },
{
    if bootstrap_required(config) {
        return Err(ApiError::Conflict(string_of("admin bootstrap must be completed before login")));
    }
    let hash = match &config.admin_password_hash {
        Some(h) => h,
        None => return Err(ApiError::Conflict(string_of("admin password is not configured"))),
    };
    match verify_admin_password(hash.as_str(), password) {
        Err(error) => Err(ApiError::BadRequest(error.message())),
        Ok(false) => Err(ApiError::Unauthorized),
        Ok(true) => Ok(()),
    }
}

/// Decides the one-time admin bootstrap: refused with `Conflict` once a
/// password is set; otherwise the new password's hash (an empty password is
/// a bad request), which is always produced for a password of at most
/// 2^30 - 1 characters.
pub fn check_bootstrap(config: &ServerConfig, password: &str) -> (r: Result<String, ApiError>)
    ensures
        config.admin_password_hash is Some ==> (r matches Err(ApiError::Conflict(m)) && m@
            == "admin bootstrap has already been completed"@),
        config.admin_password_hash is None && password@.len() == 0 ==> (r matches Err(
            ApiError::BadRequest(m),
        ) && m@ == "admin password must not be empty"@),
        config.admin_password_hash is None && password@.len() > 0 ==> (r is Ok || r matches Err(
            ApiError::BadRequest(_),
        )),
        config.admin_password_hash is None && 0 < password@.len() <= 0x3FFF_FFFF ==> r is Ok,
        r matches Ok(h) ==> password_matches(h@, password@),
{
    if !bootstrap_required(config) {
        return Err(ApiError::Conflict(string_of("admin bootstrap has already been completed")));
    }
    match hash_admin_password(password) {
        Ok(hash) => Ok(hash),
        Err(error) => Err(ApiError::BadRequest(error.message())),
    }
}

/// Decides a password change: it needs a configured password, a matching
/// confirmation and the correct current password; the result is the new
/// password's hash, which is always produced for a non-empty new password of
/// at most 2^30 - 1 characters.
pub fn check_password_change(
    config: &ServerConfig,
    current_password: &str,
    new_password: &str,
    confirm_password: &str,
) -> (r: Result<String, ApiError>)
    ensures
        config.admin_password_hash is None ==> (r matches Err(ApiError::Conflict(m)) && m@
            == "admin bootstrap must be completed before changing the password"@),
        config.admin_password_hash is Some && new_password@ != confirm_password@ ==> (r matches Err(
            ApiError::BadRequest(m),
        ) && m@ == "new password confirmation does not match"@),
        config.admin_password_hash matches Some(h) ==> (new_password@ == confirm_password@ ==> {
            match verify_failure(h@, current_password@) {
                Some(m) => r matches Err(ApiError::BadRequest(e)) && e@ == "password hash error: "@
                    + m,
                None => if !password_matches(h@, current_password@) {
                    r == Err::<String, ApiError>(ApiError::Unauthorized)
                } else if new_password@.len() == 0 {
                    r matches Err(ApiError::BadRequest(e)) && e@ == "admin password must not be empty"@
                } else if new_password@.len() <= 0x3FFF_FFFF {
                    r is Ok
                } else {
                    r is Ok || r matches Err(ApiError::BadRequest(_))
                },
            }
        }),
        r matches Ok(h) ==> password_matches(h@, new_password@),
{
    if bootstrap_required(config) {
        return Err(ApiError::Conflict(string_of("admin bootstrap must be completed before changing the password")));
    }
    if string_of(new_password) != string_of(confirm_password) {
        return Err(ApiError::BadRequest(string_of("new password confirmation does not match")));
    }
    let current_hash = match &config.admin_password_hash {
        Some(h) => h,
        None => return Err(ApiError::Conflict(string_of("admin password is not configured"))),
    };
    match verify_admin_password(current_hash.as_str(), current_password) {
        Err(error) => return Err(ApiError::BadRequest(error.message())),
        Ok(false) => return Err(ApiError::Unauthorized),
        Ok(true) => {},
    }
    match hash_admin_password(new_password) {
        Ok(hash) => Ok(hash),
        Err(error) => Err(ApiError::BadRequest(error.message())),
    }
}

/// The query of the notes archive endpoint: repeated `id` parameters and a
/// comma-separated `ids` list.
#[derive(Debug, Clone, PartialEq, Eq)]
pub struct NoteArchiveQuery {
    pub id: Vec<String>,
    pub ids: Option<String>,
}

/// `s` cut at every `c`, as `str::split` cuts it: one piece more than there
/// are separators.
pub open spec fn split_all(s: Seq<char>, c: char) -> Seq<Seq<char>>
    decreases s.len(),
{
    match split_first(s, c) {
        Some((a, rest)) => {
            proof {
                lemma_index_of(s, c);
            }
            seq![a] + split_all(rest, c)
        },
        None => seq![s],
    }
}

/// The note ids a query names, in order: the `id` parameters, then the
/// pieces of the `ids` list.
pub open spec fn raw_archive_ids(id: Seq<Seq<char>>, ids: Option<Seq<char>>) -> Seq<Seq<char>> {
    match ids {
        Some(list) => id + split_all(list, ','),
        None => id,
    }
}

/// The trimmed ids in first-seen order, without blanks and repeats.
pub open spec fn distinct_trimmed(raw: Seq<Seq<char>>) -> Seq<Seq<char>>
    decreases raw.len(),
{
    if raw.len() == 0 {
        Seq::empty()
    } else {
        let prev = distinct_trimmed(raw.drop_last());
        let t = trim_spec(raw.last());
        if t.len() == 0 || prev.contains(t) {
            prev
        } else {
            prev.push(t)
        }
    }
}

/// The pieces of `s` between the separators `c`.
fn split_all_exec(s: &str, c: char) -> (r: Vec<String>)
    ensures
        strs_view(r@) == split_all(s@, c),
{
    let mut out: Vec<String> = Vec::new();
    let mut remaining = string_of(s);
    loop
        invariant
            split_all(s@, c) == strs_view(out@) + split_all(remaining@, c),
        decreases remaining@.len(),
    {
        proof {
            lemma_index_of(remaining@, c);
        }
        match split_first_exec(remaining.as_str(), c) {
            Some((a, rest)) => {
                proof {
                    assert(strs_view(out@.push(a)) =~= strs_view(out@).push(a@));
                    assert(split_all(remaining@, c) == seq![a@] + split_all(rest@, c));
                    assert(strs_view(out@) + split_all(remaining@, c) =~= strs_view(out@).push(a@)
                        + split_all(rest@, c));
                }
                out.push(a);
                remaining = rest;
            },
            None => {
                proof {
                    assert(strs_view(out@.push(remaining)) =~= strs_view(out@) + seq![remaining@]);
                }
                out.push(remaining);
                return out;
            },
        }
    }
}

/// The note ids an archive request selects: every `id` parameter and every
/// piece of the comma-separated `ids`, trimmed, without blanks and without
/// repeats, in the order first seen.
pub fn normalize_archive_note_ids(query: NoteArchiveQuery) -> (r: Vec<String>)
    ensures
        strs_view(r@) == distinct_trimmed(
            raw_archive_ids(strs_view(query.id@), opt_s(query.ids)),
        ),
{
    let mut raw_ids = query.id;
    match &query.ids {
        Some(list) => {
            let mut pieces = split_all_exec(list.as_str(), ',');
            proof {
                assert(strs_view(raw_ids@ + pieces@) =~= strs_view(raw_ids@) + strs_view(pieces@));
            }
            raw_ids.append(&mut pieces);
        },
        None => {},
    }
    let ghost raw = strs_view(raw_ids@);
    let mut normalized: Vec<String> = Vec::new();
    for i in 0..raw_ids.len()
        invariant
            raw == strs_view(raw_ids@),
            strs_view(normalized@) == distinct_trimmed(raw.take(i as int)),
    {
        proof {
            assert(raw.take(i + 1int).drop_last() =~= raw.take(i as int));
            assert(raw.take(i + 1int).last() == raw_ids@[i as int]@);
        }
        let trimmed = trim(raw_ids[i].as_str());
        if !trimmed.as_str().is_empty() && !contains_string(&normalized, &trimmed) {
            proof {
                assert(strs_view(normalized@.push(trimmed)) =~= strs_view(normalized@).push(trimmed@));
            }
            normalized.push(trimmed);
        }
    }
    proof {
        assert(raw.take(raw.len() as int) =~= raw);
    }
    normalized
}

/// The ids of an archive request hold no blank and no repeat, and each is
/// trimmed.
pub proof fn lemma_archive_ids_distinct(raw: Seq<Seq<char>>)
    ensures
        forall|i: int, j: int|
            0 <= i < j < distinct_trimmed(raw).len() ==> distinct_trimmed(raw)[i]
                != distinct_trimmed(raw)[j],
        forall|i: int|
            0 <= i < distinct_trimmed(raw).len() ==> (#[trigger] distinct_trimmed(raw)[i]).len() > 0
                && trim_spec(distinct_trimmed(raw)[i]) == distinct_trimmed(raw)[i],
    decreases raw.len(),
{
    if raw.len() > 0 {
        lemma_archive_ids_distinct(raw.drop_last());
        let prev = distinct_trimmed(raw.drop_last());
        let t = trim_spec(raw.last());
        lemma_trim_shape(raw.last());
        if !(t.len() == 0 || prev.contains(t)) {
            let cur = prev.push(t);
            assert forall|i: int, j: int| 0 <= i < j < cur.len() implies cur[i] != cur[j] by {
                if j == cur.len() - 1 {
                    assert(cur[i] == prev[i]);
                }
            }
        }
    }
}

/// The stem and extension a repeated archive file name is numbered around:
/// split at its last `.` when the part before it is not empty.
pub open spec fn archive_name_parts(name: Seq<char>) -> (Seq<char>, Option<Seq<char>>) {
    match split_last(name, '.') {
        Some((stem, ext)) => if stem.len() > 0 {
            (stem, Some(ext))
        } else {
            (name, None)
        },
        None => (name, None),
    }
}

/// `stem-k.ext`, or `stem-k` without an extension.
pub open spec fn numbered_name(stem: Seq<char>, ext: Option<Seq<char>>, k: nat) -> Seq<char> {
    match ext {
        Some(e) => stem + "-"@ + decimal_spec(k) + "."@ + e,
        None => stem + "-"@ + decimal_spec(k),
    }
}

/// `k` is the first number from 2 on whose numbered name is still free.
pub open spec fn is_first_free(stem: Seq<char>, ext: Option<Seq<char>>, used: Seq<Seq<char>>, k: nat) -> bool {
    &&& 2 <= k
    &&& !used.contains(numbered_name(stem, ext, k))
    &&& forall|j: nat| 2 <= j < k ==> used.contains(#[trigger] numbered_name(stem, ext, j))
}

/// The name an archive entry gets: its own when still free, else the first
/// free numbered variant from 2 on.
pub open spec fn unique_name_spec(name: Seq<char>, used: Seq<Seq<char>>) -> Seq<char> {
    if !used.contains(name) {
        name
    } else {
        let (stem, ext) = archive_name_parts(name);
        numbered_name(stem, ext, choose|k: nat| is_first_free(stem, ext, used, k))
    }
}

/// Distinct numbers give distinct numbered names.
proof fn lemma_numbered_injective(stem: Seq<char>, ext: Option<Seq<char>>, a: nat, b: nat)
    requires
        numbered_name(stem, ext, a) == numbered_name(stem, ext, b),
    ensures
        a == b,
{
    reveal_strlit("-");
    reveal_strlit(".");
    let p: int = stem.len() + 1int;
    let da = decimal_spec(a);
    let db = decimal_spec(b);
    let sa = numbered_name(stem, ext, a);
    let sb = numbered_name(stem, ext, b);
    match ext {
        Some(e) => {
            assert(sa.len() == p + da.len() + 1 + e.len());
            assert(sb.len() == p + db.len() + 1 + e.len());
            assert(sa.subrange(p, p + da.len() as int) =~= da);
            assert(sb.subrange(p, p + db.len() as int) =~= db);
        },
        None => {
            assert(sa.subrange(p, sa.len() as int) =~= da);
            assert(sb.subrange(p, sb.len() as int) =~= db);
        },
    }
    lemma_decimal_injective(a, b);
}

/// Among the numbers 2 to `used.len() + 2`, one gives a free numbered name:
/// those names are all distinct and `used` holds fewer of them.
proof fn lemma_some_name_free(stem: Seq<char>, ext: Option<Seq<char>>, used: Seq<Seq<char>>)
    ensures
        exists|k: nat| 2 <= k < used.len() + 3 && !used.contains(#[trigger] numbered_name(stem, ext, k)),
{
    let n: int = used.len() as int;
    if forall|k: nat| 2 <= k < n + 3 ==> used.contains(#[trigger] numbered_name(stem, ext, k)) {
        let x = set_int_range(2, n + 3);
        let f = |k: int| numbered_name(stem, ext, k as nat);
        lemma_int_range(2, n + 3);
        assert forall|a: int, b: int| x.contains(a) && x.contains(b) && #[trigger] f(a) == #[trigger] f(b) implies a == b by {
            lemma_numbered_injective(stem, ext, a as nat, b as nat);
        }
        assert(injective_on(f, x));
        let y = x.map(f);
        lemma_map_size(x, y, f);
        assert forall|s: Seq<char>| y.contains(s) implies used.to_set().contains(s) by {
            let k = choose|k: int| x.contains(k) && f(k) == s;
            assert(used.contains(numbered_name(stem, ext, k as nat)));
        }
        used.lemma_cardinality_of_set();
        lemma_len_subset(y, used.to_set());
        assert(false);
    }
}

/// A first free number exists, and it is the one `unique_name_spec` picks.
proof fn lemma_first_free_unique(stem: Seq<char>, ext: Option<Seq<char>>, used: Seq<Seq<char>>, k: nat)
    requires
        is_first_free(stem, ext, used, k),
    ensures
        (choose|j: nat| is_first_free(stem, ext, used, j)) == k,
{
    let c = choose|j: nat| is_first_free(stem, ext, used, j);
    assert(is_first_free(stem, ext, used, c));
    if c < k {
        assert(used.contains(numbered_name(stem, ext, c)));
    }
    if k < c {
        assert(used.contains(numbered_name(stem, ext, k)));
    }
}

/// The name `unique_name_spec` gives is not among the used ones.
pub proof fn lemma_unique_name_is_fresh(name: Seq<char>, used: Seq<Seq<char>>)
    ensures
        !used.contains(unique_name_spec(name, used)),
{
    if used.contains(name) {
        let (stem, ext) = archive_name_parts(name);
        lemma_some_name_free(stem, ext, used);
        let w = choose|k: nat| 2 <= k < used.len() + 3 && !used.contains(#[trigger] numbered_name(stem, ext, k));
        lemma_first_free_exists(stem, ext, used, w);
    }
}

/// Below a free number there is a first free one.
proof fn lemma_first_free_exists(stem: Seq<char>, ext: Option<Seq<char>>, used: Seq<Seq<char>>, w: nat)
    requires
        2 <= w,
        !used.contains(numbered_name(stem, ext, w)),
    ensures
        exists|k: nat| is_first_free(stem, ext, used, k),
        is_first_free(stem, ext, used, choose|k: nat| is_first_free(stem, ext, used, k)),
    decreases w,
{
    if forall|j: nat| 2 <= j < w ==> used.contains(#[trigger] numbered_name(stem, ext, j)) {
        assert(is_first_free(stem, ext, used, w));
    } else {
        let j = choose|j: nat| 2 <= j < w && !used.contains(#[trigger] numbered_name(stem, ext, j));
        lemma_first_free_exists(stem, ext, used, j);
    }
}

/// `stem-k.ext` (or `stem-k`).
fn numbered_name_exec(stem: &String, ext: &Option<String>, k: u64) -> (r: String)
    ensures
        r@ == numbered_name(stem@, opt_s(*ext), k as nat),
{
    let digits = u64_to_decimal(k);
    let base = concat3(stem.as_str(), "-", digits.as_str());
    match ext {
        Some(e) => concat3(base.as_str(), ".", e.as_str()),
        None => base,
    }
}

/// The name under which a file goes into an archive that already holds the
/// `used_file_names`: the file's own name when it is free, else the first
/// free `stem-2.ext`, `stem-3.ext`, ...; the name is then recorded as used.
pub fn unique_archive_file_name(file_name: &str, used_file_names: &mut Vec<String>) -> (r: String)
    requires
        old(used_file_names)@.len() + 3 <= u64::MAX,
    ensures
        r@ == unique_name_spec(file_name@, strs_view(old(used_file_names)@)),
        strs_view(final(used_file_names)@) == strs_view(old(used_file_names)@).push(r@),
{
    let name = string_of(file_name);
    if !contains_string(used_file_names, &name) {
        let r = name.clone();
        proof {
            assert(strs_view(used_file_names@.push(name)) =~= strs_view(used_file_names@).push(name@));
        }
        used_file_names.push(name);
        return r;
    }
    let parts: (String, Option<String>) = match split_last_exec(file_name, '.') {
        Some((stem, ext)) => {
            if !stem.as_str().is_empty() {
                (stem, Some(ext))
            } else {
                (name.clone(), None)
            }
        },
        None => (name.clone(), None),
    };
    let (stem, ext) = parts;
    let ghost used = strs_view(used_file_names@);
    let ghost n = used.len();
    proof {
        assert(archive_name_parts(file_name@) == (stem@, opt_s(ext)));
        lemma_some_name_free(stem@, opt_s(ext), used);
    }
    let mut suffix: u64 = 2;
    loop
        invariant
            used == strs_view(used_file_names@),
            used == strs_view(old(used_file_names)@),
            n == used.len(),
            n + 3 <= u64::MAX,
            used.contains(file_name@),
            archive_name_parts(file_name@) == (stem@, opt_s(ext)),
            2 <= suffix <= n + 2,
            forall|j: nat| 2 <= j < suffix ==> used.contains(#[trigger] numbered_name(stem@, opt_s(ext), j)),
            exists|k: nat| 2 <= k < n + 3 && !used.contains(#[trigger] numbered_name(stem@, opt_s(ext), k)),
        decreases n + 3 - suffix,
    {
        let candidate = numbered_name_exec(&stem, &ext, suffix);
        if !contains_string(used_file_names, &candidate) {
            proof {
                assert(is_first_free(stem@, opt_s(ext), used, suffix as nat));
                lemma_first_free_unique(stem@, opt_s(ext), used, suffix as nat);
                assert(strs_view(used_file_names@.push(candidate)) =~= used.push(candidate@));
            }
            let r = candidate.clone();
            used_file_names.push(candidate);
            return r;
        }
        proof {
            let w = choose|k: nat| 2 <= k < n + 3 && !used.contains(#[trigger] numbered_name(stem@, opt_s(ext), k));
            assert(w >= suffix + 1);
        }
        suffix = suffix + 1;
    }
}

/// The names a list of files gets in an archive, each made unique against
/// the names given before it.
pub open spec fn archive_entry_names(files: Seq<Seq<char>>) -> Seq<Seq<char>>
    decreases files.len(),
{
    if files.len() == 0 {
        Seq::empty()
    } else {
        let prev = archive_entry_names(files.drop_last());
        prev.push(unique_name_spec(files.last(), prev))
    }
}

/// The file names of the downloads.
pub open spec fn download_names(downloads: Seq<MarkdownDownload>) -> Seq<Seq<char>> {
    downloads.map_values(|d: MarkdownDownload| d.file_name@)
}

/// The archive names are as many as the files and pairwise distinct.
pub proof fn lemma_archive_names_distinct(files: Seq<Seq<char>>)
    ensures
        archive_entry_names(files).len() == files.len(),
        forall|i: int, j: int|
            0 <= i < j < files.len() ==> archive_entry_names(files)[i] != archive_entry_names(files)[j],
    decreases files.len(),
{
    if files.len() > 0 {
        lemma_archive_names_distinct(files.drop_last());
        let prev = archive_entry_names(files.drop_last());
        let cur = archive_entry_names(files);
        lemma_unique_name_is_fresh(files.last(), prev);
        assert forall|i: int, j: int| 0 <= i < j < files.len() implies cur[i] != cur[j] by {
            if j == files.len() - 1 {
                assert(cur[i] == prev[i]);
                assert(prev.contains(prev[i]));
            }
        }
    }
}

/// The names the downloads get in an archive: each download's own file name,
/// numbered where an earlier download already took it.
pub fn archive_file_names(downloads: &Vec<MarkdownDownload>) -> (r: Vec<String>)
    requires
        downloads@.len() + 3 <= u64::MAX,
    ensures
        strs_view(r@) == archive_entry_names(download_names(downloads@)),
{
    let ghost files = download_names(downloads@);
    let mut used: Vec<String> = Vec::new();
    for i in 0..downloads.len()
        invariant
            files == download_names(downloads@),
            downloads@.len() + 3 <= u64::MAX,
            strs_view(used@) == archive_entry_names(files.take(i as int)),
            used@.len() == i,
    {
        proof {
            assert(files.take(i + 1int).drop_last() =~= files.take(i as int));
            assert(files.take(i + 1int).last() == downloads@[i as int].file_name@);
        }
        let _name = unique_archive_file_name(downloads[i].file_name.as_str(), &mut used);
        assert(used@.len() == strs_view(used@).len());
    }
    proof {
        assert(files.take(downloads@.len() as int) =~= files);
    }
    used
}

/// A notes archive: its download file name and its bytes.
#[derive(Debug, Clone, PartialEq, Eq)]
pub struct NotesArchive {
    pub file_name: String,
    pub bytes: Vec<u8>,
}

/// The entries written into a notes archive: each download under its unique
/// name, its Markdown written in one piece.
pub open spec fn archive_entries(downloads: Seq<MarkdownDownload>) -> Seq<(Seq<char>, Seq<Seq<char>>)> {
    let names = archive_entry_names(download_names(downloads));
    Seq::new(downloads.len(), |i: int| (names[i], seq![downloads[i].markdown@]))
}

/// The download name of a notes archive stamped with the given time.
pub open spec fn archive_download_name(stamp: Seq<char>) -> Seq<char> {
    "floral-sync-notes-"@ + stamp + ".zip"@
}

/// Every download's Markdown is small enough for its ZIP entry.
pub open spec fn archive_texts_fit(downloads: Seq<MarkdownDownload>) -> bool {
    forall|i: int| 0 <= i < downloads.len() ==> zip_text_fits(#[trigger] downloads[i].markdown@)
}

/// Packs the downloads into a Deflate-compressed ZIP archive, one entry per
/// download under its unique name, and names the archive after `now`. It
/// succeeds whenever `now` can be formatted and every Markdown text fits in
/// an entry.
pub fn build_notes_archive(downloads: &Vec<MarkdownDownload>, now: Timestamp) -> (r: Result<
    NotesArchive,
    ApiError,
>)
    requires
        downloads@.len() + 3 <= u64::MAX,
    ensures
        match r {
            Ok(a) => {
                &&& spec_file_stamp(now.secs, now.nanos) matches Some(stamp)
                &&& a.file_name@ == archive_download_name(stamp)
                &&& a.bytes@ == spec_zip_archive(archive_entries(downloads@))
            },
            Err(e) => e is Internal || e is Io,
        },
        spec_file_stamp(now.secs, now.nanos) is None ==> (r matches Err(ApiError::Internal(m)) && m@
            == "current time cannot be formatted"@),
        spec_file_stamp(now.secs, now.nanos) is Some && archive_texts_fit(downloads@) ==> r is Ok,
{
    let stamp = match now.file_stamp() {
        Some(stamp) => stamp,
        None => return Err(ApiError::Internal(string_of("current time cannot be formatted"))),
    };
    let names = archive_file_names(downloads);
    let ghost entries = archive_entries(downloads@);
    proof {
        lemma_archive_names_distinct(download_names(downloads@));
    }
    let mut zip = zip_writer_new();
    for i in 0..downloads.len()
        invariant
            names@.len() == downloads@.len(),
            strs_view(names@) == archive_entry_names(download_names(downloads@)),
            entries == archive_entries(downloads@),
            zip_entries(zip) == entries.take(i as int),
            archive_texts_fit(downloads@) ==> zip_can_continue(zip_entries(zip)),
            spec_file_stamp(now.secs, now.nanos) == Some(stamp@),
    {
        zip = match zip_start_file(zip, names[i].as_str()) {
            Ok(started) => started,
            Err(message) => return Err(ApiError::Internal(message)),
        };
        assert(zip_entries(zip).last().1.len() == 0);
        zip = match zip_write_text(zip, downloads[i].markdown.as_str()) {
            Ok(written) => written,
            Err(message) => return Err(ApiError::Io(message)),
        };
        proof {
            assert(strs_view(names@)[i as int] == names@[i as int]@);
            assert(zip_entries(zip) =~= entries.take(i + 1int));
            if archive_texts_fit(downloads@) {
                assert(zip_text_fits(downloads@[i as int].markdown@));
                assert(zip_entries(zip).last().1 =~= seq![downloads@[i as int].markdown@]);
            }
        }
    }
    proof {
        assert(entries.take(downloads@.len() as int) =~= entries);
    }
    let bytes = match zip_finish(zip) {
        Ok(b) => b,
        Err(message) => return Err(ApiError::Internal(message)),
    };
    Ok(NotesArchive { file_name: concat3("floral-sync-notes-", stamp.as_str(), ".zip"), bytes })
}

/// A `zip::ZipWriter` writing into an in-memory `std::io::Cursor<Vec<u8>>`,
/// held in a private field; what it holds is named by `zip_entries`. The
/// wrappers below take the writer by value and give it back only on
/// success, so a writer that failed is never used again.
#[verifier::external_body]
pub struct ZipBuffer {
    writer: zip::ZipWriter<std::io::Cursor<Vec<u8>>>,
}

/// The entries a `ZipWriter` has been given so far: for each file started,
/// its name and the pieces of text written into it, in order.
pub uninterp spec fn zip_entries(w: ZipBuffer) -> Seq<(Seq<char>, Seq<Seq<char>>)>;

/// The bytes `ZipWriter::finish` produces for the given entries, each stored
/// with Deflate compression, default permissions and the default
/// modification time.
pub uninterp spec fn spec_zip_archive(entries: Seq<(Seq<char>, Seq<Seq<char>>)>) -> Seq<u8>;

/// A text that fits in one ZIP entry written without the large-file option:
/// at most 2^29 characters, hence at most 2^31 bytes of UTF-8, and (Deflate
/// falling back to stored blocks of a few bytes' overhead) a compressed size
/// well below zip's 4 GiB limit for such an entry.
pub open spec fn zip_text_fits(text: Seq<char>) -> bool {
    text.len() <= 0x2000_0000
}

/// Starting another entry, or finishing, succeeds: no entry was started, or
/// the last one holds at most one piece of text, which fits.
pub open spec fn zip_can_continue(entries: Seq<(Seq<char>, Seq<Seq<char>>)>) -> bool {
    entries.len() == 0 || (entries.last().1.len() <= 1 && (entries.last().1.len() == 1
        ==> zip_text_fits(entries.last().1[0])))
}

/// `ZipWriter::new` over an empty `Cursor<Vec<u8>>`: no entries yet.
#[verifier::external_body]
fn zip_writer_new() -> (w: ZipBuffer)
    ensures
        zip_entries(w) == Seq::<(Seq<char>, Seq<Seq<char>>)>::empty(),
{
    ZipBuffer { writer: zip::ZipWriter::new(std::io::Cursor::new(Vec::new())) }
}

/// `ZipWriter::start_file` with Deflate compression and otherwise default
/// options. It finishes the previous entry, which on an in-memory writer
/// fails only when that entry passed the size limit; on success the writer
/// holds one more entry, with the given name and nothing written yet. The
/// error is returned as its text.
#[verifier::external_body]
fn zip_start_file(w: ZipBuffer, name: &str) -> (r: Result<ZipBuffer, String>)
    ensures
        zip_can_continue(zip_entries(w)) ==> r is Ok,
        r matches Ok(started) ==> zip_entries(started) == zip_entries(w).push(
            (name@, Seq::<Seq<char>>::empty()),
        ),
{
    let mut w = w;
    let options = zip::write::FileOptions::default().compression_method(zip::CompressionMethod::Deflated);
    match w.writer.start_file(name, options) {
        Ok(()) => Ok(w),
        Err(error) => Err(error.to_string()),
    }
}

/// `std::io::Write::write_all` of the text's UTF-8 bytes into the current
/// entry, which must have been started. On an in-memory writer it fails only
/// when the entry passes the size limit; on success the text is one more
/// piece of the last entry (an empty text writes nothing).
#[verifier::external_body]
fn zip_write_text(w: ZipBuffer, text: &str) -> (r: Result<ZipBuffer, String>)
    requires
        zip_entries(w).len() > 0,
    ensures
        zip_entries(w).last().1.len() == 0 && zip_text_fits(text@) ==> r is Ok,
        r matches Ok(written) ==> {
            let before = zip_entries(w);
            zip_entries(written) == before.update(
                before.len() - 1,
                (before.last().0, before.last().1.push(text@)),
            )
        },
{
    let mut w = w;
    match std::io::Write::write_all(&mut w.writer, text.as_bytes()) {
        Ok(()) => Ok(w),
        Err(error) => Err(error.to_string()),
    }
}

/// `ZipWriter::finish`, then `Cursor::into_inner`: the finished archive's
/// bytes, a function of the entries written. It finishes the last entry,
/// which on an in-memory writer fails only when that entry passed the size
/// limit; the error is returned as its text.
#[verifier::external_body]
fn zip_finish(w: ZipBuffer) -> (r: Result<Vec<u8>, String>)
    ensures
        zip_can_continue(zip_entries(w)) ==> r is Ok,
        r matches Ok(bytes) ==> bytes@ == spec_zip_archive(zip_entries(w)),
{
    let mut w = w;
    match w.writer.finish() {
        Ok(cursor) => Ok(cursor.into_inner()),
        Err(error) => Err(error.to_string()),
    }
}

/// The body of the settings endpoints.
#[derive(Debug, Clone, PartialEq, Eq)]
pub struct SettingsResponse {
    pub sync_listen: Vec<String>,
    pub admin_listen: Vec<String>,
    pub db_path: String,
    pub export_dir: String,
    pub log_path: String,
    pub log_level: String,
    pub sync_token: String,
    pub sync_token_configured: bool,
    pub admin_password_configured: bool,
    pub admin_session_secret_configured: bool,
    pub pending_restart_fields: Vec<String>,
}

/// The settings shown to the admin: the configuration in effect, which
/// secrets are configured, and the settings that wait for a restart.
pub fn settings_response(snapshot: &RuntimeConfigSnapshot) -> (r: SettingsResponse)
    ensures
        strs_view(r.sync_listen@) == strs_view(snapshot.effective.sync_listen@),
        strs_view(r.admin_listen@) == strs_view(snapshot.effective.admin_listen@),
        r.db_path@ == snapshot.effective.db_path@,
        r.export_dir@ == snapshot.effective.export_dir@,
        r.log_path@ == snapshot.effective.log_path@,
        r.log_level@ == snapshot.effective.log_level@,
        r.sync_token@ == snapshot.effective.sync_token@,
        r.sync_token_configured == !is_blank(snapshot.effective.sync_token@),
        r.admin_password_configured == snapshot.effective.admin_password_hash is Some,
        r.admin_session_secret_configured == !is_blank(snapshot.effective.admin_session_secret@),
        strs_view(r.pending_restart_fields@) == strs_view(snapshot.pending_restart_fields@),
{
    let config = &snapshot.effective;
    SettingsResponse {
        sync_listen: clone_strings(&config.sync_listen),
        admin_listen: clone_strings(&config.admin_listen),
        db_path: string_of(config.db_path.as_str()),
        export_dir: string_of(config.export_dir.as_str()),
        log_path: string_of(config.log_path.as_str()),
        log_level: string_of(config.log_level.as_str()),
        sync_token: string_of(config.sync_token.as_str()),
        sync_token_configured: !is_blank_str(config.sync_token.as_str()),
        admin_password_configured: config.admin_password_hash.is_some(),
        admin_session_secret_configured: !is_blank_str(config.admin_session_secret.as_str()),
        pending_restart_fields: clone_strings(&snapshot.pending_restart_fields),
    }
}

/// The one-line summary of recent activity on the overview page.
pub open spec fn activity_summary_spec(latest_snapshot_at: Option<Timestamp>) -> Option<Seq<char>> {
    match latest_snapshot_at {
        Some(t) => match spec_rfc3339(t.secs, t.nanos) {
            Some(text) => Some("Latest snapshot captured at "@ + text),
            None => None,
        },
        None => Some("No note snapshots have been captured yet"@),
    }
}

/// Describes when the latest note snapshot was taken; `None` only where the
/// snapshot time cannot be written as RFC 3339.
pub fn recent_activity_summary(summary: &AdminOverview) -> (r: Option<String>)
    ensures
        opt_s(r) == activity_summary_spec(summary.latest_snapshot_at),
{
    match &summary.latest_snapshot_at {
        Some(timestamp) => match timestamp.to_rfc3339() {
            Some(text) => Some(concat2("Latest snapshot captured at ", text.as_str())),
            None => None,
        },
        None => Some(string_of("No note snapshots have been captured yet")),
    }
}

/// The body of the overview endpoint.
#[derive(Debug, Clone, PartialEq, Eq)]
pub struct OverviewResponse {
    pub latest_revision: u64,
    pub note_count: u64,
    pub deleted_note_count: u64,
    pub category_count: u64,
    pub latest_snapshot_at: Option<Timestamp>,
    pub sync_listen: Vec<String>,
    pub admin_listen: Vec<String>,
    pub db_path: String,
    pub export_dir: String,
    pub log_path: String,
    pub log_level: String,
    pub recent_activity_summary: String,
}

/// The overview: the store's counters, the configuration in effect and the
/// activity summary; `None` where the summary cannot be written.
pub fn overview_response(config: &ServerConfig, summary: &AdminOverview) -> (r: Option<OverviewResponse>)
    ensures
        r is Some <==> activity_summary_spec(summary.latest_snapshot_at) is Some,
        r matches Some(o) ==> {
            &&& o.latest_revision == summary.latest_revision
            &&& o.note_count == summary.note_count
            &&& o.deleted_note_count == summary.deleted_note_count
            &&& o.category_count == summary.category_count
            &&& o.latest_snapshot_at == summary.latest_snapshot_at
            &&& strs_view(o.sync_listen@) == strs_view(config.sync_listen@)
            &&& strs_view(o.admin_listen@) == strs_view(config.admin_listen@)
            &&& o.db_path@ == config.db_path@
            &&& o.export_dir@ == config.export_dir@
            &&& o.log_path@ == config.log_path@
            &&& o.log_level@ == config.log_level@
            &&& Some(o.recent_activity_summary@) == activity_summary_spec(summary.latest_snapshot_at)
        },
{
    let activity = match recent_activity_summary(summary) {
        Some(text) => text,
        None => return None,
    };
    Some(OverviewResponse {
        latest_revision: summary.latest_revision,
        note_count: summary.note_count,
        deleted_note_count: summary.deleted_note_count,
        category_count: summary.category_count,
        latest_snapshot_at: summary.latest_snapshot_at,
        sync_listen: clone_strings(&config.sync_listen),
        admin_listen: clone_strings(&config.admin_listen),
        db_path: string_of(config.db_path.as_str()),
        export_dir: string_of(config.export_dir.as_str()),
        log_path: string_of(config.log_path.as_str()),
        log_level: string_of(config.log_level.as_str()),
        recent_activity_summary: activity,
    })
}

/// The kind of one component of a path, as `std::path::Component` tells
/// them apart.
#[derive(Debug, Clone, Copy, PartialEq, Eq, Structural)]
pub enum PathComponentKind {
    Prefix,
    RootDir,
    CurDir,
    ParentDir,
    Normal,
}

/// The kinds of the components `std::path::Path::components` yields for a
/// text, in order.
pub uninterp spec fn spec_path_component_kinds(path: Seq<char>) -> Seq<PathComponentKind>;

/// Runs `std::path::Path::components` over the text and gives the kind of
/// each component, in order; the answer is the named result.
#[verifier::external_body]
fn path_component_kinds(path: &str) -> (r: Vec<PathComponentKind>)
    ensures
        r@ == spec_path_component_kinds(path@),
{
    let mut kinds = Vec::new();
    for component in std::path::Path::new(path).components() {
        kinds.push(match component {
            std::path::Component::Prefix(_) => PathComponentKind::Prefix,
            std::path::Component::RootDir => PathComponentKind::RootDir,
            std::path::Component::CurDir => PathComponentKind::CurDir,
            std::path::Component::ParentDir => PathComponentKind::ParentDir,
            std::path::Component::Normal(_) => PathComponentKind::Normal,
        });
    }
    kinds
}

/// A backup's name is acceptable when its path has exactly one component and
/// that component is a plain name (no root, no `.` or `..`).
pub open spec fn is_plain_file_name(kinds: Seq<PathComponentKind>) -> bool {
    kinds.len() == 1 && kinds[0] == PathComponentKind::Normal
}

/// Whether the text is a single plain file name, judged by its path components.
pub fn is_single_normal_component(name: &str) -> (r: bool)
    ensures
        r == is_plain_file_name(spec_path_component_kinds(name@)),
{
    let kinds = path_component_kinds(name);
    kinds.len() == 1 && kinds[0] == PathComponentKind::Normal
}

/// Where a backup named by the admin would lie: the trimmed name joined to
/// the export directory. The name must not be blank and must be a single
/// plain file name; whether the file exists is for the caller to check.
pub fn resolve_backup_path(export_dir: &str, file_name: &str) -> (r: Result<String, ApiError>)
    ensures
        is_blank(file_name@) ==> (r matches Err(ApiError::BadRequest(m)) && m@
            == "backup file name is required"@),
        !is_blank(file_name@) && !is_plain_file_name(spec_path_component_kinds(trim_spec(file_name@))) ==> (r matches Err(
            ApiError::BadRequest(m),
        ) && m@ == "backup file name must not include path segments"@),
        !is_blank(file_name@) && is_plain_file_name(spec_path_component_kinds(trim_spec(file_name@))) ==> (r matches Ok(
            p,
        ) && p@ == spec_path_join(export_dir@, trim_spec(file_name@))),
{
    let trimmed = trim(file_name);
    if trimmed.as_str().is_empty() {
        return Err(ApiError::BadRequest(string_of("backup file name is required")));
    }
    if !is_single_normal_component(trimmed.as_str()) {
        return Err(ApiError::BadRequest(string_of("backup file name must not include path segments")));
    }
    Ok(path_join(export_dir, trimmed.as_str()))
}

/// The file name of a database backup taken at the given time, if the time
/// can be formatted.
pub fn backup_file_name(now: Timestamp) -> (r: Option<String>)
    ensures
        match spec_file_stamp(now.secs, now.nanos) {
            Some(stamp) => r matches Some(n) && n@ == "floral-sync-"@ + stamp + ".sqlite3"@,
            None => r is None,
        },
{
    match now.file_stamp() {
        Some(stamp) => Some(concat3("floral-sync-", stamp.as_str(), ".sqlite3")),
        None => None,
    }
}

/// The number of log lines shown when the request names no limit.
pub const DEFAULT_LOG_LINES: usize = 200;

/// The most log lines one request may ask for.
pub const MAX_LOG_LINES: usize = 1000;

/// A line as `str::lines` yields it: without the `\r` of a `\r\n` ending.
pub open spec fn strip_cr(line: Seq<char>) -> Seq<char> {
    if line.len() > 0 && line.last() == '\r' {
        line.drop_last()
    } else {
        line
    }
}

/// The lines of a text as `str::lines` yields them: split at each `\n`, a
/// `\r` before the `\n` dropped, and no empty line after a final `\n`.
pub open spec fn lines_spec(s: Seq<char>) -> Seq<Seq<char>>
    decreases s.len(),
{
    if s.len() == 0 {
        Seq::empty()
    } else {
        match split_first(s, '\n') {
            Some((line, rest)) => {
                proof {
                    lemma_index_of(s, '\n');
                }
                seq![strip_cr(line)] + lines_spec(rest)
            },
            None => seq![s],
        }
    }
}

/// The requested number of log lines: 200 by default, clamped to `1..=1000`.
pub open spec fn log_limit_spec(limit: Option<usize>) -> int {
    let l = match limit {
        Some(l) => l,
        None => DEFAULT_LOG_LINES,
    };
    if l < 1 {
        1
    } else if l > MAX_LOG_LINES {
        MAX_LOG_LINES as int
    } else {
        l as int
    }
}

/// The last lines of a log, as many as the clamped limit allows.
pub open spec fn log_tail_spec(contents: Seq<char>, limit: Option<usize>) -> Seq<Seq<char>> {
    let lines = lines_spec(contents);
    let n = log_limit_spec(limit);
    if lines.len() > n {
        lines.skip(lines.len() - n)
    } else {
        lines
    }
}

/// The line `s` ends with `\r` dropped when it does.
fn strip_cr_exec(line: String) -> (r: String)
    ensures
        r@ == strip_cr(line@),
{
    let n = line.as_str().unicode_len();
    if n > 0 && line.as_str().get_char(n - 1) == '\r' {
        line.as_str().substring_char(0, n - 1).to_owned()
    } else {
        line
    }
}

/// The lines of a text, as `str::lines` yields them.
fn text_lines(s: &str) -> (r: Vec<String>)
    ensures
        strs_view(r@) == lines_spec(s@),
{
    let mut out: Vec<String> = Vec::new();
    let mut remaining = string_of(s);
    loop
        invariant
            lines_spec(s@) == strs_view(out@) + lines_spec(remaining@),
        decreases remaining@.len(),
    {
        if remaining.as_str().is_empty() {
            proof {
                assert(strs_view(out@) + lines_spec(remaining@) =~= strs_view(out@));
            }
            return out;
        }
        proof {
            lemma_index_of(remaining@, '\n');
        }
        match split_first_exec(remaining.as_str(), '\n') {
            Some((line, rest)) => {
                let line = strip_cr_exec(line);
                proof {
                    assert(strs_view(out@.push(line)) =~= strs_view(out@).push(line@));
                    assert(strs_view(out@) + lines_spec(remaining@) =~= strs_view(out@).push(line@)
                        + lines_spec(rest@));
                }
                out.push(line);
                remaining = rest;
            },
            None => {
                proof {
                    assert(strs_view(out@.push(remaining)) =~= strs_view(out@) + seq![remaining@]);
                }
                out.push(remaining);
                return out;
            },
        }
    }
}

/// The lines of a log file's contents that the logs endpoint shows: the
/// last ones, 200 unless the request names another limit, clamped to
/// `1..=1000`.
pub fn log_tail(contents: &str, limit: Option<usize>) -> (r: Vec<String>)
    ensures
        strs_view(r@) == log_tail_spec(contents@, limit),
{
    let requested = match limit {
        Some(l) => l,
        None => DEFAULT_LOG_LINES,
    };
    let n = if requested < 1 {
        1
    } else if requested > MAX_LOG_LINES {
        MAX_LOG_LINES
    } else {
        requested
    };
    let mut lines = text_lines(contents);
    if lines.len() > n {
        let start = lines.len() - n;
        let tail = lines.split_off(start);
        proof {
            assert(strs_view(tail@) =~= lines_spec(contents@).skip(lines_spec(contents@).len() - n));
        }
        tail
    } else {
        lines
    }
}

/// The body of a settings update: the settings to change.
#[derive(Debug, Clone, PartialEq, Eq)]
pub struct SettingsUpdateRequest {
    pub sync_listen: Option<Vec<String>>,
    pub admin_listen: Option<Vec<String>>,
    pub db_path: Option<String>,
    pub export_dir: Option<String>,
    pub log_path: Option<String>,
    pub log_level: Option<String>,
}

impl SettingsUpdateRequest {
    /// The configuration patch the update asks for; the sync token and the
    /// admin password are never changed this way.
    pub fn into_patch(self) -> (r: ConfigPatch)
        ensures
            r@ == (ConfigPatchView {
                listen: opt_strs_view(self.sync_listen),
                admin_listen: opt_strs_view(self.admin_listen),
                db_path: opt_s(self.db_path),
                export_dir: opt_s(self.export_dir),
                log_path: opt_s(self.log_path),
                log_level: opt_s(self.log_level),
                token: None,
                admin_password_hash: None,
            }),
    {
        ConfigPatch {
            listen: self.sync_listen,
            admin_listen: self.admin_listen,
            db_path: self.db_path,
            export_dir: self.export_dir,
            log_path: self.log_path,
            log_level: self.log_level,
            token: None,
            admin_password_hash: None,
        }
    }
}

/// A backup file in the export directory.
#[derive(Debug, Clone, PartialEq, Eq)]
pub struct BackupEntry {
    pub file_name: String,
    pub size_bytes: u64,
}

/// Backups newest first: no file name sorts before a later one.
pub open spec fn newest_first(s: Seq<BackupEntry>) -> bool {
    forall|i: int, j: int| 0 <= i < j < s.len() ==> !str_lt(s[i].file_name@, s[j].file_name@)
}

/// The backups ordered by file name, last first, which for the time-stamped
/// backup names is newest first.
pub fn sort_backups_newest_first(entries: Vec<BackupEntry>) -> (r: Vec<BackupEntry>)
    ensures
        r@.to_multiset() == entries@.to_multiset(),
        newest_first(r@),
{
    let mut sorted: Vec<BackupEntry> = Vec::new();
    let mut rest = entries;
    let ghost initial_items = rest@.to_multiset();
    proof {
        broadcast use vstd::multiset::group_multiset_axioms;
        broadcast use vstd::seq_lib::group_to_multiset_ensures;
        assert(sorted@ =~= Seq::<BackupEntry>::empty());
        assert(sorted@.to_multiset().add(rest@.to_multiset()) =~= initial_items);
    }
    while rest.len() > 0
        invariant
            sorted@.to_multiset().add(rest@.to_multiset()) == initial_items,
            newest_first(sorted@),
        decreases rest@.len(),
    {
        let ghost before = rest@;
        let item = rest.pop().unwrap();
        proof {
            assert(before =~= rest@.push(item));
        }
        let mut p: usize = 0;
        while p < sorted.len() && !str_less(sorted[p].file_name.as_str(), item.file_name.as_str())
            invariant
                p <= sorted@.len(),
                forall|k: int| 0 <= k < p ==> !str_lt(sorted@[k].file_name@, item.file_name@),
            decreases sorted@.len() - p,
        {
            p = p + 1;
        }
        let ghost old_sorted = sorted@;
        proof {
            assert forall|i: int, j: int|
                0 <= i < j < old_sorted.len() + 1 implies !str_lt(
                old_sorted.insert(p as int, item)[i].file_name@,
                old_sorted.insert(p as int, item)[j].file_name@,
            ) by {
                let ns = old_sorted.insert(p as int, item);
                if j < p {
                } else if j == p {
                    assert(ns[j] == item);
                } else if i == p {
                    assert(ns[i] == item);
                    assert(ns[j] == old_sorted[j - 1]);
                    lemma_str_lt_order(
                        old_sorted[j - 1].file_name@,
                        old_sorted[p as int].file_name@,
                        item.file_name@,
                    );
                    lemma_str_lt_order(
                        old_sorted[p as int].file_name@,
                        item.file_name@,
                        old_sorted[j - 1].file_name@,
                    );
                    lemma_str_lt_order(
                        item.file_name@,
                        old_sorted[j - 1].file_name@,
                        old_sorted[p as int].file_name@,
                    );
                } else if i < p {
                    assert(ns[i] == old_sorted[i]);
                    assert(ns[j] == old_sorted[j - 1]);
                } else {
                    assert(ns[i] == old_sorted[i - 1]);
                    assert(ns[j] == old_sorted[j - 1]);
                }
            }
        }
        sorted.insert(p, item);
        proof {
            broadcast use vstd::multiset::group_multiset_axioms;

            assert(sorted@ == old_sorted.insert(p as int, item));
            vstd::seq_lib::to_multiset_insert(old_sorted, p as int, item);
            rest@.to_multiset_ensures();
            assert(rest@.push(item).to_multiset() =~= rest@.to_multiset().insert(item));
            assert(sorted@.to_multiset().add(rest@.to_multiset()) =~= initial_items);
        }
    }
    proof {
        broadcast use vstd::multiset::group_multiset_axioms;
        broadcast use vstd::seq_lib::group_to_multiset_ensures;
        assert(rest@ =~= Seq::<BackupEntry>::empty());
        assert(sorted@.to_multiset() =~= initial_items);
    }
    sorted
}

/// The pieces joined back together with `c` between them.
pub open spec fn join_with(pieces: Seq<Seq<char>>, c: char) -> Seq<char>
    decreases pieces.len(),
{
    if pieces.len() == 0 {
        Seq::empty()
    } else if pieces.len() == 1 {
        pieces[0]
    } else {
        pieces[0] + seq![c] + join_with(pieces.drop_first(), c)
    }
}

/// Cutting a text at every `c` keeps all of it: there is at least one piece,
/// no piece holds a `c`, and the pieces joined with `c` give the text back.
/// (So a text without `c` is its own single piece, and the piece after the
/// last `c` is kept.)
pub proof fn lemma_split_all_keeps_every_piece(s: Seq<char>, c: char)
    ensures
        split_all(s, c).len() >= 1,
        join_with(split_all(s, c), c) == s,
        forall|k: int, j: int|
            0 <= k < split_all(s, c).len() && 0 <= j < split_all(s, c)[k].len() ==> #[trigger] split_all(
                s,
                c,
            )[k][j] != c,
    decreases s.len(),
{
    lemma_index_of(s, c);
    match split_first(s, c) {
        Some((a, rest)) => {
            lemma_split_all_keeps_every_piece(rest, c);
            let tail = split_all(rest, c);
            let pieces = seq![a] + tail;
            assert(split_all(s, c) == pieces);
            assert(pieces.drop_first() =~= tail);
            assert(pieces[0] == a);
            assert(a + seq![c] + rest =~= s);
            assert(join_with(pieces, c) == a + seq![c] + join_with(tail, c));
            assert forall|k: int, j: int| 0 <= k < pieces.len() && 0 <= j < pieces[k].len() implies #[trigger] pieces[k][j]
                != c by {
                if k == 0 {
                    assert(pieces[0][j] == s[j]);
                } else {
                    assert(pieces[k] == tail[k - 1]);
                }
            }
        },
        None => {
            assert(split_all(s, c) == seq![s]);
        },
    }
}

/// Selecting archive ids keeps every id whose trim is not blank, keeps
/// nothing else, and keeps no id twice.
pub proof fn lemma_distinct_trimmed_selects_every_id(raw: Seq<Seq<char>>)
    ensures
        forall|k: int|
            0 <= k < raw.len() && trim_spec(#[trigger] raw[k]).len() > 0 ==> distinct_trimmed(raw).contains(
                trim_spec(raw[k]),
            ),
        forall|m: int|
            0 <= m < distinct_trimmed(raw).len() ==> (#[trigger] distinct_trimmed(raw)[m]).len() > 0
                && exists|k: int| 0 <= k < raw.len() && distinct_trimmed(raw)[m] == trim_spec(#[trigger] raw[k]),
        forall|m: int, n: int|
            0 <= m < n < distinct_trimmed(raw).len() ==> #[trigger] distinct_trimmed(raw)[m]
                != #[trigger] distinct_trimmed(raw)[n],
    decreases raw.len(),
{
    if raw.len() > 0 {
        let init = raw.drop_last();
        lemma_distinct_trimmed_selects_every_id(init);
        let prev = distinct_trimmed(init);
        let r = distinct_trimmed(raw);
        let t = trim_spec(raw.last());
        assert forall|k: int| 0 <= k < raw.len() && trim_spec(#[trigger] raw[k]).len() > 0 implies r.contains(
            trim_spec(raw[k]),
        ) by {
            if k < init.len() {
                assert(init[k] == raw[k]);
                let m = choose|m: int| 0 <= m < prev.len() && prev[m] == trim_spec(init[k]);
                if r != prev {
                    assert(r[m] == prev[m]);
                }
            } else {
                assert(raw[k] == raw.last());
                if r != prev {
                    assert(r[prev.len() as int] == t);
                }
            }
        }
        assert forall|m: int| 0 <= m < r.len() implies (#[trigger] r[m]).len() > 0 && exists|k: int|
            0 <= k < raw.len() && r[m] == trim_spec(#[trigger] raw[k]) by {
            if m < prev.len() {
                assert(r[m] == prev[m]);
                let k = choose|k: int| 0 <= k < init.len() && prev[m] == trim_spec(#[trigger] init[k]);
                assert(init[k] == raw[k]);
            } else {
                assert(r[m] == t);
                assert(raw[raw.len() - 1] == raw.last());
            }
        }
        assert forall|m: int, n: int| 0 <= m < n < r.len() implies #[trigger] r[m] != #[trigger] r[n] by {
            if n < prev.len() {
                assert(r[m] == prev[m] && r[n] == prev[n]);
            } else {
                assert(r[m] == prev[m]);
                assert(prev.contains(prev[m]));
            }
        }
    }
}

/// An `ids` list without a comma names one note: its trimmed text, when not
/// blank, is selected.
pub proof fn lemma_single_listed_id_is_selected(id: Seq<Seq<char>>, list: Seq<char>)
    requires
        forall|j: int| 0 <= j < list.len() ==> list[j] != ',',
        !is_blank(list),
    ensures
        distinct_trimmed(raw_archive_ids(id, Some(list))).contains(trim_spec(list)),
{
    lemma_split_all_keeps_every_piece(list, ',');
    lemma_index_of(list, ',');
    let raw = raw_archive_ids(id, Some(list));
    assert(split_all(list, ',') == seq![list]);
    assert(raw[id.len() as int] == list);
    lemma_distinct_trimmed_selects_every_id(raw);
}

/// The scheme of the origin a request was addressed to is the first
/// trimmed `X-Forwarded-Proto` entry whenever that entry is not blank, and
/// `http` otherwise, whatever `X-Forwarded-Host` and `Host` say; the
/// authority is the forwarded host when one is given (`Host` is then
/// ignored), and otherwise `Host`.
pub proof fn lemma_request_origin_scheme_and_authority(
    forwarded_proto: Option<Seq<char>>,
    forwarded_host: Option<Seq<char>>,
    host: Option<Seq<char>>,
)
    ensures
        request_origin_spec(forwarded_proto, forwarded_host, host) matches Some(o) ==> {
            &&& forwarded_value_spec(forwarded_proto) matches Some(p) ==> o.scheme == p
            &&& forwarded_value_spec(forwarded_proto) is None ==> o.scheme == "http"@
        },
        forall|h2: Option<Seq<char>>|
            forwarded_value_spec(forwarded_host) is Some ==> #[trigger] request_origin_spec(
                forwarded_proto,
                forwarded_host,
                h2,
            ) == request_origin_spec(forwarded_proto, forwarded_host, host),
        forwarded_value_spec(forwarded_host) is None ==> request_origin_spec(
            forwarded_proto,
            forwarded_host,
            host,
        ) == request_origin_spec(forwarded_proto, None, host),
{
    let scheme = match forwarded_value_spec(forwarded_proto) {
        Some(p) => p,
        None => "http"@,
    };
    match forwarded_value_spec(forwarded_host) {
        Some(a) => lemma_origin_keeps_scheme(scheme, a),
        None => match host {
            Some(a) => lemma_origin_keeps_scheme(scheme, a),
            None => {},
        },
    }
}

/// An origin read from an authority carries the scheme it was read under.
proof fn lemma_origin_keeps_scheme(scheme: Seq<char>, authority: Seq<char>)
    ensures
        from_authority_spec(scheme, authority) matches Some(o) ==> o.scheme == scheme,
{
}

} // verus!
