use floral_sync_server::session::{
    check_session_claims, open_session_cookie, sign_session_payload, AdminSessionClaims,
    SessionError, ADMIN_SESSION_TTL_SECONDS,
};
use floral_sync_server::config::ServerConfig;
use floral_sync_server::session::password_version;
use floral_sync_server::time::Timestamp;

const NOW_SECS: i64 = 1_779_091_200;

fn claims_payload(claims: &AdminSessionClaims) -> Vec<u8> {
    format!(
        "{{\"session_id\":\"{}\",\"issued_at\":{},\"password_version\":{}}}",
        claims.session_id, claims.issued_at.secs, claims.password_version
    )
    .into_bytes()
}

fn sign_and_verify(
    claims: &AdminSessionClaims,
    now: Timestamp,
    current_version: u64,
) -> Result<(), SessionError> {
    let payload = claims_payload(claims);
    let cookie = sign_session_payload("secret", &payload).expect("sign session");
    let opened = open_session_cookie("secret", &cookie).expect("open session");
    assert_eq!(opened, payload);
    check_session_claims(claims, now, current_version)
}

#[test]
fn signed_session_cookie_is_accepted() {
    let now = Timestamp::new(NOW_SECS, 0);
    let claims = AdminSessionClaims::new("session-1".to_string(), now, 3);

    sign_and_verify(&claims, now, 3).expect("verify session");

    assert_eq!(claims.session_id, "session-1");
    assert_eq!(claims.password_version, 3);
}

#[test]
fn expired_session_is_rejected() {
    let now = Timestamp::new(NOW_SECS, 0);
    let claims = AdminSessionClaims::new("session-1".to_string(), Timestamp::new(NOW_SECS - 13 * 3600, 0), 0);

    let error = sign_and_verify(&claims, now, 0).expect_err("expired session");

    assert!(matches!(error, SessionError::Expired));
}

#[test]
fn password_change_invalidates_prior_sessions() {
    let now = Timestamp::new(NOW_SECS, 0);
    let claims = AdminSessionClaims::new("session-1".to_string(), now, 1);

    let error = sign_and_verify(&claims, now, 2).expect_err("stale session");

    assert!(matches!(error, SessionError::PasswordVersionMismatch));
}

#[test]
fn session_expires_exactly_twelve_hours_after_issue() {
    let issued = Timestamp::new(NOW_SECS, 500);
    let claims = AdminSessionClaims::new("s".to_string(), issued, 0);
    let expiry = claims.expires_at();
    assert_eq!(expiry, Timestamp::new(NOW_SECS + 12 * 3600, 500));
    assert_eq!(ADMIN_SESSION_TTL_SECONDS, 43200);
    assert_eq!(check_session_claims(&claims, Timestamp::new(NOW_SECS + 43200, 499), 0), Ok(()));
    assert_eq!(
        check_session_claims(&claims, Timestamp::new(NOW_SECS + 43200, 500), 0),
        Err(SessionError::Expired)
    );
}

#[test]
fn cookie_is_payload_and_signature_in_url_safe_base64() {
    let cookie = sign_session_payload("secret", b"hello").expect("sign");
    let (payload, signature) = cookie.split_once('.').expect("two parts");
    assert_eq!(payload, "aGVsbG8");
    assert_eq!(signature.len(), 43);
    assert!(!cookie.contains('='));
    assert!(signature.chars().all(|c| c.is_ascii_alphanumeric() || c == '-' || c == '_'));
}

#[test]
fn secret_is_trimmed_and_must_not_be_blank() {
    assert_eq!(sign_session_payload("   ", b"x"), Err(SessionError::EmptySecret));
    let cookie = sign_session_payload("  secret  ", b"payload").expect("sign");
    assert_eq!(open_session_cookie("secret", &cookie), Ok(b"payload".to_vec()));
    assert_eq!(open_session_cookie(" ", &cookie), Err(SessionError::EmptySecret));
}

#[test]
fn tampered_or_malformed_cookies_are_rejected() {
    let cookie = sign_session_payload("secret", b"payload").expect("sign");
    assert_eq!(open_session_cookie("other", &cookie), Err(SessionError::InvalidSignature));
    assert_eq!(open_session_cookie("secret", "no-dot-here"), Err(SessionError::MalformedCookie));
    assert_eq!(open_session_cookie("secret", "***.abc"), Err(SessionError::MalformedCookie));
    let (_, signature) = cookie.split_once('.').expect("two parts");
    let forged = format!("{}.{}", "cGF5bG9hZDI", signature);
    assert_eq!(open_session_cookie("secret", &forged), Err(SessionError::InvalidSignature));
}

#[test]
fn password_version_follows_the_password_hash() {
    let config = |hash: Option<&str>| ServerConfig {
        config_path: "/srv/floral/sync-server.toml".into(),
        sync_listen: vec!["0.0.0.0:8787".into()],
        admin_listen: vec!["127.0.0.1:8788".into()],
        db_path: "/srv/floral/data/floral-sync.sqlite3".into(),
        export_dir: "/srv/floral/exports".into(),
        log_path: "/srv/floral/logs/floral-sync-server.log".into(),
        log_level: "info".into(),
        sync_token: "token".into(),
        admin_password_hash: hash.map(str::to_string),
        admin_session_secret: "secret".into(),
    };
    assert_eq!(password_version(&config(None)), 0);
    let first = password_version(&config(Some("$argon2id$first")));
    assert_eq!(first, password_version(&config(Some("$argon2id$first"))));
    assert_ne!(first, password_version(&config(Some("$argon2id$second"))));
}

#[test]
fn admin_session_lasts_twelve_hours() {
    assert_eq!(floral_sync_server::session::admin_session_ttl(), 12 * 60 * 60);
}
