use floral_sync_server::auth::{
    bearer_token_matches, bootstrap_required, hash_admin_password, verify_admin_password, AuthError,
};
use floral_sync_server::config::{load_or_create_config, ConfigOverrides};

#[test]
fn accepts_only_exact_bearer_token() {
    assert!(bearer_token_matches(Some("Bearer secret"), "secret"));
    assert!(!bearer_token_matches(Some("Bearer other"), "secret"));
    assert!(!bearer_token_matches(Some("secret"), "secret"));
    assert!(!bearer_token_matches(None, "secret"));
}

#[test]
fn bearer_token_comparison_is_case_and_space_sensitive() {
    assert!(!bearer_token_matches(Some("bearer secret"), "secret"));
    assert!(!bearer_token_matches(Some("Bearer  secret"), "secret"));
    assert!(!bearer_token_matches(Some("Bearer secret "), "secret"));
    assert!(!bearer_token_matches(Some("Bearer secre"), "secret"));
    assert!(bearer_token_matches(Some("Bearer "), ""));
}

#[test]
fn hashes_and_verifies_admin_passwords() {
    let password = "correct horse battery staple";

    let hash = hash_admin_password(password).expect("hash password");

    assert_ne!(hash, password);
    assert!(verify_admin_password(&hash, password).expect("verify matching password"));
    assert!(!verify_admin_password(&hash, "wrong password").expect("verify wrong password"));
}

#[test]
fn admin_password_verification_keeps_whitespace_significant() {
    let hash = hash_admin_password(" secret ").expect("hash password");

    assert!(verify_admin_password(&hash, " secret ").expect("verify matching password"));
    assert!(!verify_admin_password(&hash, "secret").expect("verify trimmed password"));
}

#[test]
fn empty_admin_password_is_refused() {
    let error = hash_admin_password("").expect_err("empty password");
    assert_eq!(error, AuthError::EmptyPassword);
    assert_eq!(error.message(), "admin password must not be empty");
}

#[test]
fn hashes_are_salted_and_in_phc_form() {
    let first = hash_admin_password("same").expect("hash");
    let second = hash_admin_password("same").expect("hash");
    assert_ne!(first, second);
    assert!(first.starts_with("$argon2"));
}

#[test]
fn malformed_hash_is_reported_as_hash_error() {
    let error = verify_admin_password("not a phc string", "secret").expect_err("malformed hash");
    assert!(matches!(error, AuthError::PasswordHash(_)));
    assert!(error.message().starts_with("password hash error: "));
}

#[test]
fn bootstrap_is_required_when_admin_password_hash_is_missing() {
    let config = load_or_create_config("/srv/floral/sync-server.toml", None, &ConfigOverrides::default())
        .result
        .expect("load config");

    assert!(bootstrap_required(&config));
}
