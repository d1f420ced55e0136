//! Authentication checks: the sync API's bearer token, the admin password
//! (Argon2 PHC hashes) and whether the admin account still awaits its
//! one-time bootstrap.
use vstd::prelude::*;
use argon2::password_hash::{PasswordHash, PasswordHasher, PasswordVerifier, SaltString};
use subtle::ConstantTimeEq;
use crate::config::ServerConfig;
use crate::text::{string_of, concat2, has_prefix, strip_prefix};

verus! {

/// Errors of admin password handling.
#[derive(Debug, Clone, PartialEq, Eq)]
pub enum AuthError {
    EmptyPassword,
    PasswordHash(String),
}

impl AuthError {
    /// The error's display text.
    pub fn message(&self) -> (r: String)
        ensures
            r@ == match self {
                AuthError::EmptyPassword => "admin password must not be empty"@,
                AuthError::PasswordHash(m) => "password hash error: "@ + m@,
            },
    {
        match self {
            AuthError::EmptyPassword => string_of("admin password must not be empty"),
            AuthError::PasswordHash(m) => concat2("password hash error: ", m.as_str()),
        }
    }
}

/// Whether two byte strings are equal, by `subtle::ConstantTimeEq::ct_eq` on
/// slices, which compares in time independent of the contents once the
/// lengths agree, and answers whether lengths and contents are equal.
#[verifier::external_body]
fn ct_bytes_eq(left: &[u8], right: &[u8]) -> (r: bool)
    ensures
        r == (left@ == right@),
{
    left.ct_eq(right).into()
}

/// Equality of two byte strings without early exit on the first difference.
fn constant_time_token_eq(left: &[u8], right: &[u8]) -> (r: bool)
    ensures
        r == (left@ == right@),
{
    left.len() == right.len() && ct_bytes_eq(left, right)
}

/// Whether an `Authorization` header value carries exactly the expected token.
pub open spec fn bearer_matches_spec(header: Option<Seq<char>>, expected: Seq<char>) -> bool {
    match header {
        Some(h) => h == "Bearer "@ + expected,
        None => false,
    }
}

/// Whether the `Authorization` header value is `Bearer <expected_token>`,
/// compared in constant time.
pub fn bearer_token_matches(header_value: Option<&str>, expected_token: &str) -> (r: bool)
    ensures
        r == bearer_matches_spec(
            match header_value {
                Some(h) => Some(h@),
                None => None,
            },
            expected_token@,
        ),
{
    match header_value {
        None => false,
        Some(value) => match strip_prefix(value, "Bearer ") {
            None => {
                assert forall|e: Seq<char>| value@ != "Bearer "@ + e by {
                    if value@ == "Bearer "@ + e {
                        assert(value@.take("Bearer "@.len() as int) =~= "Bearer "@);
                    }
                }
                false
            },
            Some(token) => {
                let r = constant_time_token_eq(token.as_str().as_bytes(), expected_token.as_bytes());
                proof {
                    vstd::utf8::encode_utf8_decode_utf8(token@);
                    vstd::utf8::encode_utf8_decode_utf8(expected_token@);
                    if value@ == "Bearer "@ + expected_token@ {
                        assert(token@ =~= value@.skip("Bearer "@.len() as int));
                        assert(expected_token@ =~= value@.skip("Bearer "@.len() as int));
                    }
                }
                r
            },
        },
    }
}

/// What Argon2 verification of `password` against the PHC string `hash`
/// yields: whether it matches, or the text of the error (an unparsable hash
/// or unsupported parameters).
pub uninterp spec fn spec_argon2_verify(hash: Seq<char>, password: Seq<char>) -> Result<bool, Seq<char>>;

/// Hashes a password with Argon2 (default parameters) under a fresh random
/// salt from the OS, by `SaltString::generate` and
/// `PasswordHasher::hash_password`, and renders the PHC string; an error
/// carries its text. The salt is random, so the hash itself is not stated;
/// what is stated is that Argon2 verification accepts the same password
/// against it, the PHC string carrying the salt and parameters used. Argon2
/// refuses only passwords over `u32::MAX` bytes, so a password of at most
/// 2^30 - 1 characters (at most 4 bytes each) is always hashed. A failure of
/// the OS random source panics inside `OsRng`; that depends on the machine,
/// not on the password.
#[verifier::external_body]
fn argon2_hash(password: &str) -> (r: Result<String, String>)
    ensures
        password@.len() <= 0x3FFF_FFFF ==> r is Ok,
        match r {
            Ok(h) => spec_argon2_verify(h@, password@) == Ok::<bool, Seq<char>>(true),
            Err(_) => true,
        },
{
    let salt = SaltString::generate(&mut rand_core::OsRng);
    match argon2::Argon2::default().hash_password(password.as_bytes(), &salt) {
        Ok(hash) => Ok(hash.to_string()),
        Err(error) => Err(error.to_string()),
    }
}

/// Parses the PHC string with `PasswordHash::new` and checks the password with
/// `PasswordVerifier::verify_password` under default Argon2: a mismatch is
/// `Ok(false)`, any other failure its text. The answer is the named result.
#[verifier::external_body]
fn argon2_verify(hash: &str, password: &str) -> (r: Result<bool, String>)
    ensures
        match r {
            Ok(b) => spec_argon2_verify(hash@, password@) == Ok::<bool, Seq<char>>(b),
            Err(m) => spec_argon2_verify(hash@, password@) == Err::<bool, Seq<char>>(m@),
        },
{
    let parsed = match PasswordHash::new(hash) {
        Ok(parsed) => parsed,
        Err(error) => return Err(error.to_string()),
    };
    match argon2::Argon2::default().verify_password(password.as_bytes(), &parsed) {
        Ok(()) => Ok(true),
        Err(argon2::password_hash::Error::Password) => Ok(false),
        Err(error) => Err(error.to_string()),
    }
}

/// Hashes a new admin password; an empty password is refused. The hash uses a
/// random salt; whitespace in the password is significant.
pub fn hash_admin_password(password: &str) -> (r: Result<String, AuthError>)
    ensures
        password@.len() == 0 <==> r == Err::<String, AuthError>(AuthError::EmptyPassword),
        r is Err ==> r matches Err(AuthError::EmptyPassword) || r matches Err(AuthError::PasswordHash(_)),
        r matches Ok(h) ==> spec_argon2_verify(h@, password@) == Ok::<bool, Seq<char>>(true),
        0 < password@.len() <= 0x3FFF_FFFF ==> r is Ok,
{
    if password.is_empty() {
        return Err(AuthError::EmptyPassword);
    }
    match argon2_hash(password) {
        Ok(hash) => Ok(hash),
        Err(message) => Err(AuthError::PasswordHash(message)),
    }
}

/// Checks an admin password against the stored PHC hash: an empty password
/// never matches; otherwise the answer is Argon2's.
pub fn verify_admin_password(hash: &str, password: &str) -> (r: Result<bool, AuthError>)
    ensures
        password@.len() == 0 ==> r == Ok::<bool, AuthError>(false),
        password@.len() > 0 ==> match spec_argon2_verify(hash@, password@) {
            Ok(b) => r == Ok::<bool, AuthError>(b),
            Err(m) => r matches Err(AuthError::PasswordHash(e)) && e@ == m,
        },
{
    if password.is_empty() {
        return Ok(false);
    }
    match argon2_verify(hash, password) {
        Ok(matched) => Ok(matched),
        Err(message) => Err(AuthError::PasswordHash(message)),
    }
}

/// Whether the admin account still awaits its one-time password setup.
pub fn bootstrap_required(config: &ServerConfig) -> (r: bool)
    ensures
        r == (config.admin_password_hash is None),
{
    config.admin_password_hash.is_none()
}

} // verus!
