//! Signed admin session cookies. A cookie is
//! `base64url(payload) "." base64url(HMAC-SHA256(secret, payload))`, where the
//! payload is the JSON form of the session claims (which the application
//! produces and parses). A session expires twelve hours after it was issued
//! and is bound to the current admin password through a password version.
use vstd::prelude::*;
use base64::Engine;
use hmac::Mac;
use std::hash::{Hash, Hasher};
use crate::config::ServerConfig;
use crate::text::{concat2, has_char, is_blank, split_once, string_of, trim, trim_spec};
use crate::time::{ts_lt, Timestamp};

verus! {

/// How long an admin session lasts, in seconds.
pub const ADMIN_SESSION_TTL_SECONDS: i64 = 43200;

/// How long an admin session lasts, in seconds: twelve hours.
pub fn admin_session_ttl() -> (r: i64)
    ensures
        r == ADMIN_SESSION_TTL_SECONDS,
        r == 12 * 60 * 60,
{
    ADMIN_SESSION_TTL_SECONDS
}

/// Errors of session cookie handling.
#[derive(Debug, Clone, PartialEq, Eq)]
pub enum SessionError {
    EmptySecret,
    MalformedCookie,
    InvalidSignature,
    Expired,
    PasswordVersionMismatch,
    Serialize(String),
}

impl SessionError {
    /// The error's display text.
    pub fn message(&self) -> (r: String)
        ensures
            r@ == match self {
                SessionError::EmptySecret => "admin session secret must not be empty"@,
                SessionError::MalformedCookie => "session cookie is malformed"@,
                SessionError::InvalidSignature => "session cookie signature is invalid"@,
                SessionError::Expired => "session has expired"@,
                SessionError::PasswordVersionMismatch =>
                    "session password version does not match the current password"@,
                SessionError::Serialize(m) => "session payload could not be serialized: "@ + m@,
            },
    {
        match self {
            SessionError::EmptySecret => string_of("admin session secret must not be empty"),
            SessionError::MalformedCookie => string_of("session cookie is malformed"),
            SessionError::InvalidSignature => string_of("session cookie signature is invalid"),
            SessionError::Expired => string_of("session has expired"),
            SessionError::PasswordVersionMismatch => string_of(
                "session password version does not match the current password",
            ),
            SessionError::Serialize(m) => concat2(
                "session payload could not be serialized: ",
                m.as_str(),
            ),
        }
    }
}

/// Who a session belongs to and when it was issued.
#[derive(Debug, Clone, PartialEq, Eq)]
pub struct AdminSessionClaims {
    pub session_id: String,
    pub issued_at: Timestamp,
    pub password_version: u64,
}

/// The instant at which a session issued at `issued` expires.
pub open spec fn expires_at_spec(issued: Timestamp) -> (int, u32) {
    (issued.secs + ADMIN_SESSION_TTL_SECONDS, issued.nanos)
}

/// Whether a session issued at `issued` has expired at `now` (its expiry is
/// at or before `now`).
pub open spec fn session_expired(issued: Timestamp, now: Timestamp) -> bool {
    let (s, n) = expires_at_spec(issued);
    !(now.secs < s || (now.secs == s && now.nanos < n))
}

impl AdminSessionClaims {
    pub fn new(session_id: String, issued_at: Timestamp, password_version: u64) -> (r: Self)
        ensures
            r.session_id@ == session_id@,
            r.issued_at == issued_at,
            r.password_version == password_version,
    {
        AdminSessionClaims { session_id, issued_at, password_version }
    }

    /// When the session expires: twelve hours after it was issued.
    pub fn expires_at(&self) -> (r: Timestamp)
        requires
            self.issued_at.secs <= i64::MAX - ADMIN_SESSION_TTL_SECONDS,
        ensures
            r.secs == expires_at_spec(self.issued_at).0,
            r.nanos == expires_at_spec(self.issued_at).1,
    {
        Timestamp { secs: self.issued_at.secs + ADMIN_SESSION_TTL_SECONDS, nanos: self.issued_at.nanos }
    }
}

/// The URL-safe, unpadded Base64 text of `bytes`, as `base64`'s
/// `URL_SAFE_NO_PAD` engine encodes it.
pub uninterp spec fn spec_b64url_encode(bytes: Seq<u8>) -> Seq<char>;

/// What `base64`'s `URL_SAFE_NO_PAD` engine decodes `s` to, if it accepts it.
pub uninterp spec fn spec_b64url_decode(s: Seq<char>) -> Option<Seq<u8>>;

/// HMAC-SHA256 of `msg` under `key`, as the `hmac` and `sha2` crates compute it.
pub uninterp spec fn spec_hmac_sha256(key: Seq<u8>, msg: Seq<u8>) -> Seq<u8>;

/// A character of the URL-safe Base64 alphabet.
pub open spec fn is_b64url_char(c: char) -> bool {
    ('A' <= c && c <= 'Z') || ('a' <= c && c <= 'z') || ('0' <= c && c <= '9') || c == '-' || c
        == '_'
}

/// Encodes with `URL_SAFE_NO_PAD.encode`. Beside the named result, the
/// contract states two facts the crate documents for this engine: the output
/// uses only the URL-safe alphabet (no padding), and decoding it with the same
/// engine gives the input back.
#[verifier::external_body]
fn b64url_encode(bytes: &[u8]) -> (r: String)
    ensures
        r@ == spec_b64url_encode(bytes@),
        forall|i: int| 0 <= i < r@.len() ==> is_b64url_char(#[trigger] r@[i]),
        spec_b64url_decode(r@) == Some(bytes@),
{
    base64::engine::general_purpose::URL_SAFE_NO_PAD.encode(bytes)
}

/// Decodes with `URL_SAFE_NO_PAD.decode`; `None` where it reports an error.
#[verifier::external_body]
fn b64url_decode(s: &str) -> (r: Option<Vec<u8>>)
    ensures
        match r {
            Some(v) => spec_b64url_decode(s@) == Some(v@),
            None => spec_b64url_decode(s@) is None,
        },
{
    match base64::engine::general_purpose::URL_SAFE_NO_PAD.decode(s) {
        Ok(v) => Some(v),
        Err(_) => None,
    }
}

type SessionMac = hmac::Hmac<sha2::Sha256>;

/// Computes the HMAC-SHA256 tag of `msg` under `key` with `Mac::new_from_slice`,
/// `update` and `finalize`. HMAC accepts keys of any length, so
/// `new_from_slice` does not fail (the `hmac` source returns `Ok` for every
/// key); the tag is the named result.
#[verifier::external_body]
fn hmac_sha256(key: &[u8], msg: &[u8]) -> (r: Option<Vec<u8>>)
    ensures
        r is Some && r->Some_0@ == spec_hmac_sha256(key@, msg@),
{
    match <SessionMac as Mac>::new_from_slice(key) {
        Ok(mut mac) => {
            mac.update(msg);
            Some(mac.finalize().into_bytes().to_vec())
        },
        Err(_) => None,
    }
}

/// Checks `tag` against the HMAC-SHA256 of `msg` under `key` with
/// `Mac::verify_slice`, which accepts exactly the full, equal tag (compared
/// in constant time). As for [`hmac_sha256`], keying does not fail.
#[verifier::external_body]
fn hmac_sha256_verify(key: &[u8], msg: &[u8], tag: &[u8]) -> (r: Option<bool>)
    ensures
        r == Some(tag@ == spec_hmac_sha256(key@, msg@)),
{
    match <SessionMac as Mac>::new_from_slice(key) {
        Ok(mut mac) => {
            mac.update(msg);
            Some(mac.verify_slice(tag).is_ok())
        },
        Err(_) => None,
    }
}

/// The HMAC key derived from the session secret: its trimmed UTF-8 bytes.
pub open spec fn session_key(secret: Seq<char>) -> Seq<u8> {
    vstd::utf8::encode_utf8(trim_spec(secret))
}

/// The cookie value for `payload` signed with `secret`.
pub open spec fn signed_cookie_spec(secret: Seq<char>, payload: Seq<u8>) -> Seq<char> {
    spec_b64url_encode(payload) + seq!['.'] + spec_b64url_encode(
        spec_hmac_sha256(session_key(secret), payload),
    )
}

/// The HMAC-SHA256 tag of `payload` under the session secret (trimmed); a
/// blank secret is refused.
fn sign_payload(secret: &str, payload: &[u8]) -> (r: Result<Vec<u8>, SessionError>)
    ensures
        is_blank(secret@) ==> r == Err::<Vec<u8>, SessionError>(SessionError::EmptySecret),
        !is_blank(secret@) ==> (r matches Ok(tag) && tag@ == spec_hmac_sha256(session_key(secret@), payload@)),
{
    let key = trim(secret);
    if key.as_str().is_empty() {
        return Err(SessionError::EmptySecret);
    }
    match hmac_sha256(key.as_str().as_bytes(), payload) {
        Some(tag) => Ok(tag),
        None => Err(SessionError::EmptySecret),
    }
}

/// Signs the serialized session claims `payload` with the session secret
/// (trimmed); a blank secret is refused.
pub fn sign_session_payload(secret: &str, payload: &[u8]) -> (r: Result<String, SessionError>)
    ensures
        is_blank(secret@) ==> r == Err::<String, SessionError>(SessionError::EmptySecret),
        !is_blank(secret@) ==> (r matches Ok(c) && c@ == signed_cookie_spec(secret@, payload@)),
        r matches Ok(c) ==> open_cookie_spec(secret@, c@) == Ok::<Seq<u8>, SessionError>(payload@),
{
    let tag = sign_payload(secret, payload)?;
    let mut cookie = b64url_encode(payload);
    cookie.append(".");
    let encoded_tag = b64url_encode(tag.as_slice());
    cookie.append(encoded_tag.as_str());
    proof {
        reveal_strlit(".");
        assert("."@ =~= seq!['.']);
        lemma_open_signed_cookie(secret@, payload@);
    }
    Ok(cookie)
}

/// The outcome of opening `cookie` with `secret`: the signed payload, or the
/// first failure among a missing `.`, undecodable parts, a blank secret and
/// a wrong signature.
pub open spec fn open_cookie_spec(secret: Seq<char>, cookie: Seq<char>) -> Result<Seq<u8>, SessionError> {
    if !has_char(cookie, '.') {
        Err(SessionError::MalformedCookie)
    } else {
        let a = choose|a: Seq<char>| #[trigger] cookie_split(cookie, a);
        let b = cookie.skip(a.len() + 1int);
        match (spec_b64url_decode(a), spec_b64url_decode(b)) {
            (Some(payload), Some(tag)) => if is_blank(secret) {
                Err(SessionError::EmptySecret)
            } else if tag == spec_hmac_sha256(session_key(secret), payload) {
                Ok(payload)
            } else {
                Err(SessionError::InvalidSignature)
            },
            _ => Err(SessionError::MalformedCookie),
        }
    }
}

/// `a` is the part of `cookie` before its first `.`.
pub open spec fn cookie_split(cookie: Seq<char>, a: Seq<char>) -> bool {
    a.len() < cookie.len() && cookie.take(a.len() as int) == a && cookie[a.len() as int] == '.'
        && !has_char(a, '.')
}

proof fn lemma_cookie_split_unique(cookie: Seq<char>, a1: Seq<char>, a2: Seq<char>)
    requires
        cookie_split(cookie, a1),
        cookie_split(cookie, a2),
    ensures
        a1 == a2,
{
    if a1.len() < a2.len() {
        assert(a2[a1.len() as int] == cookie[a1.len() as int]);
    } else if a2.len() < a1.len() {
        assert(a1[a2.len() as int] == cookie[a2.len() as int]);
    }
}

/// Checks the signature of a session cookie and returns the signed payload
/// (the serialized claims).
pub fn open_session_cookie(secret: &str, cookie_value: &str) -> (r: Result<Vec<u8>, SessionError>)
    ensures
        match r {
            Ok(p) => open_cookie_spec(secret@, cookie_value@) == Ok::<Seq<u8>, SessionError>(p@),
            Err(e) => open_cookie_spec(secret@, cookie_value@) == Err::<Seq<u8>, SessionError>(e),
        },
{
    let (encoded_payload, encoded_signature) = match split_once(cookie_value, '.') {
        Some(parts) => parts,
        None => return Err(SessionError::MalformedCookie),
    };
    proof {
        let c = cookie_value@;
        let a = encoded_payload@;
        assert(c.take(a.len() as int) =~= a);
        assert(c[a.len() as int] == '.');
        assert(cookie_split(c, a));
        let chosen = choose|x: Seq<char>| #[trigger] cookie_split(c, x);
        lemma_cookie_split_unique(c, a, chosen);
        assert(c.skip(a.len() + 1int) =~= encoded_signature@);
    }
    let payload = match b64url_decode(encoded_payload.as_str()) {
        Some(p) => p,
        None => return Err(SessionError::MalformedCookie),
    };
    let signature = match b64url_decode(encoded_signature.as_str()) {
        Some(s) => s,
        None => return Err(SessionError::MalformedCookie),
    };
    let key = trim(secret);
    if key.as_str().is_empty() {
        return Err(SessionError::EmptySecret);
    }
    match hmac_sha256_verify(key.as_str().as_bytes(), payload.as_slice(), signature.as_slice()) {
        Some(true) => Ok(payload),
        Some(false) => Err(SessionError::InvalidSignature),
        None => Err(SessionError::EmptySecret),
    }
}

proof fn lemma_open_signed_cookie(secret: Seq<char>, payload: Seq<u8>)
    requires
        !is_blank(secret),
        forall|i: int|
            0 <= i < spec_b64url_encode(payload).len() ==> is_b64url_char(
                #[trigger] spec_b64url_encode(payload)[i],
            ),
        spec_b64url_decode(spec_b64url_encode(payload)) == Some(payload),
        spec_b64url_decode(
            spec_b64url_encode(spec_hmac_sha256(session_key(secret), payload)),
        ) == Some(spec_hmac_sha256(session_key(secret), payload)),
    ensures
        open_cookie_spec(secret, signed_cookie_spec(secret, payload)) == Ok::<Seq<u8>, SessionError>(
            payload,
        ),
{
    let e1 = spec_b64url_encode(payload);
    let tag = spec_hmac_sha256(session_key(secret), payload);
    let e2 = spec_b64url_encode(tag);
    let c = signed_cookie_spec(secret, payload);
    assert(!has_char(e1, '.')) by {
        assert forall|i: int| 0 <= i < e1.len() implies e1[i] != '.' by {
            assert(is_b64url_char(e1[i]));
        }
    }
    assert(c[e1.len() as int] == '.');
    assert(c.take(e1.len() as int) =~= e1);
    assert(cookie_split(c, e1));
    assert(has_char(c, '.'));
    let a = choose|a: Seq<char>| #[trigger] cookie_split(c, a);
    lemma_cookie_split_unique(c, a, e1);
    assert(c.skip(e1.len() + 1int) =~= e2);
}

/// Checks the claims of an opened session: it must not have expired at `now`
/// and must carry the current password version.
pub fn check_session_claims(
    claims: &AdminSessionClaims,
    now: Timestamp,
    current_password_version: u64,
) -> (r: Result<(), SessionError>)
    ensures
        session_expired(claims.issued_at, now) ==> r == Err::<(), SessionError>(SessionError::Expired),
        !session_expired(claims.issued_at, now) && claims.password_version != current_password_version
            ==> r == Err::<(), SessionError>(SessionError::PasswordVersionMismatch),
        !session_expired(claims.issued_at, now) && claims.password_version == current_password_version
            ==> r == Ok::<(), SessionError>(()),
{
    let expiry_secs = claims.issued_at.secs as i128 + ADMIN_SESSION_TTL_SECONDS as i128;
    let now_secs = now.secs as i128;
    let live = now_secs < expiry_secs || (now_secs == expiry_secs && now.nanos < claims.issued_at.nanos);
    if !live {
        return Err(SessionError::Expired);
    }
    if claims.password_version != current_password_version {
        return Err(SessionError::PasswordVersionMismatch);
    }
    Ok(())
}

/// What the standard library's `DefaultHasher` (as created by `new`, which
/// is deterministic) yields after hashing the string `s`.
pub uninterp spec fn spec_default_string_hash(s: Seq<char>) -> u64;

/// Hashes a string with `std::hash::DefaultHasher::new` and `Hash::hash`.
#[verifier::external_body]
fn default_string_hash(s: &String) -> (r: u64)
    ensures
        r == spec_default_string_hash(s@),
{
    let mut hasher = std::collections::hash_map::DefaultHasher::new();
    s.hash(&mut hasher);
    hasher.finish()
}

/// The version of the admin password that sessions are bound to: 0 while no
/// password is configured, else a hash of the stored password hash, so that
/// changing the password invalidates earlier sessions.
pub open spec fn password_version_spec(hash: Option<Seq<char>>) -> u64 {
    match hash {
        None => 0,
        Some(h) => spec_default_string_hash(h),
    }
}

pub fn password_version(config: &ServerConfig) -> (r: u64)
    ensures
        r == password_version_spec(config@.admin_password_hash),
{
    match &config.admin_password_hash {
        None => 0,
        Some(hash) => default_string_hash(hash),
    }
}

} // verus!
