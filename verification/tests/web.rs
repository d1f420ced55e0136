use floral_sync_server::admin_web::asset_headers;
use floral_sync_server::session::SessionError;
use floral_sync_server::time::{parse_db_time, Timestamp};

#[test]
fn hashed_assets_are_cached_for_good() {
    assert_eq!(asset_headers("assets/index-3f2a.js"), ("text/javascript".to_string(), true));
    assert_eq!(asset_headers("assets/index-3f2a.css"), ("text/css".to_string(), true));
}

#[test]
fn index_page_is_html_and_not_cached() {
    assert_eq!(asset_headers("index.html"), ("text/html".to_string(), false));
}

#[test]
fn unknown_extension_is_an_octet_stream() {
    assert_eq!(asset_headers("assets/blob.unknownext"), ("application/octet-stream".to_string(), true));
}

#[test]
fn database_times_are_read_in_utc() {
    assert_eq!(parse_db_time("2024-01-02T03:04:05+00:00"), Some(Timestamp::new(1_704_164_645, 0)));
    assert_eq!(parse_db_time("2024-01-02T11:04:05.5+08:00"), Some(Timestamp::new(1_704_164_645, 500_000_000)));
}

#[test]
fn invalid_database_time_is_refused() {
    assert_eq!(parse_db_time("yesterday"), None);
    assert_eq!(parse_db_time(""), None);
}

#[test]
fn database_time_round_trips_through_rfc3339() {
    let time = Timestamp::new(1_704_164_645, 250_000_000);
    let text = time.to_rfc3339().unwrap();
    assert_eq!(text, "2024-01-02T03:04:05.250+00:00");
    assert_eq!(parse_db_time(&text), Some(time));
}

#[test]
fn session_errors_have_their_messages() {
    assert_eq!(SessionError::Expired.message(), "session has expired");
    assert_eq!(SessionError::MalformedCookie.message(), "session cookie is malformed");
    assert_eq!(
        SessionError::Serialize("boom".to_string()).message(),
        "session payload could not be serialized: boom"
    );
}
