use floral_sync_server::protocol::WaitResponse;
use floral_sync_server::sync_api::{
    authorize, begin_wait, finish_wait, health_response, ApiError, ChangesQuery, WaitEvent,
    WaitQuery, WaitStep,
};

#[test]
fn wait_for_change_returns_immediately_when_revision_is_newer() {
    let step = begin_wait(&WaitQuery { since: Some(0), timeout_seconds: Some(1) }, 1);
    assert_eq!(step, WaitStep::Respond(WaitResponse { revision: 1, changed: true }));
}

#[test]
fn wait_without_news_waits_for_the_clamped_timeout() {
    let query = |timeout_seconds| WaitQuery { since: Some(4), timeout_seconds };
    assert_eq!(begin_wait(&query(Some(1)), 4), WaitStep::Await { timeout_seconds: 1 });
    assert_eq!(begin_wait(&query(None), 3), WaitStep::Await { timeout_seconds: 25 });
    assert_eq!(begin_wait(&query(Some(0)), 4), WaitStep::Await { timeout_seconds: 1 });
    assert_eq!(begin_wait(&query(Some(600)), 4), WaitStep::Await { timeout_seconds: 55 });
    assert_eq!(begin_wait(&query(Some(55)), 4), WaitStep::Await { timeout_seconds: 55 });
}

#[test]
fn wait_for_change_times_out_without_updates() {
    assert_eq!(
        finish_wait(WaitEvent::TimedOut(0)),
        Ok(WaitResponse { revision: 0, changed: false })
    );
}

#[test]
fn wait_for_change_unblocks_after_push() {
    assert_eq!(
        finish_wait(WaitEvent::Changed(1)),
        Ok(WaitResponse { revision: 1, changed: true })
    );
}

#[test]
fn closed_revision_channel_is_an_internal_error() {
    let error = finish_wait(WaitEvent::ChannelClosed).expect_err("closed channel");
    assert_eq!(error, ApiError::Internal("revision wait channel closed".to_string()));
    assert_eq!(error.status_code(), 500);
    assert_eq!(error.message(), "revision wait channel closed");
}

#[test]
fn queries_default_to_revision_zero() {
    assert_eq!(ChangesQuery { since: None }.since_revision(), 0);
    assert_eq!(ChangesQuery { since: Some(7) }.since_revision(), 7);
    assert_eq!(WaitQuery { since: None, timeout_seconds: None }.since_revision(), 0);
    assert_eq!(WaitQuery { since: None, timeout_seconds: None }.timeout(), 25);
}

#[test]
fn authorize_requires_the_exact_bearer_token() {
    assert_eq!(authorize(Some("Bearer token"), "token"), Ok(()));
    assert_eq!(authorize(Some("Bearer other"), "token"), Err(ApiError::Unauthorized));
    assert_eq!(authorize(None, "token"), Err(ApiError::Unauthorized));
    assert_eq!(ApiError::Unauthorized.status_code(), 401);
    assert_eq!(ApiError::Unauthorized.message(), "");
}

#[test]
fn health_reports_ok_and_the_revision() {
    let health = health_response(9);
    assert!(health.ok);
    assert_eq!(health.revision, 9);
}
