//! Decisions of the sync API: query defaults, bearer authorization and the
//! long-poll that waits for the revision to move past a client's cursor.
use vstd::prelude::*;
use crate::auth::{bearer_matches_spec, bearer_token_matches};
use crate::protocol::{HealthResponse, WaitResponse};
use crate::text::string_of;

verus! {

/// The long-poll timeout used when the client names none.
pub const DEFAULT_WAIT_TIMEOUT_SECONDS: u64 = 25;

/// The longest long-poll timeout a client may ask for.
pub const MAX_WAIT_TIMEOUT_SECONDS: u64 = 55;

/// The query of the changes endpoint: the revision the client has seen.
#[derive(Debug, Clone, Copy, PartialEq, Eq)]
pub struct ChangesQuery {
    pub since: Option<u64>,
}

/// The query of the long-poll endpoint.
#[derive(Debug, Clone, Copy, PartialEq, Eq)]
pub struct WaitQuery {
    pub since: Option<u64>,
    pub timeout_seconds: Option<u64>,
}

/// A revision cursor, with an absent one read as zero.
pub open spec fn since_spec(since: Option<u64>) -> u64 {
    match since {
        Some(s) => s,
        None => 0,
    }
}

/// The timeout a long-poll waits: the requested one, 25 s by default,
/// clamped to `1..=55`.
pub open spec fn wait_timeout_spec(requested: Option<u64>) -> u64 {
    let t = match requested {
        Some(t) => t,
        None => DEFAULT_WAIT_TIMEOUT_SECONDS,
    };
    if t < 1 {
        1
    } else if t > MAX_WAIT_TIMEOUT_SECONDS {
        MAX_WAIT_TIMEOUT_SECONDS
    } else {
        t
    }
}

impl ChangesQuery {
    /// The revision after which changes are wanted.
    pub fn since_revision(&self) -> (r: u64)
        ensures
            r == since_spec(self.since),
    {
        match self.since {
            Some(s) => s,
            None => 0,
        }
    }
}

impl WaitQuery {
    /// The revision the client has already seen.
    pub fn since_revision(&self) -> (r: u64)
        ensures
            r == since_spec(self.since),
    {
        match self.since {
            Some(s) => s,
            None => 0,
        }
    }

    /// The number of seconds to wait for a new revision.
    pub fn timeout(&self) -> (r: u64)
        ensures
            r == wait_timeout_spec(self.timeout_seconds),
            1 <= r <= MAX_WAIT_TIMEOUT_SECONDS,
    {
        let t = match self.timeout_seconds {
            Some(t) => t,
            None => DEFAULT_WAIT_TIMEOUT_SECONDS,
        };
        if t < 1 {
            1
        } else if t > MAX_WAIT_TIMEOUT_SECONDS {
            MAX_WAIT_TIMEOUT_SECONDS
        } else {
            t
        }
    }
}

/// Errors of the sync API.
#[derive(Debug, Clone, PartialEq, Eq)]
pub enum ApiError {
    Unauthorized,
    Store(String),
    Internal(String),
}

impl ApiError {
    /// The HTTP status the error is answered with.
    pub fn status_code(&self) -> (r: u16)
        ensures
            r == match self {
                ApiError::Unauthorized => 401u16,
                _ => 500u16,
            },
    {
        match self {
            ApiError::Unauthorized => 401,
            _ => 500,
        }
    }

    /// The body the error is answered with.
    pub fn message(&self) -> (r: String)
        ensures
            r@ == match self {
                ApiError::Unauthorized => Seq::<char>::empty(),
                ApiError::Store(m) => m@,
                ApiError::Internal(m) => m@,
            },
    {
        match self {
            ApiError::Unauthorized => {
                let r = String::new();
                r
            },
            ApiError::Store(m) => m.clone(),
            ApiError::Internal(m) => m.clone(),
        }
    }
}

/// Admits a request whose `Authorization` header is `Bearer <token>`; any
/// other request, including one without the header or with a header that is
/// not valid text, is refused as unauthorized.
pub fn authorize(authorization: Option<&str>, token: &str) -> (r: Result<(), ApiError>)
    ensures
        r is Ok <==> bearer_matches_spec(
            match authorization {
                Some(h) => Some(h@),
                None => None,
            },
            token@,
        ),
        r is Err ==> r == Err::<(), ApiError>(ApiError::Unauthorized),
{
    if bearer_token_matches(authorization, token) {
        Ok(())
    } else {
        Err(ApiError::Unauthorized)
    }
}

/// The health answer at the given revision.
pub fn health_response(revision: u64) -> (r: HealthResponse)
    ensures
        r.ok,
        r.revision == revision,
{
    HealthResponse { ok: true, revision }
}

/// What a long-poll does once it knows the current revision: answer at once,
/// or wait for a change for the given number of seconds.
#[derive(Debug, Clone, Copy, PartialEq, Eq)]
pub enum WaitStep {
    Respond(WaitResponse),
    Await { timeout_seconds: u64 },
}

/// How a wait for a new revision ended.
#[derive(Debug, Clone, Copy, PartialEq, Eq)]
pub enum WaitEvent {
    /// The revision changed; it is now the given one.
    Changed(u64),
    /// The revision channel closed before anything changed.
    ChannelClosed,
    /// The timeout passed; the revision is the given one.
    TimedOut(u64),
}

/// The long-poll answer at a revision.
pub open spec fn wait_answer(revision: u64, changed: bool) -> WaitResponse {
    WaitResponse { revision, changed }
}

/// The step that waits for the given number of seconds.
pub open spec fn await_step(timeout_seconds: u64) -> WaitStep {
    WaitStep::Await { timeout_seconds }
}

/// The first step of a long-poll: a revision past the client's cursor is
/// reported at once as a change; otherwise the poll waits for the query's
/// clamped timeout.
pub fn begin_wait(query: &WaitQuery, current: u64) -> (r: WaitStep)
    ensures
        current > since_spec(query.since) ==> r == WaitStep::Respond(wait_answer(current, true)),
        current <= since_spec(query.since) ==> r == await_step(
            wait_timeout_spec(query.timeout_seconds),
        ),
{
    let since = query.since_revision();
    if current > since {
        WaitStep::Respond(WaitResponse { revision: current, changed: true })
    } else {
        WaitStep::Await { timeout_seconds: query.timeout() }
    }
}

/// The answer of a long-poll that waited: a change is reported as such, a
/// timeout as no change at the current revision, a closed channel as an
/// internal error.
pub fn finish_wait(event: WaitEvent) -> (r: Result<WaitResponse, ApiError>)
    ensures
        match event {
            WaitEvent::Changed(rev) => r == Ok::<WaitResponse, ApiError>(wait_answer(rev, true)),
            WaitEvent::TimedOut(rev) => r == Ok::<WaitResponse, ApiError>(wait_answer(rev, false)),
            WaitEvent::ChannelClosed => r matches Err(ApiError::Internal(m)) && m@
                == "revision wait channel closed"@,
        },
{
    match event {
        WaitEvent::Changed(rev) => Ok(WaitResponse { revision: rev, changed: true }),
        WaitEvent::TimedOut(rev) => Ok(WaitResponse { revision: rev, changed: false }),
        WaitEvent::ChannelClosed => Err(ApiError::Internal(string_of("revision wait channel closed"))),
    }
}

} // verus!
