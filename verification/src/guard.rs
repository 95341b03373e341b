//! The session guard: what every protected request has to pass before
//! its handler runs.
//!
//! The guard decides and never acts. It is a state machine: [`auth_validate`]
//! takes the guard's state and what has just happened, and gives the next
//! state and what to do. Whoever owns the session store performs the store
//! requests that the guard hands out and comes back with the outcome.
//!
//! A session lives in the collection `user_session` as a document with the
//! fields `session_id` and `active_period_expires_at`, the latter in seconds
//! since the Unix epoch. Every admitted request moves the expiry to
//! [`SESSION_TIME`] seconds after the time of the request.

use crate::cookie::{cookie_of, read_cookie, trim, trim_ascii, QUOTE};
use crate::document::Document;
use crate::protocol::{
    Mutation, MutationView, StoreReply, StoreReplyView, StoreRequest, StoreRequestView,
};
use crate::value::{field_value, FieldView, Value, ValueView};
use vstd::prelude::*;
use vstd::string::*;

verus! {

/// Seconds by which an admitted request extends its session.
pub const SESSION_TIME: i64 = 60;

/// The status code of the answer to a request that the guard rejects.
pub const UNAUTHORIZED: u16 = 401;

/// Name of the cookie that carries the session token.
pub open spec fn session_cookie() -> Seq<char> {
    "session"@
}

/// The cookie value that stands for "no cookie": a session cannot have it as
/// its token.
pub open spec fn no_cookie() -> Seq<char> {
    "Error"@
}

/// Name of the collection that holds the sessions.
pub open spec fn session_collection() -> Seq<char> {
    "user_session"@
}

/// Name of the field that holds a session's token.
pub open spec fn token_field() -> Seq<char> {
    "session_id"@
}

/// Name of the field that holds a session's expiry.
pub open spec fn expiry_field() -> Seq<char> {
    "active_period_expires_at"@
}

/// The session token that a request carries: the value of its `session`
/// cookie without the quotes around it. There is none when the request has no
/// `Cookie` header, when the header is not ASCII or has no `session` pair, or
/// when the cookie's value is the word that stands for "no cookie".
pub open spec fn session_token(cookie_header: Option<Seq<char>>) -> Option<Seq<char>> {
    match cookie_header {
        Some(header) => match cookie_of(header, session_cookie()) {
            Some(value) => {
                if value == no_cookie() {
                    None
                } else {
                    Some(trim(value, '"', '"'))
                }
            },
            None => None,
        },
        None => None,
    }
}

/// The request that looks a session up by its token.
pub open spec fn lookup_request(token: Seq<char>) -> StoreRequestView {
    StoreRequestView::FindOne {
        collection: session_collection(),
        field: token_field(),
        value: ValueView::Text(token),
    }
}

/// The request that moves the expiry of the sessions with this token.
pub open spec fn extend_request(token: Seq<char>, expires_at: i64) -> StoreRequestView {
    StoreRequestView::Update {
        collection: session_collection(),
        field: token_field(),
        value: ValueView::Text(token),
        mutation: MutationView::SetField {
            name: expiry_field(),
            value: ValueView::Int(expires_at),
        },
    }
}

/// The expiry that a session document holds, when it holds one as an integer.
pub open spec fn expiry_of(document: Seq<FieldView>) -> Option<i64> {
    match field_value(document, expiry_field()) {
        Some(ValueView::Int(expires_at)) => Some(expires_at),
        _ => None,
    }
}

/// Where the guard stands with one request.
#[derive(Debug, PartialEq, Eq, Clone)]
pub enum GuardState {
    /// Nothing has been looked at yet.
    Start,
    /// The lookup of the session with this token is under way.
    Lookup { token: String },
    /// The write of the new expiry is under way.
    Extend,
    /// The request has been admitted or rejected.
    Closed,
}

/// Mathematical form of a [`GuardState`].
pub enum GuardStateView {
    Start,
    Lookup { token: Seq<char> },
    Extend,
    Closed,
}

impl View for GuardState {
    type V = GuardStateView;

    open spec fn view(&self) -> GuardStateView {
        match self {
            GuardState::Start => GuardStateView::Start,
            GuardState::Lookup { token } => GuardStateView::Lookup { token: token@ },
            GuardState::Extend => GuardStateView::Extend,
            GuardState::Closed => GuardStateView::Closed,
        }
    }
}

/// What has just happened.
#[derive(Debug, PartialEq, Eq, Clone)]
pub enum GuardEvent {
    /// A request came in, with this `Cookie` header if it had one.
    Request { cookie_header: Option<String> },
    /// The store found the session; this is its expiry.
    Found { expires_at: i64 },
    /// The store has no such session.
    Missing,
    /// The store wrote the new expiry.
    Written,
    /// The store failed.
    Failed,
}

/// Mathematical form of a [`GuardEvent`].
pub enum GuardEventView {
    Request { cookie_header: Option<Seq<char>> },
    Found { expires_at: i64 },
    Missing,
    Written,
    Failed,
}

impl View for GuardEvent {
    type V = GuardEventView;

    open spec fn view(&self) -> GuardEventView {
        match self {
            GuardEvent::Request { cookie_header } => GuardEventView::Request {
                cookie_header: match cookie_header {
                    Some(header) => Some(header@),
                    None => None,
                },
            },
            GuardEvent::Found { expires_at } => GuardEventView::Found { expires_at: *expires_at },
            GuardEvent::Missing => GuardEventView::Missing,
            GuardEvent::Written => GuardEventView::Written,
            GuardEvent::Failed => GuardEventView::Failed,
        }
    }
}

/// What to do next.
#[derive(Debug, PartialEq, Eq, Clone)]
pub enum GuardAction {
    /// Perform this request on the session store and come back with its
    /// outcome.
    Ask(StoreRequest),
    /// Let the request through to its handler.
    Admit,
    /// Answer "unauthorized" and do not run the handler.
    Reject,
}

/// Mathematical form of a [`GuardAction`].
pub enum GuardActionView {
    Ask(StoreRequestView),
    Admit,
    Reject,
}

impl View for GuardAction {
    type V = GuardActionView;

    open spec fn view(&self) -> GuardActionView {
        match self {
            GuardAction::Ask(request) => GuardActionView::Ask(request@),
            GuardAction::Admit => GuardActionView::Admit,
            GuardAction::Reject => GuardActionView::Reject,
        }
    }
}

/// One step of the guard at time `now`.
///
/// A request without a session token is rejected at once. A session that the
/// store does not find, or whose expiry lies before `now`, is rejected; so is
/// every request after a store failure. A session that has not expired gets
/// the expiry `now + SESSION_TIME`, and the request is admitted once that is
/// written. A time so late that the new expiry does not fit admits nobody.
pub open spec fn guard_step(state: GuardStateView, event: GuardEventView, now: i64) -> (
    GuardStateView,
    GuardActionView,
) {
    match (state, event) {
        (GuardStateView::Start, GuardEventView::Request { cookie_header }) => {
            match session_token(cookie_header) {
                Some(token) => (
                    GuardStateView::Lookup { token },
                    GuardActionView::Ask(lookup_request(token)),
                ),
                None => (GuardStateView::Closed, GuardActionView::Reject),
            }
        },
        (GuardStateView::Lookup { token }, GuardEventView::Found { expires_at }) => {
            if now > expires_at || now + SESSION_TIME > i64::MAX {
                (GuardStateView::Closed, GuardActionView::Reject)
            } else {
                (
                    GuardStateView::Extend,
                    GuardActionView::Ask(extend_request(token, (now + SESSION_TIME) as i64)),
                )
            }
        },
        (GuardStateView::Extend, GuardEventView::Written) => (
            GuardStateView::Closed,
            GuardActionView::Admit,
        ),
        _ => (GuardStateView::Closed, GuardActionView::Reject),
    }
}

/// What a store's reply means to the guard. A found document that holds no
/// integer expiry is no session, and means nothing.
pub open spec fn guard_event_of(reply: StoreReplyView) -> Option<GuardEventView> {
    match reply {
        StoreReplyView::FoundOne { document: Some(document) } => match expiry_of(document) {
            Some(expires_at) => Some(GuardEventView::Found { expires_at }),
            None => None,
        },
        StoreReplyView::FoundOne { document: None } => Some(GuardEventView::Missing),
        StoreReplyView::Updated { .. } => Some(GuardEventView::Written),
        StoreReplyView::Failed => Some(GuardEventView::Failed),
        _ => None,
    }
}

/// Reads the session token out of a request's `Cookie` header.
pub fn read_session_token(cookie_header: &Option<String>) -> (token: Option<String>)
    ensures
        match token {
            Some(text) => session_token(header_view(*cookie_header)) == Some(text@),
            None => session_token(header_view(*cookie_header)) is None,
        },
{
    match cookie_header {
        Some(header) => match read_cookie(header.as_str(), "session") {
            Some(value) => {
                let none: String = "Error".to_owned();
                if value == none {
                    None
                } else {
                    Some(String::from_str(trim_ascii(value.as_str(), QUOTE, QUOTE)))
                }
            },
            None => None,
        },
        None => None,
    }
}

/// The view of a header that may be missing.
pub open spec fn header_view(cookie_header: Option<String>) -> Option<Seq<char>> {
    match cookie_header {
        Some(header) => Some(header@),
        None => None,
    }
}

/// The expiry that a session document holds.
pub fn session_expiry(document: &Document) -> (expiry: Option<i64>)
    ensures
        expiry == expiry_of(document@),
{
    match document.get("active_period_expires_at") {
        Some(Value::Int(expires_at)) => Some(*expires_at),
        _ => None,
    }
}

/// Tells the guard what a store's reply means.
pub fn guard_event(reply: &StoreReply) -> (event: Option<GuardEvent>)
    ensures
        match event {
            Some(happened) => guard_event_of(reply@) == Some(happened@),
            None => guard_event_of(reply@) is None,
        },
{
    match reply {
        StoreReply::FoundOne { document: Some(document) } => match session_expiry(document) {
            Some(expires_at) => Some(GuardEvent::Found { expires_at }),
            None => None,
        },
        StoreReply::FoundOne { document: None } => Some(GuardEvent::Missing),
        StoreReply::Updated { .. } => Some(GuardEvent::Written),
        StoreReply::Failed => Some(GuardEvent::Failed),
        _ => None,
    }
}

/// One step of the guard at the time `now`, in seconds since the Unix epoch.
pub fn auth_validate_at(state: GuardState, event: GuardEvent, now: i64) -> (next: (
    GuardState,
    GuardAction,
))
    ensures
        (next.0@, next.1@) == guard_step(state@, event@, now),
{
    match state {
        GuardState::Start => match event {
            GuardEvent::Request { cookie_header } => match read_session_token(&cookie_header) {
                Some(token) => {
                    let request = StoreRequest::FindOne {
                        collection: "user_session".to_owned(),
                        field: "session_id".to_owned(),
                        value: Value::Text(token.clone()),
                    };
                    (GuardState::Lookup { token }, GuardAction::Ask(request))
                },
                None => (GuardState::Closed, GuardAction::Reject),
            },
            _ => (GuardState::Closed, GuardAction::Reject),
        },
        GuardState::Lookup { token } => match event {
            GuardEvent::Found { expires_at } => {
                if now > expires_at || now > i64::MAX - SESSION_TIME {
                    (GuardState::Closed, GuardAction::Reject)
                } else {
                    let request = StoreRequest::Update {
                        collection: "user_session".to_owned(),
                        field: "session_id".to_owned(),
                        value: Value::Text(token),
                        mutation: Mutation::SetField {
                            name: "active_period_expires_at".to_owned(),
                            value: Value::Int(now + SESSION_TIME),
                        },
                    };
                    (GuardState::Extend, GuardAction::Ask(request))
                }
            },
            _ => (GuardState::Closed, GuardAction::Reject),
        },
        GuardState::Extend => match event {
            GuardEvent::Written => (GuardState::Closed, GuardAction::Admit),
            _ => (GuardState::Closed, GuardAction::Reject),
        },
        GuardState::Closed => (GuardState::Closed, GuardAction::Reject),
    }
}

/// The current time in seconds since the Unix epoch.
///
/// Calls `chrono::Utc::now` and, on what it returns, `DateTime::timestamp`.
/// Nothing is claimed of the result: it is whatever the system clock says.
/// `Utc::now` panics where the system clock stands before the Unix epoch.
#[verifier::external_body]
fn unix_time() -> (now: i64) {
    chrono::Utc::now().timestamp()
}

/// One step of the guard at the current time.
///
/// The step is that of [`auth_validate_at`] for the time that the system
/// clock gives, whatever it is. The clock is read when a session was found
/// and at no other step.
pub fn auth_validate(state: GuardState, event: GuardEvent) -> (next: (GuardState, GuardAction))
    ensures
        exists|now: i64| (next.0@, next.1@) == guard_step(state@, event@, now),
        !(state@ is Lookup && event@ is Found) ==> forall|now: i64|
            (next.0@, next.1@) == guard_step(state@, event@, now),
{
    let now = match (&state, &event) {
        (GuardState::Lookup { .. }, GuardEvent::Found { .. }) => unix_time(),
        _ => 0,
    };
    auth_validate_at(state, event, now)
}

} // verus!
