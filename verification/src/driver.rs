//! The guard and the service at work: each driven against a store that
//! performs the requests they hand out.
//!
//! [`served`] and [`guard_run`] say what comes of it for every store that
//! follows [`store_step`]. [`serve`] and [`run_guard`] do it with the store
//! in memory.

use crate::guard::{
    auth_validate_at, guard_event, guard_event_of, guard_step, header_view, GuardAction,
    GuardActionView, GuardEvent, GuardEventView, GuardState, GuardStateView,
};
use crate::model::{store_step, StoreView};
use crate::protocol::{StoreRequest, StoreRequestView};
use crate::service::{
    outcome_view, respond, response_to, ServiceError, ServiceResponse, ServiceResponseView,
};
use crate::store::MemoryStore;
use vstd::prelude::*;

verus! {

/// The store and the answer to the client after the store has performed the
/// request of one operation.
pub open spec fn served(db: StoreView, request: StoreRequestView) -> (
    StoreView,
    Result<ServiceResponseView, ServiceError>,
) {
    let (after, reply) = store_step(db, request);
    (after, response_to(request, reply))
}

/// The store and the verdict after the guard, in `state`, was told `event`
/// and then driven on: the store performs what the guard asks for and the
/// guard is told the reply, until the guard admits or rejects. There is no
/// verdict when the guard asks more than `asks` times, or when a reply means
/// nothing to it.
pub open spec fn guard_driven(
    db: StoreView,
    state: GuardStateView,
    event: GuardEventView,
    now: i64,
    asks: nat,
) -> (StoreView, Option<bool>)
    decreases asks,
{
    let (next, action) = guard_step(state, event, now);
    match action {
        GuardActionView::Admit => (db, Some(true)),
        GuardActionView::Reject => (db, Some(false)),
        GuardActionView::Ask(request) => {
            if asks == 0 {
                (db, None)
            } else {
                let (after, reply) = store_step(db, request);
                match guard_event_of(reply) {
                    Some(outcome) => guard_driven(after, next, outcome, now, (asks - 1) as nat),
                    None => (after, None),
                }
            }
        },
    }
}

/// The store and the verdict after the guard has dealt with a request that
/// came with this `Cookie` header at the time `now`.
pub open spec fn guard_run(db: StoreView, cookie_header: Option<Seq<char>>, now: i64) -> (
    StoreView,
    Option<bool>,
) {
    guard_driven(db, GuardStateView::Start, GuardEventView::Request { cookie_header }, now, 2)
}

/// Has the store perform the request of one operation and gives the answer
/// for the client.
pub fn serve(db: &mut MemoryStore, request: &StoreRequest) -> (outcome: Result<
    ServiceResponse,
    ServiceError,
>)
    requires
        old(db)@.wf(),
    ensures
        final(db)@.wf(),
        (final(db)@, outcome_view(outcome)) == served(old(db)@, request@),
{
    let reply = db.execute(request);
    respond(request, reply)
}

/// Tells the guard `event` and drives it on against the store.
fn drive(
    db: &mut MemoryStore,
    state: GuardState,
    event: GuardEvent,
    now: i64,
    asks: u8,
) -> (verdict: Option<bool>)
    requires
        old(db)@.wf(),
    ensures
        final(db)@.wf(),
        (final(db)@, verdict) == guard_driven(old(db)@, state@, event@, now, asks as nat),
    decreases asks,
{
    let (next, action) = auth_validate_at(state, event, now);
    match action {
        GuardAction::Admit => Some(true),
        GuardAction::Reject => Some(false),
        GuardAction::Ask(request) => {
            if asks == 0 {
                return None;
            }
            let reply = db.execute(&request);
            match guard_event(&reply) {
                Some(outcome) => drive(db, next, outcome, now, asks - 1),
                None => None,
            }
        },
    }
}

/// Runs the guard on a request that came with this `Cookie` header at the
/// time `now`: `Some(true)` when the request is admitted, `Some(false)` when
/// it is rejected, and nothing when the session that the store found holds no
/// integer expiry.
pub fn run_guard(db: &mut MemoryStore, cookie_header: Option<String>, now: i64) -> (verdict:
    Option<bool>)
    requires
        old(db)@.wf(),
    ensures
        final(db)@.wf(),
        (final(db)@, verdict) == guard_run(old(db)@, header_view(cookie_header), now),
{
    drive(db, GuardState::Start, GuardEvent::Request { cookie_header }, now, 2)
}

} // verus!
