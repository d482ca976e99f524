//! A mirror that follows the whole token: it asks for every event at one
//! callback.

use vstd::prelude::*;
use crate::ledger::{ingest, ingestion, Ledger};
use crate::principal::Principal;
use crate::recovery::{due_after, fires, ResubscriptionScheduler};
use crate::types::{entries_of, CallbackInfo, CallbackView, Entry, Error, Event, EventFilter, EventKind, Subscribe, SubscribeRequest};

verus! {

/// The state of the mirror: its journal and the job that makes it
/// subscribe.
pub struct Mirror {
    pub ledger: Ledger,
    pub recovery: ResubscriptionScheduler,
}

/// What the mirror asks for: every event, at `events_callback`.
pub open spec fn mirror_callbacks() -> Seq<CallbackView> {
    seq![CallbackView { filter: EventFilter::Any, method_name: "events_callback"@ }]
}

/// A mirror of `token_principal` with an empty journal and its subscription
/// due at once.
pub fn init(token_principal: Principal, now: u64) -> (state: Mirror)
    ensures
        state.ledger.token == token_principal,
        state.ledger.entries@ == Seq::<Entry>::empty(),
        state.recovery.due() == Some(now),
{
    Mirror {
        ledger: Ledger { token: token_principal, entries: Vec::new() },
        recovery: ResubscriptionScheduler::new(&token_principal, now),
    }
}

/// A tick at `now`. If the subscription is due, the job is spent and the
/// result is the request to send to the token; else nothing happens.
pub fn tick(state: &mut Mirror, now: u64) -> (r: Option<Subscribe>)
    ensures
        final(state).ledger == old(state).ledger,
        final(state).recovery.due() == due_after(old(state).recovery.due(), now),
        r is Some == fires(old(state).recovery.due(), now),
        r matches Some(subscribe) ==> subscribe.target == old(state).ledger.token
            && subscribe.request@ == mirror_callbacks(),
{
    if !state.recovery.tick(now) {
        return None;
    }
    let mut callbacks: Vec<CallbackInfo> = Vec::new();
    callbacks.push(
        CallbackInfo { filter: EventFilter::Any, method_name: "events_callback".to_owned() },
    );
    let request = SubscribeRequest { callbacks };
    assert(request@ =~= mirror_callbacks());
    Some(Subscribe { target: state.ledger.token, request })
}

/// Takes a batch of events of any kind from `caller` into the journal.
pub fn events_callback(ledger: &mut Ledger, caller: Principal, events: Vec<Event>) -> (r: Result<
    (),
    Error,
>)
    ensures
        r == ingestion(old(ledger).token, caller, None::<EventKind>, events@),
        final(ledger).token == old(ledger).token,
        r is Ok ==> final(ledger).entries@ == old(ledger).entries@ + entries_of(events@),
        r is Err ==> final(ledger).entries@ == old(ledger).entries@,
{
    ingest(ledger, &caller, None, &events)
}

} // verus!
