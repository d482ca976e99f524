//! A mirror that follows one account: it asks the token for the mints,
//! transfers and burns that touch the account, each kind at a callback of
//! its own.

use vstd::prelude::*;
use crate::ledger::{ingest, ingestion, Ledger};
use crate::principal::Principal;
use crate::recovery::{due_after, fires, ResubscriptionScheduler};
use crate::types::{entries_of, CallbackInfo, CallbackView, Error, Event, EventFilter, EventKind, Subscribe, SubscribeRequest};

verus! {

/// The state of the mirror: its journal, the account it follows and the job
/// that makes it subscribe.
pub struct Tracker {
    pub ledger: Ledger,
    pub track: Principal,
    pub recovery: ResubscriptionScheduler,
}

/// What the mirror of `track` asks for: mints to it at `mint_callback`,
/// transfers out of it and transfers into it at `transfer_callback`, burns
/// out of it at `burn_callback`.
pub open spec fn tracking_callbacks(track: Principal) -> Seq<CallbackView> {
    seq![
        CallbackView {
            filter: EventFilter::Mint { to: Some(track) },
            method_name: "mint_callback"@,
        },
        CallbackView {
            filter: EventFilter::Transfer { from: Some(track), to: None },
            method_name: "transfer_callback"@,
        },
        CallbackView {
            filter: EventFilter::Transfer { from: None, to: Some(track) },
            method_name: "transfer_callback"@,
        },
        CallbackView {
            filter: EventFilter::Burn { from: Some(track) },
            method_name: "burn_callback"@,
        },
    ]
}

/// A mirror of `token_principal` that follows `track_principal`, with an
/// empty journal and its subscription due at once.
pub fn init(token_principal: Principal, track_principal: Principal, now: u64) -> (state: Tracker)
    ensures
        state.ledger.token == token_principal,
        state.ledger.entries@ == Seq::<crate::types::Entry>::empty(),
        state.track == track_principal,
        state.recovery.due() == Some(now),
{
    Tracker {
        ledger: Ledger { token: token_principal, entries: Vec::new() },
        track: track_principal,
        recovery: ResubscriptionScheduler::new(&token_principal, now),
    }
}

/// A tick at `now`. If the subscription is due, the job is spent and the
/// result is the request to send to the token; else nothing happens.
pub fn tick(state: &mut Tracker, now: u64) -> (r: Option<Subscribe>)
    ensures
        final(state).ledger == old(state).ledger,
        final(state).track == old(state).track,
        final(state).recovery.due() == due_after(old(state).recovery.due(), now),
        r is Some == fires(old(state).recovery.due(), now),
        r matches Some(subscribe) ==> subscribe.target == old(state).ledger.token
            && subscribe.request@ == tracking_callbacks(old(state).track),
{
    if !state.recovery.tick(now) {
        return None;
    }
    let track = state.track;
    let mut callbacks: Vec<CallbackInfo> = Vec::new();
    callbacks.push(
        CallbackInfo {
            filter: EventFilter::Mint { to: Some(track) },
            method_name: "mint_callback".to_owned(),
        },
    );
    callbacks.push(
        CallbackInfo {
            filter: EventFilter::Transfer { from: Some(track), to: None },
            method_name: "transfer_callback".to_owned(),
        },
    );
    callbacks.push(
        CallbackInfo {
            filter: EventFilter::Transfer { from: None, to: Some(track) },
            method_name: "transfer_callback".to_owned(),
        },
    );
    callbacks.push(
        CallbackInfo {
            filter: EventFilter::Burn { from: Some(track) },
            method_name: "burn_callback".to_owned(),
        },
    );
    let request = SubscribeRequest { callbacks };
    assert(request@ =~= tracking_callbacks(track));
    Some(Subscribe { target: state.ledger.token, request })
}

/// Takes a batch of mints from `caller` into the journal.
pub fn mint_callback(ledger: &mut Ledger, caller: Principal, events: Vec<Event>) -> (r: Result<
    (),
    Error,
>)
    ensures
        r == ingestion(old(ledger).token, caller, Some(EventKind::Mint), events@),
        final(ledger).token == old(ledger).token,
        r is Ok ==> final(ledger).entries@ == old(ledger).entries@ + entries_of(events@),
        r is Err ==> final(ledger).entries@ == old(ledger).entries@,
{
    ingest(ledger, &caller, Some(EventKind::Mint), &events)
}

/// Takes a batch of transfers from `caller` into the journal.
pub fn transfer_callback(ledger: &mut Ledger, caller: Principal, events: Vec<Event>) -> (r: Result<
    (),
    Error,
>)
    ensures
        r == ingestion(old(ledger).token, caller, Some(EventKind::Transfer), events@),
        final(ledger).token == old(ledger).token,
        r is Ok ==> final(ledger).entries@ == old(ledger).entries@ + entries_of(events@),
        r is Err ==> final(ledger).entries@ == old(ledger).entries@,
{
    ingest(ledger, &caller, Some(EventKind::Transfer), &events)
}

/// Takes a batch of burns from `caller` into the journal.
pub fn burn_callback(ledger: &mut Ledger, caller: Principal, events: Vec<Event>) -> (r: Result<
    (),
    Error,
>)
    ensures
        r == ingestion(old(ledger).token, caller, Some(EventKind::Burn), events@),
        final(ledger).token == old(ledger).token,
        r is Ok ==> final(ledger).entries@ == old(ledger).entries@ + entries_of(events@),
        r is Err ==> final(ledger).entries@ == old(ledger).entries@,
{
    ingest(ledger, &caller, Some(EventKind::Burn), &events)
}

} // verus!
