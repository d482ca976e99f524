//! The operations that the token offers to callers: each checks who
//! calls, changes the holdings and says which event is to be emitted.

use vstd::prelude::*;
use crate::currency_token::CurrencyToken;
use crate::emitter::{batch_views, batches_for, events_of, Batch, EventEmitter, PendingEvent};
use crate::guards::controller_guard;
use crate::holdings::{Holdings, Operation};
use crate::principal::Principal;
use crate::registry::SubscriptionRegistry;
use crate::types::{BurnEvent, Error, MintEvent, TokenInfo, TransferEvent};

verus! {

/// A token of which nothing exists yet, with `controller` as its only
/// controller.
pub fn init(controller: Principal, info: TokenInfo) -> (token: CurrencyToken)
    ensures
        token.wf(),
        token@.consistent(),
        token@ == Holdings::empty(),
        token.info_view() == info,
        token.controllers_view() == seq![controller],
{
    CurrencyToken::new(controller, info)
}

/// Creates `qty` for `to` at the call of a controller. The caller is
/// checked first, the quantity then; where both pass, the holdings change
/// and the result is the event to emit.
pub fn mint(token: &mut CurrencyToken, caller: Principal, to: Principal, qty: u64, now: u64) -> (r:
    Result<MintEvent, Error>)
    requires
        old(token).wf(),
        old(token)@.fits(Operation::Mint { to, qty }),
    ensures
        final(token).wf(),
        final(token)@.consistent(),
        final(token).info_view() == old(token).info_view(),
        final(token).controllers_view() == old(token).controllers_view(),
        r == (if !old(token).controllers_view().contains(caller) {
            Err::<MintEvent, Error>(Error::AccessDenied)
        } else {
            match old(token)@.verdict(Operation::Mint { to, qty }) {
                Err(e) => Err::<MintEvent, Error>(e),
                Ok(_) => Ok::<MintEvent, Error>(MintEvent { to, amount: qty, timestamp: now }),
            }
        }),
        final(token)@ == (if r is Ok {
            old(token)@.after(Operation::Mint { to, qty })
        } else {
            old(token)@
        }),
{
    match controller_guard(token, &caller) {
        Err(e) => {
            proof {
                token.lemma_wf_is_consistent();
            }
            return Err(e);
        },
        Ok(_) => {},
    }
    match token.mint(to, qty) {
        Err(e) => Err(e),
        Ok(_) => Ok(MintEvent { to, amount: qty, timestamp: now }),
    }
}

/// Moves `qty` from the caller to `to`. Where the quantity and the balance
/// of the caller allow it, the holdings change and the result is the event
/// to emit; a transfer to oneself changes nothing and is emitted all the
/// same.
pub fn transfer(token: &mut CurrencyToken, caller: Principal, to: Principal, qty: u64, now: u64) -> (r:
    Result<TransferEvent, Error>)
    requires
        old(token).wf(),
    ensures
        final(token).wf(),
        final(token)@.consistent(),
        final(token).info_view() == old(token).info_view(),
        final(token).controllers_view() == old(token).controllers_view(),
        r == (match old(token)@.verdict(Operation::Transfer { from: caller, to, qty }) {
            Err(e) => Err::<TransferEvent, Error>(e),
            Ok(_) => Ok::<TransferEvent, Error>(
                TransferEvent { from: caller, to, amount: qty, timestamp: now },
            ),
        }),
        final(token)@ == old(token)@.after(Operation::Transfer { from: caller, to, qty }),
{
    let from = caller;
    match token.transfer(from, to, qty) {
        Err(e) => Err(e),
        Ok(_) => Ok(TransferEvent { from, to, amount: qty, timestamp: now }),
    }
}

/// Destroys `qty` out of what the caller holds. Where the quantity and the
/// balance of the caller allow it, the holdings change and the result is
/// the event to emit.
pub fn burn(token: &mut CurrencyToken, caller: Principal, qty: u64, now: u64) -> (r: Result<
    BurnEvent,
    Error,
>)
    requires
        old(token).wf(),
    ensures
        final(token).wf(),
        final(token)@.consistent(),
        final(token).info_view() == old(token).info_view(),
        final(token).controllers_view() == old(token).controllers_view(),
        r == (match old(token)@.verdict(Operation::Burn { from: caller, qty }) {
            Err(e) => Err::<BurnEvent, Error>(e),
            Ok(_) => Ok::<BurnEvent, Error>(BurnEvent { from: caller, amount: qty, timestamp: now }),
        }),
        final(token)@ == old(token)@.after(Operation::Burn { from: caller, qty }),
{
    let from = caller;
    match token.burn(from, qty) {
        Err(e) => Err(e),
        Ok(_) => Ok(BurnEvent { from, amount: qty, timestamp: now }),
    }
}

/// A tick at `now`: what is to be sent to the subscribers. See
/// [`EventEmitter::tick`].
pub fn tick(emitter: &mut EventEmitter, registry: &SubscriptionRegistry, now: u64) -> (batches: Vec<
    Batch,
>)
    ensures
        batch_views(batches@) == batch_views(old(emitter).failed@) + (if old(emitter).due(now) {
            batches_for(registry@, events_of(old(emitter).pending@))
        } else {
            Seq::empty()
        }),
        final(emitter).failed@ == Seq::<Batch>::empty(),
        final(emitter).pending@ == (if old(emitter).due(now) {
            Seq::<PendingEvent>::empty()
        } else {
            old(emitter).pending@
        }),
        final(emitter).max_interval_nano == old(emitter).max_interval_nano,
        final(emitter).max_bytes == old(emitter).max_bytes,
{
    emitter.tick(registry, now)
}

} // verus!
