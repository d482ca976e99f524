//! Who listens to the token, and with which callbacks.

use vstd::prelude::*;
use crate::principal::Principal;
use crate::types::{callback_views, CallbackInfo, CallbackView, Error, SubscribeRequest};

verus! {

/// One subscriber and its callbacks, in the order in which it gave them.
#[derive(Debug)]
pub struct Subscription {
    pub subscriber: Principal,
    pub callbacks: Vec<CallbackInfo>,
}

/// A [`Subscription`] with its callbacks as a sequence of views.
pub struct SubscriptionView {
    pub subscriber: Principal,
    pub callbacks: Seq<CallbackView>,
}

impl View for Subscription {
    type V = SubscriptionView;

    open spec fn view(&self) -> SubscriptionView {
        SubscriptionView { subscriber: self.subscriber, callbacks: callback_views(self.callbacks@) }
    }
}

/// The views of `subscriptions`, in the same order.
pub open spec fn subscription_views(subscriptions: Seq<Subscription>) -> Seq<SubscriptionView> {
    subscriptions.map_values(|s: Subscription| s@)
}

/// Where `subscriber` stands in `listing`: the index of its first
/// subscription, or the length of `listing` if it has none.
pub open spec fn slot(listing: Seq<SubscriptionView>, subscriber: Principal) -> int
    decreases listing.len(),
{
    if listing.len() == 0 {
        0
    } else if listing.first().subscriber == subscriber {
        0
    } else {
        1 + slot(listing.drop_first(), subscriber)
    }
}

/// `listing` after `subscriber` has asked for `callbacks`: they take the
/// place of what it had asked for before, or come last if it is new.
pub open spec fn subscribed(
    listing: Seq<SubscriptionView>,
    subscriber: Principal,
    callbacks: Seq<CallbackView>,
) -> Seq<SubscriptionView> {
    let at = slot(listing, subscriber);
    let entry = SubscriptionView { subscriber, callbacks };
    if at < listing.len() {
        listing.update(at, entry)
    } else {
        listing.push(entry)
    }
}

/// `listing` after `subscriber` has left: as it was, if it was not there.
pub open spec fn unsubscribed(listing: Seq<SubscriptionView>, subscriber: Principal) -> Seq<
    SubscriptionView,
> {
    let at = slot(listing, subscriber);
    if at < listing.len() {
        listing.remove(at)
    } else {
        listing
    }
}

/// No subscriber is listed twice.
pub open spec fn each_once(listing: Seq<SubscriptionView>) -> bool {
    forall|i: int, j: int|
        0 <= i < j < listing.len() ==> (#[trigger] listing[i]).subscriber != (
        #[trigger] listing[j]).subscriber
}

/// The slot of a subscriber is in range and holds it; nothing before the
/// slot does.
pub proof fn lemma_slot(listing: Seq<SubscriptionView>, subscriber: Principal)
    ensures
        0 <= slot(listing, subscriber) <= listing.len(),
        slot(listing, subscriber) < listing.len() ==> listing[slot(
            listing,
            subscriber,
        )].subscriber == subscriber,
        forall|i: int| 0 <= i < slot(listing, subscriber) ==> (#[trigger] listing[i]).subscriber != subscriber,
    decreases listing.len(),
{
    if listing.len() > 0 && listing.first().subscriber != subscriber {
        let rest = listing.drop_first();
        lemma_slot(rest, subscriber);
        assert forall|i: int| 0 <= i < slot(listing, subscriber) implies (#[trigger] listing[i]).subscriber
            != subscriber by {
            if i > 0 {
                assert(listing[i] == rest[i - 1]);
            }
        }
    }
}

/// The slot of a subscriber is the one place where it is listed, if the
/// listing holds it at all.
pub proof fn lemma_slot_found(listing: Seq<SubscriptionView>, subscriber: Principal, at: int)
    requires
        0 <= at < listing.len(),
        listing[at].subscriber == subscriber,
        forall|i: int| 0 <= i < at ==> (#[trigger] listing[i]).subscriber != subscriber,
    ensures
        slot(listing, subscriber) == at,
{
    lemma_slot(listing, subscriber);
}

/// A subscriber not listed has the length of the listing as its slot.
pub proof fn lemma_slot_absent(listing: Seq<SubscriptionView>, subscriber: Principal)
    requires
        forall|i: int| 0 <= i < listing.len() ==> (#[trigger] listing[i]).subscriber != subscriber,
    ensures
        slot(listing, subscriber) == listing.len(),
{
    lemma_slot(listing, subscriber);
}

/// What `subscriber` has asked for, if it is listed.
pub open spec fn callbacks_of(listing: Seq<SubscriptionView>, subscriber: Principal) -> Option<
    Seq<CallbackView>,
> {
    let at = slot(listing, subscriber);
    if 0 <= at < listing.len() {
        Some(listing[at].callbacks)
    } else {
        None
    }
}

/// Subscribing keeps every subscriber listed once, lists the subscriber
/// with just what it asked for, and leaves the others as they were.
pub proof fn lemma_subscribed(
    listing: Seq<SubscriptionView>,
    subscriber: Principal,
    callbacks: Seq<CallbackView>,
)
    requires
        each_once(listing),
    ensures
        each_once(subscribed(listing, subscriber, callbacks)),
        callbacks_of(subscribed(listing, subscriber, callbacks), subscriber) == Some(callbacks),
        forall|other: Principal|
            other != subscriber ==> #[trigger] callbacks_of(
                subscribed(listing, subscriber, callbacks),
                other,
            ) == callbacks_of(listing, other),
{
    let after = subscribed(listing, subscriber, callbacks);
    let at = slot(listing, subscriber);
    lemma_slot(listing, subscriber);
    assert forall|i: int| 0 <= i < at implies (#[trigger] after[i]).subscriber != subscriber by {
        assert(after[i] == listing[i]);
    }
    lemma_slot_found(after, subscriber, at);
    assert forall|other: Principal| other != subscriber implies #[trigger] callbacks_of(
        after,
        other,
    ) == callbacks_of(listing, other) by {
        lemma_slot(listing, other);
        let there = slot(listing, other);
        if there < listing.len() {
            assert(after[there] == listing[there]);
            assert forall|i: int| 0 <= i < there implies (#[trigger] after[i]).subscriber
                != other by {
                if i != at {
                    assert(after[i] == listing[i]);
                }
            }
            lemma_slot_found(after, other, there);
        } else {
            assert forall|i: int| 0 <= i < after.len() implies (#[trigger] after[i]).subscriber
                != other by {
                if i != at {
                    assert(after[i] == listing[i]);
                }
            }
            lemma_slot_absent(after, other);
        }
    }
    assert forall|i: int, j: int| 0 <= i < j < after.len() implies (#[trigger] after[i]).subscriber
        != (#[trigger] after[j]).subscriber by {
        if i != at {
            assert(after[i] == listing[i]);
        }
        if j != at {
            assert(after[j] == listing[j]);
        }
    }
}

/// Subscribing twice with the same callbacks is subscribing once.
pub proof fn lemma_subscribe_idempotent(
    listing: Seq<SubscriptionView>,
    subscriber: Principal,
    callbacks: Seq<CallbackView>,
)
    ensures
        subscribed(subscribed(listing, subscriber, callbacks), subscriber, callbacks) == subscribed(
            listing,
            subscriber,
            callbacks,
        ),
{
    let once = subscribed(listing, subscriber, callbacks);
    let at = slot(listing, subscriber);
    lemma_slot(listing, subscriber);
    assert forall|i: int| 0 <= i < at implies (#[trigger] once[i]).subscriber != subscriber by {
        assert(once[i] == listing[i]);
    }
    lemma_slot_found(once, subscriber, at);
    assert(subscribed(once, subscriber, callbacks) =~= once);
}

/// After leaving, a subscriber is not listed, and the others are listed
/// once, with what they had asked for.
pub proof fn lemma_unsubscribed(listing: Seq<SubscriptionView>, subscriber: Principal)
    requires
        each_once(listing),
    ensures
        each_once(unsubscribed(listing, subscriber)),
        callbacks_of(unsubscribed(listing, subscriber), subscriber) is None,
        callbacks_of(listing, subscriber) is None ==> unsubscribed(listing, subscriber) == listing,
        forall|other: Principal|
            other != subscriber ==> #[trigger] callbacks_of(
                unsubscribed(listing, subscriber),
                other,
            ) == callbacks_of(listing, other),
{
    let after = unsubscribed(listing, subscriber);
    let at = slot(listing, subscriber);
    lemma_slot(listing, subscriber);
    assert forall|i: int| 0 <= i < after.len() implies #[trigger] after[i] == listing[if i < at {
        i
    } else {
        i + 1
    }] by {}
    assert forall|i: int| 0 <= i < after.len() implies (#[trigger] after[i]).subscriber
        != subscriber by {
        let i0 = if i < at { i } else { i + 1 };
        assert(after[i] == listing[i0]);
        if i0 > at {
            assert(listing[at].subscriber != listing[i0].subscriber);
        }
    }
    assert forall|i: int, j: int| 0 <= i < j < after.len() implies (#[trigger] after[i]).subscriber
        != (#[trigger] after[j]).subscriber by {
        let i0 = if i < at { i } else { i + 1 };
        let j0 = if j < at { j } else { j + 1 };
        assert(after[i] == listing[i0] && after[j] == listing[j0]);
        assert(listing[i0].subscriber != listing[j0].subscriber);
    }
    lemma_slot_absent(after, subscriber);
    assert forall|other: Principal| other != subscriber implies #[trigger] callbacks_of(
        after,
        other,
    ) == callbacks_of(listing, other) by {
        lemma_slot(listing, other);
        let there = slot(listing, other);
        if there < listing.len() {
            let moved = if there < at { there } else { there - 1 };
            assert(after[moved] == listing[there]);
            assert forall|i: int| 0 <= i < moved implies (#[trigger] after[i]).subscriber
                != other by {
                let i0 = if i < at { i } else { i + 1 };
                assert(after[i] == listing[i0]);
            }
            lemma_slot_found(after, other, moved);
        } else {
            assert forall|i: int| 0 <= i < after.len() implies (#[trigger] after[i]).subscriber
                != other by {
                let i0 = if i < at { i } else { i + 1 };
                assert(after[i] == listing[i0]);
            }
            lemma_slot_absent(after, other);
        }
    }
}

/// The subscribers of a token, each with its callbacks.
#[derive(Debug)]
pub struct SubscriptionRegistry {
    subscriptions: Vec<Subscription>,
}

impl View for SubscriptionRegistry {
    type V = Seq<SubscriptionView>;

    closed spec fn view(&self) -> Seq<SubscriptionView> {
        subscription_views(self.subscriptions@)
    }
}

impl SubscriptionRegistry {
    /// A registry without subscribers.
    pub fn new() -> (registry: SubscriptionRegistry)
        ensures
            registry@ == Seq::<SubscriptionView>::empty(),
    {
        let registry = SubscriptionRegistry { subscriptions: Vec::new() };
        assert(registry@ =~= Seq::<SubscriptionView>::empty());
        registry
    }

    /// The subscriptions, in the order in which the subscribers came.
    pub fn subscriptions(&self) -> (subscriptions: &Vec<Subscription>)
        ensures
            subscription_views(subscriptions@) == self@,
    {
        &self.subscriptions
    }

    fn find(&self, subscriber: &Principal) -> (at: usize)
        ensures
            at == slot(self@, *subscriber),
            at <= self.subscriptions@.len(),
    {
        let mut i: usize = 0;
        while i < self.subscriptions.len()
            invariant
                i <= self.subscriptions@.len(),
                self@.len() == self.subscriptions@.len(),
                forall|j: int| 0 <= j < i ==> (#[trigger] self@[j]).subscriber != *subscriber,
            decreases self.subscriptions@.len() - i,
        {
            if self.subscriptions[i].subscriber == *subscriber {
                proof {
                    assert(self@[i as int].subscriber == *subscriber);
                    lemma_slot_found(self@, *subscriber, i as int);
                }
                return i;
            }
            assert(self@[i as int].subscriber != *subscriber);
            i += 1;
        }
        proof {
            lemma_slot_absent(self@, *subscriber);
        }
        i
    }

    /// Lists `subscriber` with the callbacks of `request`, in place of what
    /// it had before. Never refused.
    pub fn subscribe(&mut self, subscriber: Principal, request: SubscribeRequest) -> (r: Result<
        (),
        Error,
    >)
        ensures
            r is Ok,
            final(self)@ == subscribed(old(self)@, subscriber, request@),
    {
        let at = self.find(&subscriber);
        let entry = Subscription { subscriber, callbacks: request.callbacks };
        if at < self.subscriptions.len() {
            self.subscriptions.set(at, entry);
        } else {
            self.subscriptions.push(entry);
        }
        assert(self@ =~= subscribed(old(self)@, subscriber, request@));
        Ok(())
    }

    /// Takes `subscriber` off the list; nothing happens if it is not on it.
    /// Never refused.
    pub fn unsubscribe(&mut self, subscriber: Principal) -> (r: Result<(), Error>)
        ensures
            r is Ok,
            final(self)@ == unsubscribed(old(self)@, subscriber),
    {
        let at = self.find(&subscriber);
        if at < self.subscriptions.len() {
            self.subscriptions.remove(at);
        }
        assert(self@ =~= unsubscribed(old(self)@, subscriber));
        Ok(())
    }
}

} // verus!
