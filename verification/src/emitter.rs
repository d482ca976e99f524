//! What the token has to tell and has not told yet: the events waiting to
//! be sent, and their way into one batch for each callback that wants
//! them.

use vstd::prelude::*;
use crate::principal::Principal;
use crate::registry::{subscription_views, SubscriptionRegistry, SubscriptionView};
use crate::types::{callback_views, entries_of, CallbackView, Entry, Event, EventFilter};

verus! {

/// An event that waits to be sent: its size in bytes as it will be sent,
/// and when it was emitted.
#[derive(Clone, Copy, Debug, PartialEq, Eq)]
pub struct PendingEvent {
    pub event: Event,
    pub size: u64,
    pub emitted_at: u64,
}

/// Events to hand to one method of one subscriber, oldest first.
#[derive(Debug)]
pub struct Batch {
    pub subscriber: Principal,
    pub method_name: String,
    pub events: Vec<Event>,
}

/// A [`Batch`] with its method name and events as sequences.
pub struct BatchView {
    pub subscriber: Principal,
    pub method_name: Seq<char>,
    pub events: Seq<Event>,
}

impl View for Batch {
    type V = BatchView;

    open spec fn view(&self) -> BatchView {
        BatchView {
            subscriber: self.subscriber,
            method_name: self.method_name@,
            events: self.events@,
        }
    }
}

/// The views of `batches`, in the same order.
pub open spec fn batch_views(batches: Seq<Batch>) -> Seq<BatchView> {
    batches.map_values(|b: Batch| b@)
}

/// The events that wait, in the order in which they were emitted.
pub open spec fn events_of(pending: Seq<PendingEvent>) -> Seq<Event> {
    pending.map_values(|p: PendingEvent| p.event)
}

/// The size of all that waits.
pub open spec fn bytes_of(pending: Seq<PendingEvent>) -> nat
    decreases pending.len(),
{
    if pending.len() == 0 {
        0
    } else {
        bytes_of(pending.drop_last()) + pending.last().size as nat
    }
}

/// The events among `events` that pass `filter`, in the same order.
pub open spec fn selected(events: Seq<Event>, filter: EventFilter) -> Seq<Event> {
    events.filter(|e: Event| filter.matches(e))
}

/// The places in `events` of those that pass `filter`, in rising order.
pub open spec fn passing(events: Seq<Event>, filter: EventFilter) -> Seq<int>
    decreases events.len(),
{
    if events.len() == 0 {
        Seq::empty()
    } else if filter.matches(events.last()) {
        passing(events.drop_last(), filter).push(events.len() - 1)
    } else {
        passing(events.drop_last(), filter)
    }
}

/// The batches for one subscriber: for each of its callbacks, in their
/// order, what passes the filter of the callback, unless nothing does.
pub open spec fn batches_for_subscriber(
    subscriber: Principal,
    callbacks: Seq<CallbackView>,
    events: Seq<Event>,
) -> Seq<BatchView>
    decreases callbacks.len(),
{
    if callbacks.len() == 0 {
        Seq::empty()
    } else {
        let before = batches_for_subscriber(subscriber, callbacks.drop_last(), events);
        let chosen = selected(events, callbacks.last().filter);
        if chosen.len() == 0 {
            before
        } else {
            before.push(
                BatchView { subscriber, method_name: callbacks.last().method_name, events: chosen },
            )
        }
    }
}

/// The batches for all subscribers, subscriber after subscriber.
pub open spec fn batches_for(listing: Seq<SubscriptionView>, events: Seq<Event>) -> Seq<BatchView>
    decreases listing.len(),
{
    if listing.len() == 0 {
        Seq::empty()
    } else {
        batches_for(listing.drop_last(), events) + batches_for_subscriber(
            listing.last().subscriber,
            listing.last().callbacks,
            events,
        )
    }
}

/// What is selected is exactly what passes the filter, each event once and
/// in the order of emission: the k-th selected event is the one at the
/// k-th passing place, the passing places rise, every event at one of them
/// passes the filter, and every event that passes is at one of them.
pub proof fn lemma_selected_in_order(events: Seq<Event>, filter: EventFilter)
    ensures
        selected(events, filter).len() == passing(events, filter).len(),
        forall|k: int|
            0 <= k < passing(events, filter).len() ==> {
                &&& 0 <= #[trigger] passing(events, filter)[k] < events.len()
                &&& events[passing(events, filter)[k]] == selected(events, filter)[k]
                &&& filter.matches(selected(events, filter)[k])
            },
        forall|k: int, l: int|
            0 <= k < l < passing(events, filter).len() ==> passing(events, filter)[k] < passing(
                events,
                filter,
            )[l],
        forall|i: int|
            0 <= i < events.len() && filter.matches(#[trigger] events[i]) ==> passing(
                events,
                filter,
            ).contains(i),
    decreases events.len(),
{
    reveal(Seq::filter);
    if events.len() > 0 {
        let front = events.drop_last();
        lemma_selected_in_order(front, filter);
        assert forall|i: int|
            0 <= i < events.len() && filter.matches(#[trigger] events[i]) implies passing(
            events,
            filter,
        ).contains(i) by {
            if i < front.len() {
                assert(front[i] == events[i]);
                let k = choose|k: int|
                    0 <= k < passing(front, filter).len() && passing(front, filter)[k] == i;
                assert(passing(events, filter)[k] == i);
            } else {
                assert(passing(events, filter)[passing(events, filter).len() - 1] == i);
            }
        }
    }
}

/// A journal that takes in what was selected for it grows by the entries
/// of the events that pass the filter, in the order of emission.
pub proof fn lemma_journal_follows_emission(
    journal: Seq<Entry>,
    emitted: Seq<Event>,
    filter: EventFilter,
)
    ensures
        ({
            let after = journal + entries_of(selected(emitted, filter));
            &&& after.len() == journal.len() + passing(emitted, filter).len()
            &&& forall|k: int|
                0 <= k < passing(emitted, filter).len() ==> #[trigger] after[journal.len() + k]
                    == Entry::of(emitted[passing(emitted, filter)[k]])
        }),
{
    lemma_selected_in_order(emitted, filter);
}

proof fn lemma_bytes_grow(pending: Seq<PendingEvent>, upto: int)
    requires
        0 <= upto <= pending.len(),
    ensures
        bytes_of(pending.take(upto)) <= bytes_of(pending),
    decreases pending.len(),
{
    if upto < pending.len() {
        lemma_bytes_grow(pending.drop_last(), upto);
        assert(pending.drop_last().take(upto) =~= pending.take(upto));
    } else {
        assert(pending.take(upto) =~= pending);
    }
}

/// The events of `pending` that pass `filter`.
fn select(pending: &Vec<PendingEvent>, filter: &EventFilter) -> (chosen: Vec<Event>)
    ensures
        chosen@ == selected(events_of(pending@), *filter),
{
    let mut chosen: Vec<Event> = Vec::new();
    let mut i: usize = 0;
    proof {
        reveal(Seq::filter);
        assert(events_of(pending@.take(0)) =~= Seq::<Event>::empty());
    }
    while i < pending.len()
        invariant
            i <= pending@.len(),
            chosen@ == selected(events_of(pending@.take(i as int)), *filter),
        decreases pending@.len() - i,
    {
        let event = pending[i].event;
        proof {
            reveal(Seq::filter);
            let longer = events_of(pending@.take(i + 1));
            assert(longer.drop_last() =~= events_of(pending@.take(i as int)));
            assert(longer.last() == event);
        }
        if filter.accepts(&event) {
            chosen.push(event);
        }
        i += 1;
    }
    assert(pending@.take(pending@.len() as int) =~= pending@);
    chosen
}

/// Holds the events of the token until they are sent, and the batches that
/// could not be delivered until they are sent again.
#[derive(Debug)]
pub struct EventEmitter {
    /// The longest that an event waits, in nanoseconds.
    pub max_interval_nano: u64,
    /// The size in bytes above which what waits is sent at once.
    pub max_bytes: u64,
    /// What waits, oldest first.
    pub pending: Vec<PendingEvent>,
    /// The batches to send again, oldest first.
    pub failed: Vec<Batch>,
}

impl EventEmitter {
    /// Whether what waits is to be sent at `now`: there is something, and
    /// it is larger than `max_bytes` or its oldest event has waited for
    /// `max_interval_nano`.
    pub open spec fn due(&self, now: u64) -> bool {
        &&& self.pending@.len() > 0
        &&& (bytes_of(self.pending@) > self.max_bytes || now - self.pending@[0].emitted_at
            >= self.max_interval_nano)
    }

    /// An emitter with nothing to send.
    pub fn new(max_interval_nano: u64, max_bytes: u64) -> (emitter: EventEmitter)
        ensures
            emitter.max_interval_nano == max_interval_nano,
            emitter.max_bytes == max_bytes,
            emitter.pending@ == Seq::<PendingEvent>::empty(),
            emitter.failed@ == Seq::<Batch>::empty(),
    {
        EventEmitter { max_interval_nano, max_bytes, pending: Vec::new(), failed: Vec::new() }
    }

    /// Takes in an event emitted at `now`, of `size` bytes: it waits behind
    /// all that waits already.
    pub fn emit(&mut self, event: Event, size: u64, now: u64)
        ensures
            final(self).pending@ == old(self).pending@.push(
                PendingEvent { event, size, emitted_at: now },
            ),
            final(self).failed == old(self).failed,
            final(self).max_interval_nano == old(self).max_interval_nano,
            final(self).max_bytes == old(self).max_bytes,
    {
        self.pending.push(PendingEvent { event, size, emitted_at: now });
    }

    /// Takes back a batch that could not be delivered: it is sent again at
    /// the next tick, behind the batches taken back before it.
    pub fn retry(&mut self, batch: Batch)
        ensures
            final(self).failed@ == old(self).failed@.push(batch),
            final(self).pending == old(self).pending,
            final(self).max_interval_nano == old(self).max_interval_nano,
            final(self).max_bytes == old(self).max_bytes,
    {
        self.failed.push(batch);
    }

    /// Whether what waits is to be sent at `now`.
    pub fn is_due(&self, now: u64) -> (r: bool)
        ensures
            r == self.due(now),
    {
        if self.pending.len() == 0 {
            return false;
        }
        let oldest = self.pending[0].emitted_at;
        if now >= oldest && now - oldest >= self.max_interval_nano {
            return true;
        }
        let mut sum: u64 = 0;
        let mut i: usize = 0;
        assert(self.pending@.take(0) =~= Seq::<PendingEvent>::empty());
        while i < self.pending.len()
            invariant
                i <= self.pending@.len(),
                sum == bytes_of(self.pending@.take(i as int)),
                sum <= self.max_bytes,
            decreases self.pending@.len() - i,
        {
            let size = self.pending[i].size;
            proof {
                assert(self.pending@.take(i + 1).drop_last() =~= self.pending@.take(i as int));
                lemma_bytes_grow(self.pending@, i + 1);
            }
            if size > self.max_bytes - sum {
                return true;
            }
            sum += size;
            i += 1;
        }
        assert(self.pending@.take(self.pending@.len() as int) =~= self.pending@);
        false
    }

    /// A tick at `now`. The batches to send are those that were taken back,
    /// and behind them, if what waits is due, one batch for each callback
    /// of each subscriber of `registry` whose filter lets any of it pass.
    /// What was due no longer waits.
    pub fn tick(&mut self, registry: &SubscriptionRegistry, now: u64) -> (batches: Vec<Batch>)
        ensures
            batch_views(batches@) == batch_views(old(self).failed@) + (if old(self).due(now) {
                batches_for(registry@, events_of(old(self).pending@))
            } else {
                Seq::empty()
            }),
            final(self).failed@ == Seq::<Batch>::empty(),
            final(self).pending@ == (if old(self).due(now) {
                Seq::empty()
            } else {
                old(self).pending@
            }),
            final(self).max_interval_nano == old(self).max_interval_nano,
            final(self).max_bytes == old(self).max_bytes,
    {
        let mut batches: Vec<Batch> = Vec::new();
        core::mem::swap(&mut batches, &mut self.failed);
        if !self.is_due(now) {
            assert(batch_views(batches@) =~= batch_views(old(self).failed@) + Seq::<
                BatchView,
            >::empty());
            return batches;
        }
        let ghost base = batch_views(old(self).failed@);
        let ghost events = events_of(self.pending@);
        let ghost listing = registry@;
        let subscriptions = registry.subscriptions();
        let mut i: usize = 0;
        assert(batch_views(batches@) =~= base + batches_for(listing.take(0), events));
        while i < subscriptions.len()
            invariant
                i <= subscriptions@.len(),
                listing == subscription_views(subscriptions@),
                events == events_of(self.pending@),
                batch_views(batches@) == base + batches_for(listing.take(i as int), events),
            decreases subscriptions@.len() - i,
        {
            let subscription = &subscriptions[i];
            let ghost callbacks = callback_views(subscription.callbacks@);
            let ghost done = base + batches_for(listing.take(i as int), events);
            let mut j: usize = 0;
            assert(batch_views(batches@) =~= done + batches_for_subscriber(
                subscription.subscriber,
                callbacks.take(0),
                events,
            ));
            while j < subscription.callbacks.len()
                invariant
                    j <= subscription.callbacks@.len(),
                    callbacks == callback_views(subscription.callbacks@),
                    events == events_of(self.pending@),
                    batch_views(batches@) == done + batches_for_subscriber(
                        subscription.subscriber,
                        callbacks.take(j as int),
                        events,
                    ),
                decreases subscription.callbacks@.len() - j,
            {
                let callback = &subscription.callbacks[j];
                let chosen = select(&self.pending, &callback.filter);
                proof {
                    assert(callbacks.take(j + 1).drop_last() =~= callbacks.take(j as int));
                    assert(callbacks.take(j + 1).last() == callback@);
                }
                if chosen.len() > 0 {
                    let ghost before = batches@;
                    let batch = Batch {
                        subscriber: subscription.subscriber,
                        method_name: callback.method_name.clone(),
                        events: chosen,
                    };
                    batches.push(batch);
                    assert(batch_views(batches@) =~= batch_views(before).push(batch@));
                    assert(batch_views(batches@) =~= done + batches_for_subscriber(
                        subscription.subscriber,
                        callbacks.take(j + 1),
                        events,
                    ));
                }
                j += 1;
            }
            proof {
                assert(callbacks.take(subscription.callbacks@.len() as int) =~= callbacks);
                assert(listing.take(i + 1).drop_last() =~= listing.take(i as int));
                assert(listing.take(i + 1).last() == subscription@);
                assert(batch_views(batches@) =~= base + batches_for(listing.take(i + 1), events));
            }
            i += 1;
        }
        assert(listing.take(subscriptions@.len() as int) =~= listing);
        self.pending = Vec::new();
        batches
    }
}

} // verus!
