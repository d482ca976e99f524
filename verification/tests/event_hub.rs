use token_ledger::emitter::{Batch, EventEmitter, PendingEvent};
use token_ledger::mirror;
use token_ledger::principal::Principal;
use token_ledger::registry::SubscriptionRegistry;
use token_ledger::token;
use token_ledger::tracker;
use token_ledger::types::{
    BurnEvent, CallbackInfo, Entry, Event, EventFilter, MintEvent, SubscribeRequest, TransferEvent,
};

fn id(byte: u8) -> Principal {
    Principal::from_slice(&[byte]).unwrap()
}

fn mint(to: u8, amount: u64) -> Event {
    Event::Mint(MintEvent { to: id(to), amount, timestamp: 0 })
}

fn transfer(from: u8, to: u8, amount: u64) -> Event {
    Event::Transfer(TransferEvent { from: id(from), to: id(to), amount, timestamp: 0 })
}

fn burn(from: u8, amount: u64) -> Event {
    Event::Burn(BurnEvent { from: id(from), amount, timestamp: 0 })
}

fn callback(filter: EventFilter, method_name: &str) -> CallbackInfo {
    CallbackInfo { filter, method_name: String::from(method_name) }
}

fn request(callbacks: Vec<CallbackInfo>) -> SubscribeRequest {
    SubscribeRequest { callbacks }
}

fn shape(batches: &[Batch]) -> Vec<(Principal, String, Vec<Event>)> {
    batches.iter().map(|b| (b.subscriber, b.method_name.clone(), b.events.clone())).collect()
}

#[test]
fn filter_any_lets_everything_pass() {
    assert!(EventFilter::Any.accepts(&mint(1, 1)));
    assert!(EventFilter::Any.accepts(&transfer(1, 2, 1)));
    assert!(EventFilter::Any.accepts(&burn(1, 1)));
}

#[test]
fn filter_without_constraint_goes_by_the_variant() {
    let mints = EventFilter::Mint { to: None };
    assert!(mints.accepts(&mint(1, 1)));
    assert!(!mints.accepts(&transfer(1, 2, 1)));
    assert!(!mints.accepts(&burn(1, 1)));
    let transfers = EventFilter::Transfer { from: None, to: None };
    assert!(transfers.accepts(&transfer(1, 2, 1)));
    assert!(!transfers.accepts(&mint(1, 1)));
    let burns = EventFilter::Burn { from: None };
    assert!(burns.accepts(&burn(1, 1)));
    assert!(!burns.accepts(&transfer(1, 2, 1)));
}

#[test]
fn filter_constraints_must_all_hold() {
    let to_one = EventFilter::Mint { to: Some(id(1)) };
    assert!(to_one.accepts(&mint(1, 5)));
    assert!(!to_one.accepts(&mint(2, 5)));

    let from_one = EventFilter::Transfer { from: Some(id(1)), to: None };
    assert!(from_one.accepts(&transfer(1, 2, 5)));
    assert!(!from_one.accepts(&transfer(2, 1, 5)));

    let one_to_two = EventFilter::Transfer { from: Some(id(1)), to: Some(id(2)) };
    assert!(one_to_two.accepts(&transfer(1, 2, 5)));
    assert!(!one_to_two.accepts(&transfer(1, 3, 5)));
    assert!(!one_to_two.accepts(&transfer(3, 2, 5)));

    let burnt_by_one = EventFilter::Burn { from: Some(id(1)) };
    assert!(burnt_by_one.accepts(&burn(1, 5)));
    assert!(!burnt_by_one.accepts(&burn(2, 5)));
    assert!(!burnt_by_one.accepts(&mint(1, 5)));
}

#[test]
fn registry_lists_subscribers_in_the_order_they_came() {
    let mut registry = SubscriptionRegistry::new();
    assert!(registry.subscriptions().is_empty());
    assert_eq!(registry.subscribe(id(1), request(vec![callback(EventFilter::Any, "a")])), Ok(()));
    assert_eq!(registry.subscribe(id(2), request(vec![callback(EventFilter::Any, "b")])), Ok(()));
    let listed = registry.subscriptions();
    assert_eq!(listed.len(), 2);
    assert_eq!(listed[0].subscriber, id(1));
    assert_eq!(listed[0].callbacks[0].method_name, "a");
    assert_eq!(listed[1].subscriber, id(2));
    assert_eq!(listed[1].callbacks[0].method_name, "b");
}

#[test]
fn subscribing_again_replaces_the_callbacks() {
    let mut registry = SubscriptionRegistry::new();
    registry.subscribe(id(1), request(vec![callback(EventFilter::Any, "a")])).unwrap();
    registry.subscribe(id(2), request(vec![callback(EventFilter::Any, "b")])).unwrap();
    let again = vec![
        callback(EventFilter::Mint { to: None }, "c"),
        callback(EventFilter::Burn { from: None }, "d"),
    ];
    assert_eq!(registry.subscribe(id(1), request(again)), Ok(()));
    let listed = registry.subscriptions();
    assert_eq!(listed.len(), 2);
    assert_eq!(listed[0].subscriber, id(1));
    assert_eq!(listed[0].callbacks.len(), 2);
    assert_eq!(listed[0].callbacks[0].filter, EventFilter::Mint { to: None });
    assert_eq!(listed[0].callbacks[0].method_name, "c");
    assert_eq!(listed[0].callbacks[1].method_name, "d");
    assert_eq!(listed[1].subscriber, id(2));
}

#[test]
fn subscribing_twice_is_subscribing_once() {
    let mut registry = SubscriptionRegistry::new();
    registry.subscribe(id(1), request(vec![callback(EventFilter::Any, "a")])).unwrap();
    registry.subscribe(id(1), request(vec![callback(EventFilter::Any, "a")])).unwrap();
    assert_eq!(registry.subscriptions().len(), 1);
    assert_eq!(registry.subscriptions()[0].callbacks.len(), 1);
}

#[test]
fn unsubscribing_removes_and_tolerates_strangers() {
    let mut registry = SubscriptionRegistry::new();
    registry.subscribe(id(1), request(vec![callback(EventFilter::Any, "a")])).unwrap();
    registry.subscribe(id(2), request(vec![callback(EventFilter::Any, "b")])).unwrap();
    registry.subscribe(id(3), request(vec![callback(EventFilter::Any, "c")])).unwrap();

    assert_eq!(registry.unsubscribe(id(9)), Ok(()));
    assert_eq!(registry.subscriptions().len(), 3);

    assert_eq!(registry.unsubscribe(id(2)), Ok(()));
    assert_eq!(registry.subscriptions().len(), 2);
    assert_eq!(registry.subscriptions()[0].subscriber, id(1));
    assert_eq!(registry.subscriptions()[1].subscriber, id(3));

    assert_eq!(registry.unsubscribe(id(2)), Ok(()));
    assert_eq!(registry.subscriptions().len(), 2);
}

#[test]
fn emitter_starts_with_nothing_to_send() {
    let mut emitter = EventEmitter::new(10, 100);
    assert_eq!(emitter.max_interval_nano, 10);
    assert_eq!(emitter.max_bytes, 100);
    assert!(!emitter.is_due(0));
    assert!(!emitter.is_due(u64::MAX));
    let registry = SubscriptionRegistry::new();
    assert!(emitter.tick(&registry, u64::MAX).is_empty());
}

#[test]
fn emitter_waits_for_the_interval() {
    let mut emitter = EventEmitter::new(10, 100);
    emitter.emit(mint(1, 1), 40, 5);
    assert_eq!(emitter.pending, vec![PendingEvent { event: mint(1, 1), size: 40, emitted_at: 5 }]);
    assert!(!emitter.is_due(5));
    assert!(!emitter.is_due(14));
    assert!(emitter.is_due(15));
    assert!(emitter.is_due(16));
}

#[test]
fn emitter_counts_the_interval_from_the_oldest_event() {
    let mut emitter = EventEmitter::new(10, 100);
    emitter.emit(mint(1, 1), 1, 5);
    emitter.emit(mint(1, 2), 1, 14);
    assert!(!emitter.is_due(14));
    assert!(emitter.is_due(15));
}

#[test]
fn emitter_is_not_due_when_the_clock_runs_back() {
    let mut emitter = EventEmitter::new(10, 100);
    emitter.emit(mint(1, 1), 1, 50);
    assert!(!emitter.is_due(0));
    let mut at_once = EventEmitter::new(0, 100);
    at_once.emit(mint(1, 1), 1, 50);
    assert!(!at_once.is_due(49));
    assert!(at_once.is_due(50));
}

#[test]
fn emitter_sends_early_when_too_much_waits() {
    let mut emitter = EventEmitter::new(1000, 100);
    emitter.emit(mint(1, 1), 40, 0);
    emitter.emit(mint(1, 2), 60, 0);
    assert!(!emitter.is_due(1));
    emitter.emit(mint(1, 3), 1, 0);
    assert!(emitter.is_due(1));
}

#[test]
fn emitter_copes_with_sizes_that_do_not_add_up_in_64_bits() {
    let mut emitter = EventEmitter::new(1000, u64::MAX);
    emitter.emit(mint(1, 1), u64::MAX, 0);
    assert!(!emitter.is_due(1));
    emitter.emit(mint(1, 2), 1, 0);
    assert!(emitter.is_due(1));
}

#[test]
fn tick_keeps_what_is_not_due() {
    let mut emitter = EventEmitter::new(10, 100);
    let mut registry = SubscriptionRegistry::new();
    registry.subscribe(id(7), request(vec![callback(EventFilter::Any, "all")])).unwrap();
    emitter.emit(mint(1, 1), 1, 0);
    assert!(emitter.tick(&registry, 9).is_empty());
    assert_eq!(emitter.pending.len(), 1);
    let sent = emitter.tick(&registry, 10);
    assert_eq!(shape(&sent), vec![(id(7), String::from("all"), vec![mint(1, 1)])]);
    assert!(emitter.pending.is_empty());
    assert!(emitter.tick(&registry, 11).is_empty());
}

#[test]
fn tick_makes_one_batch_for_each_callback_that_wants_something() {
    let mut registry = SubscriptionRegistry::new();
    registry.subscribe(id(7), request(vec![callback(EventFilter::Any, "all")])).unwrap();
    registry
        .subscribe(
            id(8),
            request(vec![
                callback(EventFilter::Mint { to: Some(id(2)) }, "mints"),
                callback(EventFilter::Transfer { from: Some(id(2)), to: None }, "moves"),
                callback(EventFilter::Transfer { from: None, to: Some(id(2)) }, "moves"),
                callback(EventFilter::Burn { from: Some(id(2)) }, "burns"),
            ]),
        )
        .unwrap();
    registry.subscribe(id(9), request(vec![callback(EventFilter::Burn { from: Some(id(5)) }, "x")])).unwrap();

    let mut emitter = EventEmitter::new(0, 100);
    let events = vec![
        mint(1, 10),
        mint(2, 20),
        transfer(2, 3, 5),
        transfer(1, 3, 6),
        transfer(3, 2, 7),
        mint(2, 30),
        transfer(2, 2, 8),
    ];
    for e in events.iter() {
        emitter.emit(*e, 1, 0);
    }

    let sent = emitter.tick(&registry, 0);
    assert_eq!(
        shape(&sent),
        vec![
            (id(7), String::from("all"), events.clone()),
            (id(8), String::from("mints"), vec![mint(2, 20), mint(2, 30)]),
            (id(8), String::from("moves"), vec![transfer(2, 3, 5), transfer(2, 2, 8)]),
            (id(8), String::from("moves"), vec![transfer(3, 2, 7), transfer(2, 2, 8)]),
        ]
    );
    assert!(emitter.pending.is_empty());
    assert!(emitter.failed.is_empty());
}

#[test]
fn tick_without_subscribers_drops_what_was_due() {
    let registry = SubscriptionRegistry::new();
    let mut emitter = EventEmitter::new(0, 100);
    emitter.emit(mint(1, 1), 1, 0);
    assert!(emitter.tick(&registry, 0).is_empty());
    assert!(emitter.pending.is_empty());
}

#[test]
fn failed_batches_are_sent_again_first() {
    let mut registry = SubscriptionRegistry::new();
    registry.subscribe(id(7), request(vec![callback(EventFilter::Any, "all")])).unwrap();
    let mut emitter = EventEmitter::new(10, 100);
    emitter.emit(mint(1, 1), 1, 0);
    let mut sent = emitter.tick(&registry, 10);
    assert_eq!(sent.len(), 1);
    emitter.retry(sent.pop().unwrap());
    assert_eq!(emitter.failed.len(), 1);

    emitter.emit(mint(1, 2), 1, 11);
    let again = emitter.tick(&registry, 12);
    assert_eq!(shape(&again), vec![(id(7), String::from("all"), vec![mint(1, 1)])]);
    assert!(emitter.failed.is_empty());
    assert_eq!(emitter.pending.len(), 1);

    emitter.retry(Batch { subscriber: id(7), method_name: String::from("all"), events: vec![mint(1, 1)] });
    let both = emitter.tick(&registry, 21);
    assert_eq!(
        shape(&both),
        vec![
            (id(7), String::from("all"), vec![mint(1, 1)]),
            (id(7), String::from("all"), vec![mint(1, 2)]),
        ]
    );
}

#[test]
fn token_tick_is_the_tick_of_the_emitter() {
    let mut registry = SubscriptionRegistry::new();
    registry.subscribe(id(7), request(vec![callback(EventFilter::Any, "all")])).unwrap();
    let mut emitter = EventEmitter::new(10, 100);
    emitter.emit(burn(1, 1), 101, 0);
    let sent = token::tick(&mut emitter, &registry, 0);
    assert_eq!(shape(&sent), vec![(id(7), String::from("all"), vec![burn(1, 1)])]);
}

#[test]
fn what_is_emitted_reaches_the_journals_in_order() {
    let token_id = id(100);
    let track = id(2);
    let mut all = mirror::init(token_id, 0);
    let mut follower = tracker::init(token_id, track, 0);
    let mut registry = SubscriptionRegistry::new();
    registry.subscribe(id(50), mirror::tick(&mut all, 0).unwrap().request).unwrap();
    registry.subscribe(id(51), tracker::tick(&mut follower, 0).unwrap().request).unwrap();

    let mut emitter = EventEmitter::new(0, 100);
    let events = vec![mint(1, 10), mint(2, 20), transfer(2, 3, 5), burn(1, 4), burn(2, 6), mint(2, 1)];
    for e in events.iter() {
        emitter.emit(*e, 1, 0);
    }
    for batch in emitter.tick(&registry, 0) {
        if batch.subscriber == id(50) {
            assert_eq!(batch.method_name, "events_callback");
            mirror::events_callback(&mut all.ledger, token_id, batch.events).unwrap();
        } else if batch.method_name == "mint_callback" {
            tracker::mint_callback(&mut follower.ledger, token_id, batch.events).unwrap();
        } else if batch.method_name == "transfer_callback" {
            tracker::transfer_callback(&mut follower.ledger, token_id, batch.events).unwrap();
        } else {
            assert_eq!(batch.method_name, "burn_callback");
            tracker::burn_callback(&mut follower.ledger, token_id, batch.events).unwrap();
        }
    }

    let expected: Vec<Entry> = events.iter().map(|e| Entry::from_event(*e)).collect();
    assert_eq!(all.ledger.get_entries(), expected);
    assert_eq!(
        follower.ledger.get_entries(),
        vec![
            Entry::from_event(mint(2, 20)),
            Entry::from_event(mint(2, 1)),
            Entry::from_event(transfer(2, 3, 5)),
            Entry::from_event(burn(2, 6)),
        ]
    );
}
