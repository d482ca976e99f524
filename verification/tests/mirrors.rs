use token_ledger::ledger::{ingest, token_guard, Ledger};
use token_ledger::mirror;
use token_ledger::principal::Principal;
use token_ledger::recovery::ResubscriptionScheduler;
use token_ledger::tracker;
use token_ledger::types::{
    BurnEvent, Entry, Error, Event, EventFilter, EventKind, MintEvent, TransferEvent,
};

fn who(byte: u8) -> Principal {
    Principal::from_slice(&[byte, byte]).unwrap()
}

fn mint_of(to: Principal, amount: u64) -> Event {
    Event::Mint(MintEvent { to, amount, timestamp: amount })
}

fn transfer_of(from: Principal, to: Principal, amount: u64) -> Event {
    Event::Transfer(TransferEvent { from, to, amount, timestamp: amount })
}

fn burn_of(from: Principal, amount: u64) -> Event {
    Event::Burn(BurnEvent { from, amount, timestamp: amount })
}

#[test]
fn journal_appends_in_order() {
    let mut ledger = Ledger { token: who(1), entries: Vec::new() };
    let first = Entry::Mint(MintEvent { to: who(2), amount: 1, timestamp: 10 });
    let second = Entry::Burn(BurnEvent { from: who(2), amount: 1, timestamp: 11 });
    ledger.add_entry(first);
    ledger.add_entry(second);
    assert_eq!(ledger.get_entries(), vec![first, second]);
    assert_eq!(ledger.token, who(1));
}

#[test]
fn entry_records_the_event_it_came_from() {
    let m = MintEvent { to: who(2), amount: 1, timestamp: 10 };
    let t = TransferEvent { from: who(2), to: who(3), amount: 1, timestamp: 10 };
    let b = BurnEvent { from: who(2), amount: 1, timestamp: 10 };
    assert_eq!(Entry::from_event(Event::Mint(m)), Entry::Mint(m));
    assert_eq!(Entry::from_event(Event::Transfer(t)), Entry::Transfer(t));
    assert_eq!(Entry::from_event(Event::Burn(b)), Entry::Burn(b));
    assert_eq!(Event::Mint(m).kind(), EventKind::Mint);
    assert_eq!(Event::Transfer(t).kind(), EventKind::Transfer);
    assert_eq!(Event::Burn(b).kind(), EventKind::Burn);
}

#[test]
fn token_guard_lets_only_the_token_in() {
    let ledger = Ledger { token: who(1), entries: Vec::new() };
    assert_eq!(token_guard(&ledger, &who(1)), Ok(()));
    assert_eq!(token_guard(&ledger, &who(2)), Err(Error::AccessDenied));
}

#[test]
fn stranger_is_denied_and_journal_keeps_its_length() {
    let token = who(1);
    let mut state = mirror::init(token, 0);
    mirror::events_callback(&mut state.ledger, token, vec![mint_of(who(2), 5)]).unwrap();

    let r = mirror::events_callback(&mut state.ledger, who(9), vec![mint_of(who(2), 6)]);
    assert_eq!(r, Err(Error::AccessDenied));
    assert_eq!(state.ledger.get_entries().len(), 1);

    let mut follower = tracker::init(token, who(2), 0);
    assert_eq!(
        tracker::mint_callback(&mut follower.ledger, who(9), vec![mint_of(who(2), 6)]),
        Err(Error::AccessDenied)
    );
    assert_eq!(
        tracker::transfer_callback(
            &mut follower.ledger,
            who(9),
            vec![transfer_of(who(2), who(3), 6)]
        ),
        Err(Error::AccessDenied)
    );
    assert_eq!(
        tracker::burn_callback(&mut follower.ledger, who(9), vec![burn_of(who(2), 6)]),
        Err(Error::AccessDenied)
    );
    assert!(follower.ledger.get_entries().is_empty());
}

#[test]
fn denial_comes_before_the_look_at_the_batch() {
    let mut follower = tracker::init(who(1), who(2), 0);
    assert_eq!(
        tracker::mint_callback(&mut follower.ledger, who(9), vec![burn_of(who(2), 6)]),
        Err(Error::AccessDenied)
    );
}

#[test]
fn events_callback_takes_every_kind_in_order() {
    let token = who(1);
    let mut state = mirror::init(token, 0);
    let batch = vec![mint_of(who(2), 5), transfer_of(who(2), who(3), 2), burn_of(who(3), 1)];
    assert_eq!(mirror::events_callback(&mut state.ledger, token, batch), Ok(()));
    assert_eq!(mirror::events_callback(&mut state.ledger, token, vec![burn_of(who(2), 3)]), Ok(()));
    assert_eq!(
        state.ledger.get_entries(),
        vec![
            Entry::Mint(MintEvent { to: who(2), amount: 5, timestamp: 5 }),
            Entry::Transfer(TransferEvent { from: who(2), to: who(3), amount: 2, timestamp: 2 }),
            Entry::Burn(BurnEvent { from: who(3), amount: 1, timestamp: 1 }),
            Entry::Burn(BurnEvent { from: who(2), amount: 3, timestamp: 3 }),
        ]
    );
}

#[test]
fn empty_batch_is_taken_and_adds_nothing() {
    let token = who(1);
    let mut follower = tracker::init(token, who(2), 0);
    assert_eq!(tracker::mint_callback(&mut follower.ledger, token, Vec::new()), Ok(()));
    assert!(follower.ledger.get_entries().is_empty());
}

#[test]
fn callback_of_one_kind_refuses_a_mixed_batch_whole() {
    let token = who(1);
    let mut follower = tracker::init(token, who(2), 0);

    let mixed = vec![mint_of(who(2), 5), burn_of(who(2), 1), mint_of(who(2), 6)];
    assert_eq!(
        tracker::mint_callback(&mut follower.ledger, token, mixed),
        Err(Error::ForbiddenOperation)
    );
    assert!(follower.ledger.get_entries().is_empty());

    assert_eq!(
        tracker::transfer_callback(&mut follower.ledger, token, vec![mint_of(who(2), 5)]),
        Err(Error::ForbiddenOperation)
    );
    assert_eq!(
        tracker::burn_callback(
            &mut follower.ledger,
            token,
            vec![burn_of(who(2), 5), transfer_of(who(2), who(3), 1)]
        ),
        Err(Error::ForbiddenOperation)
    );
    assert!(follower.ledger.get_entries().is_empty());
}

#[test]
fn callbacks_of_one_kind_take_their_kind() {
    let token = who(1);
    let mut follower = tracker::init(token, who(2), 0);
    tracker::mint_callback(&mut follower.ledger, token, vec![mint_of(who(2), 5), mint_of(who(2), 6)])
        .unwrap();
    tracker::transfer_callback(&mut follower.ledger, token, vec![transfer_of(who(2), who(3), 4)])
        .unwrap();
    tracker::burn_callback(&mut follower.ledger, token, vec![burn_of(who(2), 7)]).unwrap();
    assert_eq!(
        follower.ledger.get_entries(),
        vec![
            Entry::Mint(MintEvent { to: who(2), amount: 5, timestamp: 5 }),
            Entry::Mint(MintEvent { to: who(2), amount: 6, timestamp: 6 }),
            Entry::Transfer(TransferEvent { from: who(2), to: who(3), amount: 4, timestamp: 4 }),
            Entry::Burn(BurnEvent { from: who(2), amount: 7, timestamp: 7 }),
        ]
    );
}

#[test]
fn ingest_with_a_kind_is_what_the_callbacks_do() {
    let token = who(1);
    let mut ledger = Ledger { token, entries: Vec::new() };
    let batch = vec![burn_of(who(2), 1)];
    assert_eq!(ingest(&mut ledger, &token, Some(EventKind::Mint), &batch), Err(Error::ForbiddenOperation));
    assert_eq!(ingest(&mut ledger, &token, Some(EventKind::Burn), &batch), Ok(()));
    assert_eq!(ingest(&mut ledger, &token, None, &batch), Ok(()));
    assert_eq!(ledger.entries.len(), 2);
}

#[test]
fn recovery_job_runs_once_when_due() {
    let mut job = ResubscriptionScheduler::new(&who(1), 100);
    assert!(!job.tick(0));
    assert!(!job.tick(99));
    assert!(job.tick(100));
    assert!(!job.tick(100));
    assert!(!job.tick(101));
    assert!(!job.tick(u64::MAX));
}

#[test]
fn recovery_job_runs_late_if_the_tick_is_late() {
    let mut job = ResubscriptionScheduler::new(&who(1), 100);
    assert!(job.tick(5000));
    assert!(!job.tick(5001));
}

#[test]
fn mirror_subscribes_once_to_everything() {
    let token = who(1);
    let mut state = mirror::init(token, 7);
    assert_eq!(state.ledger.token, token);
    assert!(state.ledger.entries.is_empty());

    assert!(mirror::tick(&mut state, 6).is_none());
    let subscribe = mirror::tick(&mut state, 7).unwrap();
    assert_eq!(subscribe.target, token);
    assert_eq!(subscribe.request.callbacks.len(), 1);
    assert_eq!(subscribe.request.callbacks[0].filter, EventFilter::Any);
    assert_eq!(subscribe.request.callbacks[0].method_name, "events_callback");

    assert!(mirror::tick(&mut state, 8).is_none());
    assert!(mirror::tick(&mut state, 9).is_none());
}

#[test]
fn tracker_subscribes_once_to_what_touches_its_account() {
    let token = who(1);
    let track = who(2);
    let mut state = tracker::init(token, track, 7);
    assert_eq!(state.ledger.token, token);
    assert_eq!(state.track, track);

    let subscribe = tracker::tick(&mut state, 7).unwrap();
    assert_eq!(subscribe.target, token);
    let callbacks = subscribe.request.callbacks;
    assert_eq!(callbacks.len(), 4);
    assert_eq!(callbacks[0].filter, EventFilter::Mint { to: Some(track) });
    assert_eq!(callbacks[0].method_name, "mint_callback");
    assert_eq!(callbacks[1].filter, EventFilter::Transfer { from: Some(track), to: None });
    assert_eq!(callbacks[1].method_name, "transfer_callback");
    assert_eq!(callbacks[2].filter, EventFilter::Transfer { from: None, to: Some(track) });
    assert_eq!(callbacks[2].method_name, "transfer_callback");
    assert_eq!(callbacks[3].filter, EventFilter::Burn { from: Some(track) });
    assert_eq!(callbacks[3].method_name, "burn_callback");

    assert!(tracker::tick(&mut state, 7).is_none());
    assert!(tracker::tick(&mut state, 1000).is_none());
    assert!(state.ledger.entries.is_empty());
}
