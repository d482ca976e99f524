//! The journal of a mirror ledger and the guard in front of it.

use vstd::prelude::*;
use crate::principal::Principal;
use crate::types::{entries_of, Entry, Error, Event, EventKind};

verus! {

/// An append-only journal of what happened at the token `token`.
#[derive(Debug)]
pub struct Ledger {
    pub token: Principal,
    pub entries: Vec<Entry>,
}

impl Ledger {
    /// Appends `entry`; nothing already written changes.
    pub fn add_entry(&mut self, entry: Entry)
        ensures
            final(self).token == old(self).token,
            final(self).entries@ == old(self).entries@.push(entry),
    {
        self.entries.push(entry);
    }

    /// A copy of the journal, oldest entry first.
    pub fn get_entries(&self) -> (entries: Vec<Entry>)
        ensures
            entries@ == self.entries@,
    {
        let mut out: Vec<Entry> = Vec::new();
        let mut i: usize = 0;
        while i < self.entries.len()
            invariant
                i <= self.entries@.len(),
                out@ == self.entries@.take(i as int),
            decreases self.entries@.len() - i,
        {
            out.push(self.entries[i]);
            assert(self.entries@.take(i + 1) == self.entries@.take(i as int).push(
                self.entries@[i as int],
            ));
            i += 1;
        }
        out
    }

    /// Appends the entries that record `events`, in their order.
    pub fn add_events(&mut self, events: &Vec<Event>)
        ensures
            final(self).token == old(self).token,
            final(self).entries@ == old(self).entries@ + entries_of(events@),
    {
        let mut i: usize = 0;
        while i < events.len()
            invariant
                i <= events@.len(),
                self.token == old(self).token,
                self.entries@ == old(self).entries@ + entries_of(events@.take(i as int)),
            decreases events@.len() - i,
        {
            self.add_entry(Entry::from_event(events[i]));
            assert(entries_of(events@.take(i + 1)) == entries_of(events@.take(i as int)).push(
                Entry::of(events@[i as int]),
            ));
            i += 1;
        }
        assert(events@.take(events@.len() as int) == events@);
    }
}

/// Lets only the token that the ledger mirrors write to it: `AccessDenied`
/// for every other caller.
pub fn token_guard(ledger: &Ledger, caller: &Principal) -> (r: Result<(), Error>)
    ensures
        r == if *caller == ledger.token {
            Ok::<(), Error>(())
        } else {
            Err::<(), Error>(Error::AccessDenied)
        },
{
    if *caller != ledger.token {
        Err(Error::AccessDenied)
    } else {
        Ok(())
    }
}

/// Whether a callback that takes events of kind `accepted` (of any kind,
/// if `None`) takes every one of `events`.
pub open spec fn all_accepted(accepted: Option<EventKind>, events: Seq<Event>) -> bool {
    accepted matches Some(kind) ==> forall|i: int|
        0 <= i < events.len() ==> (#[trigger] events[i]).kind_of() == kind
}

/// What becomes of a batch: refused with `AccessDenied` unless `caller` is
/// the ledger's token, else with `ForbiddenOperation` if it holds an event
/// that the callback does not take, else written.
pub open spec fn ingestion(
    token: Principal,
    caller: Principal,
    accepted: Option<EventKind>,
    events: Seq<Event>,
) -> Result<(), Error> {
    if caller != token {
        Err(Error::AccessDenied)
    } else if !all_accepted(accepted, events) {
        Err(Error::ForbiddenOperation)
    } else {
        Ok(())
    }
}

fn takes_all(accepted: &Option<EventKind>, events: &Vec<Event>) -> (r: bool)
    ensures
        r == all_accepted(*accepted, events@),
{
    match accepted {
        None => true,
        Some(kind) => {
            let mut i: usize = 0;
            while i < events.len()
                invariant
                    *accepted == Some(*kind),
                    i <= events@.len(),
                    forall|j: int| 0 <= j < i ==> (#[trigger] events@[j]).kind_of() == *kind,
                decreases events@.len() - i,
            {
                if events[i].kind() != *kind {
                    assert(events@[i as int].kind_of() != *kind);
                    return false;
                }
                i += 1;
            }
            true
        },
    }
}

/// Takes a batch of events from `caller` into the journal: all of it, in
/// its order, or none of it.
pub fn ingest(
    ledger: &mut Ledger,
    caller: &Principal,
    accepted: Option<EventKind>,
    events: &Vec<Event>,
) -> (r: Result<(), Error>)
    ensures
        r == ingestion(old(ledger).token, *caller, accepted, events@),
        final(ledger).token == old(ledger).token,
        r is Ok ==> final(ledger).entries@ == old(ledger).entries@ + entries_of(events@),
        r is Err ==> final(ledger).entries@ == old(ledger).entries@,
{
    match token_guard(ledger, caller) {
        Err(e) => {
            return Err(e);
        },
        Ok(_) => {},
    }
    if !takes_all(&accepted, events) {
        return Err(Error::ForbiddenOperation);
    }
    ledger.add_events(events);
    Ok(())
}

} // verus!
