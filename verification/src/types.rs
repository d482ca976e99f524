//! Errors, token metadata, the three domain events and what is built from
//! them: journal entries, topic filters and subscription requests.

use vstd::prelude::*;
use crate::principal::Principal;

verus! {

/// Why an operation was refused.
#[derive(Clone, Copy, Debug, PartialEq, Eq, Structural)]
pub enum Error {
    /// A debit larger than the balance it is taken from.
    InsufficientBalance,
    /// A mint, transfer or burn of nothing.
    ZeroQuantity,
    /// The caller is not the identity that the operation is kept for.
    AccessDenied,
    /// The operation is not allowed on what it was given.
    ForbiddenOperation,
}

/// What a token says of itself.
#[derive(Debug)]
pub struct TokenInfo {
    pub name: String,
    pub symbol: String,
    pub decimals: u8,
}

impl Clone for TokenInfo {
    fn clone(&self) -> (r: TokenInfo)
        ensures
            r == *self,
    {
        TokenInfo { name: self.name.clone(), symbol: self.symbol.clone(), decimals: self.decimals }
    }
}

/// `amount` moved from `from` to `to`.
#[derive(Clone, Copy, Debug, PartialEq, Eq)]
pub struct TransferEvent {
    pub from: Principal,
    pub to: Principal,
    pub amount: u64,
    pub timestamp: u64,
}

/// `amount` created for `to`.
#[derive(Clone, Copy, Debug, PartialEq, Eq)]
pub struct MintEvent {
    pub to: Principal,
    pub amount: u64,
    pub timestamp: u64,
}

/// `amount` destroyed out of the holdings of `from`.
#[derive(Clone, Copy, Debug, PartialEq, Eq)]
pub struct BurnEvent {
    pub from: Principal,
    pub amount: u64,
    pub timestamp: u64,
}

/// One state change of the token, as it is handed to subscribers.
#[derive(Clone, Copy, Debug, PartialEq, Eq)]
pub enum Event {
    Mint(MintEvent),
    Transfer(TransferEvent),
    Burn(BurnEvent),
}

/// The three variants of an [`Event`], without what they carry.
#[derive(Clone, Copy, Debug, PartialEq, Eq, Structural)]
pub enum EventKind {
    Mint,
    Transfer,
    Burn,
}

impl Event {
    /// Which of the three variants this is.
    pub open spec fn kind_of(self) -> EventKind {
        match self {
            Event::Mint(_) => EventKind::Mint,
            Event::Transfer(_) => EventKind::Transfer,
            Event::Burn(_) => EventKind::Burn,
        }
    }

    /// Which of the three variants this is.
    pub fn kind(&self) -> (kind: EventKind)
        ensures
            kind == self.kind_of(),
    {
        match self {
            Event::Mint(_) => EventKind::Mint,
            Event::Transfer(_) => EventKind::Transfer,
            Event::Burn(_) => EventKind::Burn,
        }
    }
}

/// One line of a ledger's journal.
#[derive(Clone, Copy, Debug, PartialEq, Eq)]
pub enum Entry {
    Mint(MintEvent),
    Transfer(TransferEvent),
    Burn(BurnEvent),
}

impl Entry {
    /// The journal line that records `event`.
    pub open spec fn of(event: Event) -> Entry {
        match event {
            Event::Mint(e) => Entry::Mint(e),
            Event::Transfer(e) => Entry::Transfer(e),
            Event::Burn(e) => Entry::Burn(e),
        }
    }

    /// The journal line that records `event`.
    pub fn from_event(event: Event) -> (entry: Entry)
        ensures
            entry == Entry::of(event),
    {
        match event {
            Event::Mint(e) => Entry::Mint(e),
            Event::Transfer(e) => Entry::Transfer(e),
            Event::Burn(e) => Entry::Burn(e),
        }
    }
}

/// The journal lines that record `events`, in the same order.
pub open spec fn entries_of(events: Seq<Event>) -> Seq<Entry> {
    events.map_values(|e: Event| Entry::of(e))
}

/// Which events a subscriber wants. A constraint that is `None` admits any
/// value of its field.
#[derive(Clone, Copy, Debug, PartialEq, Eq)]
pub enum EventFilter {
    /// Every event.
    Any,
    /// Mints, to `to` if given.
    Mint { to: Option<Principal> },
    /// Transfers, out of `from` and into `to` as far as given.
    Transfer { from: Option<Principal>, to: Option<Principal> },
    /// Burns, out of `from` if given.
    Burn { from: Option<Principal> },
}

/// A constraint admits `actual` when it is absent or names exactly `actual`.
pub open spec fn admits(constraint: Option<Principal>, actual: Principal) -> bool {
    constraint matches Some(wanted) ==> wanted == actual
}

fn constraint_admits(constraint: &Option<Principal>, actual: &Principal) -> (r: bool)
    ensures
        r == admits(*constraint, *actual),
{
    match constraint {
        None => true,
        Some(wanted) => *wanted == *actual,
    }
}

impl EventFilter {
    /// The event is of the filter's variant and meets each constraint that
    /// the filter holds.
    pub open spec fn matches(self, event: Event) -> bool {
        match self {
            EventFilter::Any => true,
            EventFilter::Mint { to } => event matches Event::Mint(e) && admits(to, e.to),
            EventFilter::Transfer { from, to } => event matches Event::Transfer(e) && admits(
                from,
                e.from,
            ) && admits(to, e.to),
            EventFilter::Burn { from } => event matches Event::Burn(e) && admits(from, e.from),
        }
    }

    /// Whether `event` passes this filter.
    pub fn accepts(&self, event: &Event) -> (r: bool)
        ensures
            r == self.matches(*event),
    {
        match self {
            EventFilter::Any => true,
            EventFilter::Mint { to } => match event {
                Event::Mint(e) => constraint_admits(to, &e.to),
                _ => false,
            },
            EventFilter::Transfer { from, to } => match event {
                Event::Transfer(e) => constraint_admits(from, &e.from) && constraint_admits(
                    to,
                    &e.to,
                ),
                _ => false,
            },
            EventFilter::Burn { from } => match event {
                Event::Burn(e) => constraint_admits(from, &e.from),
                _ => false,
            },
        }
    }
}

/// A filter and the method of the subscriber that takes what passes it.
#[derive(Debug)]
pub struct CallbackInfo {
    pub filter: EventFilter,
    pub method_name: String,
}

/// A [`CallbackInfo`] with its method name as a sequence of characters.
pub struct CallbackView {
    pub filter: EventFilter,
    pub method_name: Seq<char>,
}

impl View for CallbackInfo {
    type V = CallbackView;

    open spec fn view(&self) -> CallbackView {
        CallbackView { filter: self.filter, method_name: self.method_name@ }
    }
}

impl Clone for CallbackInfo {
    fn clone(&self) -> (r: CallbackInfo)
        ensures
            r@ == self@,
    {
        CallbackInfo { filter: self.filter, method_name: self.method_name.clone() }
    }
}

/// The views of `callbacks`, in the same order.
pub open spec fn callback_views(callbacks: Seq<CallbackInfo>) -> Seq<CallbackView> {
    callbacks.map_values(|c: CallbackInfo| c@)
}

/// What a subscriber asks of an emitter: its callbacks, in order.
#[derive(Debug)]
pub struct SubscribeRequest {
    pub callbacks: Vec<CallbackInfo>,
}

impl View for SubscribeRequest {
    type V = Seq<CallbackView>;

    open spec fn view(&self) -> Seq<CallbackView> {
        callback_views(self.callbacks@)
    }
}

/// A subscription to ask for: `request`, to be sent to `target`.
#[derive(Debug)]
pub struct Subscribe {
    pub target: Principal,
    pub request: SubscribeRequest,
}

} // verus!
