//! A fungible-asset ledger with mint, transfer and burn, the events those
//! operations produce, and the mirror ledgers that replay them.

pub mod currency_token;
pub mod emitter;
pub mod guards;
pub mod holdings;
pub mod ledger;
pub mod mirror;
pub mod principal;
pub mod recovery;
pub mod registry;
pub mod scheduler;
pub mod token;
pub mod tracker;
pub mod types;
