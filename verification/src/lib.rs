//! A token ledger and issuance engine over an explicit key-value store.
//!
//! Balances, the per-holder inventory index and the issuance counters all
//! live in a [`store::Store`], under keys derived by
//! [`pointer::StoragePointer`]. Every operation takes the store as an
//! argument, and either applies all of its writes or none of them.

pub mod block;
pub mod bytes;
pub mod chain;
pub mod circulation;
pub mod error;
pub mod genesis;
pub mod id;
pub mod inventory_laws;
pub mod issuance_laws;
pub mod layout;
pub mod ledger;
pub mod ledger_laws;
pub mod locality;
pub mod orbital;
pub mod pointer;
pub mod response;
pub mod store;
pub mod totals;

