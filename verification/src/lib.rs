//! A charity pot for a blockchain runtime: one derived account that takes
//! donations from signed callers and absorbs currency that the rest of the
//! runtime took out of circulation, so that nothing issued is ever lost.
//!
//! - [`account`]: account identifiers, and how the pot's account is derived
//!   from its eight-byte pallet identifier.
//! - [`currency`]: balances, imbalances, and [`CurrencyLedger`], the interface
//!   to the runtime's balances, with what a transfer and a credit do to them.
//! - [`events`]: the pot's events and [`EventSink`], where they go.
//! - [`pallet`]: the pot: [`Pallet::donate`], [`Pallet::on_nonzero_unbalanced`]
//!   and [`Pallet::pot`].
//! - [`table`]: [`BalanceTable`], a ledger in memory.
//! - [`circulation`] and [`history`]: what holds over any run of calls: the
//!   pot holds exactly what it was given, and no call issues currency.

pub mod account;
pub mod circulation;
pub mod currency;
pub mod events;
pub mod history;
pub mod pallet;
pub mod table;

pub use account::{derive_account_id, AccountId};
pub use currency::{Accounts, Balance, CurrencyLedger, LedgerError, NegativeImbalance};
pub use events::{Emitted, Event, EventLog, EventSink};
pub use history::Step;
pub use pallet::{Config, Error, Pallet, PALLET_ID};
pub use table::BalanceTable;
