//! A ledger of fungible tokens: balances per token and account, supply changes
//! reserved to each token's owner, transfers that keep the supply, and a
//! record of every change.

pub mod account;
pub mod addresses;
pub mod error;
pub mod event;
pub mod factory;
pub mod laws;
pub mod ledger;
pub mod model;
pub mod runtime;

pub use account::{AccountId, AccountToH160, ExternalAddress};
pub use addresses::{account_from_hex, alice, bob, charlie, deploy_addresses, root_address};
pub use error::LedgerError;
pub use event::{last_event, Event, EventLog};
pub use factory::{Call, FactoryView, TokenFactory};
pub use ledger::Ledger;
pub use model::{Balance, HoldingKey, LedgerView, TokenId, TokenMeta};
pub use runtime::{BlockEverything, FixedGasPrice, GasPrice};
