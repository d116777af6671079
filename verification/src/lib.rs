//! Anchoring of a permissioned chain's state in the Bitcoin ledger: the
//! records the validators keep, the messages they exchange and the rules
//! by which both change.
//!
//! - `bytes`, `text`: numbers and text in bytes.
//! - `btc`: Bitcoin transactions, keys, scripts and addresses.
//! - `crypto`: keys of the anchored chain.
//! - `transactions`: the kinds of transactions and the anchoring payload.
//! - `config`: the configuration that the validators anchor under.
//! - `messages`: the messages of the service and their wire format.
//! - `state`: the records as a mathematical value, with what holds of them.
//! - `schema`: the records in memory.
//! - `coordinator`: what a validator does next.
//! - `client`: what is computed around the calls to a Bitcoin node.

pub mod btc;
pub mod bytes;
pub mod client;
pub mod config;
pub mod coordinator;
pub mod crypto;
pub mod messages;
pub mod schema;
pub mod state;
pub mod text;
pub mod transactions;
