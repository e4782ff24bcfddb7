//! A single-process proof-of-work ledger: transactions, blocks, a chain with a
//! pending pool, difficulty retargeting and balance replay, with contracts
//! checked by Verus.
pub mod digest;
pub mod text;
pub mod transaction;
pub mod block;
pub mod blockchain;
pub mod wallet;
pub mod integrity;
mod clock;
