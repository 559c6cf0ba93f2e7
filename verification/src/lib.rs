//! A minimal append-only ledger: content-addressed blocks and transactions,
//! a chain-linkage acceptance rule, and an index of currently spendable
//! transaction outputs that stays consistent with every accepted block.

pub mod block;
pub mod chain;
pub mod decimal;
pub mod hashing;
pub mod mresult;
pub mod utxo;
