//! The ledger: transactions, blocks, the chain, the pool and the wallet's
//! view of unspent outputs.

pub mod transaction;
pub mod transaction_json;
pub mod transaction_decode;
pub mod transaction_pool;
pub mod block;
pub mod block_decode;
pub mod manager;
pub mod utxo;
pub mod miner;
