//! A small proof-of-work cryptocurrency node: the ledger, the mempool, the
//! signed transaction model and the overlay membership rules, with every
//! function's behaviour stated as a contract and proved.

pub mod text;
pub mod util;
pub mod timestamp;
pub mod json;
pub mod structure;
pub mod sums;
pub mod blockchain;
pub mod key_manager;
pub mod node_addr;
pub mod message;
pub mod connection_manager_core;
pub mod server_core;
pub mod connection_manager_edge;
pub mod client_core;
pub mod message_decode;
pub mod wire;
