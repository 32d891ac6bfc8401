//! A minimal single-node ledger: blocks found by a brute-force proof-of-work
//! search, carrying value-transfer transactions that are validated against a
//! running set of unspent outputs.

pub mod block;
pub mod blockchain;
pub mod hashing;
pub mod transaction;

pub use blockchain::BlockValidationErr;
pub use blockchain::Blockchain;

pub use block::check_difficulty;
pub use block::Block;

pub use transaction::Output;
pub use transaction::Transaction;

pub use hashing::u128_bytes;
pub use hashing::u32_bytes;
pub use hashing::u64_bytes;
