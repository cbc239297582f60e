//! A small blockchain-style ledger engine.
//!
//! The engine applies account-balance transactions (mints and transfers),
//! enforces a per-block gas budget, and derives a deterministic digest
//! ("root") from a block's contents. Transactions have a fixed-width
//! big-endian wire encoding.

pub mod block;
pub mod codec;
pub mod digest;
pub mod ledger;
pub mod tx;

pub use block::Block;
pub use block::ExecutionError;
pub use codec::DecodeError;
pub use ledger::State;
pub use tx::Address;
pub use tx::Balance;
pub use tx::Gas;
pub use tx::Mint;
pub use tx::Transaction;
pub use tx::Transfer;
pub use tx::TX_MINT_GAS;
pub use tx::TX_TRANSFER_GAS;
