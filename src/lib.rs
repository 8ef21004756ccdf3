//! A unidirectional off-ledger micropayment channel: channel registry,
//! replay-protected claim settlement and signed-commitment checks.

pub mod commitment;
pub mod error;
pub mod signature;
pub mod channel;
pub mod laws;
pub mod balances;
