//! The two entity collections the engine coordinates: client accounts and
//! the log of disputable transactions.

pub mod client;
pub mod transaction;
