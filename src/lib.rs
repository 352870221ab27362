//! The identifier of a blockchain network in a cross-chain messaging protocol,
//! with its numeric wire form and its textual form.

pub mod chain;
pub mod text;

pub use chain::{Chain, InvalidChainError};
pub mod laws;
