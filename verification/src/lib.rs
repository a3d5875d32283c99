//! Core of an off-chain payment-channel node: the claim packages that settle
//! channel outputs on chain, the fee-bump engine that prices them, and the
//! multi-path route finder.

pub mod batch;
pub mod features;
pub mod feerate;
pub mod finalize;
pub mod network_graph;
pub mod outputs;
pub mod package;
pub mod package_ser;
pub mod primitives;
pub mod request;
pub mod routing;
pub mod ser;
pub mod transaction;
pub mod utxo;
