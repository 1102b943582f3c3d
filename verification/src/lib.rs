//! A resolver for DNS names whose records live in NEAR smart contracts.
//!
//! The crate holds the record store kept by a DNS contract, the conversion of
//! stored records into DNS resource data, and the decisions that the server
//! takes while it resolves a name: the order in which contracts are asked,
//! how their answers are combined, and how a lookup is routed.

pub mod account;
pub mod authority;
pub mod cache;
pub mod contract;
pub mod query;
pub mod record;
pub mod resolver;
pub mod store;
pub mod text;
pub mod upstream;
