//! A resource registry, a balance ledger and an English auction over them,
//! written as deterministic state transitions with verified contracts.

pub mod error;
pub mod bytes;
pub mod assoc;
pub mod supply;
pub mod resource_map;
pub mod basic_token_and_resource;
pub mod auction_model;
pub mod laws;
pub mod auction;
pub mod history;
