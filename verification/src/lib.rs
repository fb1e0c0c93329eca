//! An LP-token staking contract, modelled as a verified state machine.

pub mod order;
pub mod addr_map;
pub mod error;
pub mod state;
pub mod msg;
pub mod reply;
pub mod model;
pub mod contract;
pub mod laws;

pub use crate::error::CustomError;
