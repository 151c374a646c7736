//! Wallet fingerprinting of Bitcoin transactions: features observed in a
//! transaction and rule chains that grade how likely a wallet produced it.

pub mod model;
pub mod sequence;
pub mod behaviors;
pub mod ordering;
pub mod profiles;
pub mod bridge;
