//! A collateral price oracle: a registry of collateral assets, the price
//! request that each asset's source needs, and the fixed-point decimal
//! arithmetic that turns upstream integers into exact decimals.

pub mod decimal;
pub mod msg;
pub mod registry;
pub mod querier;
pub mod contract;
