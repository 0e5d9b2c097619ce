//! Verified core of a concentrated-liquidity pool analyser: fixed-width
//! 256-bit arithmetic, fee-growth accounting for a liquidity position, and
//! a tick-range replay over hourly pool snapshots.

pub mod client_factory;
pub mod data_source;
pub mod errors;
pub mod fees;
pub mod math;
pub mod parse;
pub mod simulator;
pub mod thegraph;
pub mod u256;
