//! Client-side logic for querying and restarting a network-attached miner:
//! device address resolution, exact decimal handling of telemetry numbers,
//! tolerant field extraction and the fixed-order status report.

pub mod text;
pub mod decimal;
pub mod error;
pub mod address;
pub mod telemetry;
pub mod render;
pub mod command;
