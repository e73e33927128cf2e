//! Realized-performance analytics for a single-account trade ledger.
//!
//! The crate takes a chronological stream of executed fills and derives
//! realized performance: matched entry/exit pairs under a FIFO or LIFO
//! lot-selection policy, position lifecycles, and a family of portfolio
//! statistics (win rate, expectancy, drawdown, equity curve, concentration,
//! and behavioral tilt analysis).
//!
//! Quantities, prices and fees are fixed-point integers (a caller-chosen
//! decimal scale); every function is a pure, deterministic computation over
//! in-memory values, and its behaviour is stated in its contract.

pub mod conservation;
pub mod daily;
pub mod distribution;
pub mod equity;
pub mod matcher;
pub mod metrics;
pub mod policy;
pub mod policy_laws;
pub mod positions;
pub mod records;
pub mod reports;
pub mod symbols;
pub mod tilt;
pub mod timestamps;
pub mod trade;

pub use symbols::is_options_symbol;
pub use symbols::get_underlying_symbol;
