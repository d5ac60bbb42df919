//! A collateralised lending engine: pooled banks whose shares earn or owe
//! interest, user accounts holding collateral and debt shares, and
//! health-factor-gated deposit, withdraw, borrow, repay and liquidate.

pub mod error;
pub mod math;
pub mod bank;
pub mod registry;
pub mod health;
pub mod market;
pub mod engine;
pub mod liquidation;
pub mod laws;
pub mod oracle;
pub mod validate;
pub mod solvency;
pub mod quoted;
pub mod repayment;
pub mod limits;
