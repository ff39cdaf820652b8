//! A pooled, cross-collateral lending ledger.
//!
//! Users deposit fungible assets into shared per-asset pools (banks) and may
//! borrow other assets against their deposits, subject to a risk-weighted
//! solvency check. When an account becomes under-collateralized, any other
//! account may liquidate part of its position at a discounted exchange, with
//! a fee skimmed to an insurance vault.
//!
//! All monetary and risk quantities are unsigned fixed-point numbers with 48
//! fractional bits ([`fp::Fp`]); arithmetic is checked and any overflow fails
//! the instruction with [`errors::MarginfiError::MathError`].

pub mod account;
pub mod bank;
pub mod errors;
pub mod fp;
pub mod laws;
pub mod ledger;
pub mod risk;
