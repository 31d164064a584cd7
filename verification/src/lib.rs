//! Valuation and ratio engine for a stablecoin collateral report.
//!
//! Raw numeric facts arrive as integer strings in mismatched fixed-point
//! scales; the engine normalizes them to scale-aware decimal values, computes
//! per-asset metrics (hedge ratio, organic backing, pro-rata pool shares),
//! folds them into a portfolio report, and renders that report as text.

pub mod decimal;
pub mod errors;
pub mod literal;
pub mod normalize;
pub mod ratio;
pub mod report;
pub mod text;
pub mod valuer;
