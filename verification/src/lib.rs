//! Builds a per-ticker, per-year financial panel from wide CSV tables,
//! derives accounting ratios and year-over-year deltas, and emits a flat
//! feature matrix with a discretized price-movement label.
//!
//! All monetary values and ratios are fixed-point integers scaled by
//! `fx::SCALE` (six decimal places), so every derivation is exact integer
//! arithmetic with explicit guards and clamps, and every stage's result
//! is pinned to a model of its CSV input.

pub mod features;
pub mod fx;
pub mod laws;
pub mod parse;
pub mod pipeline;
pub mod prices;
pub mod records;
pub mod series;
