//! Simulation of dollar-cost-averaging purchase strategies over a daily
//! price series, and bucketing of a price series into one representative
//! observation per calendar month (first / middle / last trading day).
//!
//! All money amounts are integers in minor currency units (for example
//! cents), so that purchase arithmetic is exact.

pub mod invest;
pub mod laws;
pub mod ticker;
