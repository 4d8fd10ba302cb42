//! Empirical-evidence ledgers: data regimes, disjointness and declared scopes.
pub mod regime;
pub mod data;
pub mod disjointness;
pub mod direction;
pub mod progress;
pub mod residual;
