//! Tick-based economic simulation engine for an incremental game:
//! a modifier-composition algebra over fixed-point quantities, and the
//! dependency-ordered calculation of resources, buildings and upgrades
//! that together determine per-tick production, consumption and price.

pub mod building;
pub mod fixed;
pub mod modifier;
pub mod names;
pub mod resource;
pub mod things;
pub mod upgrade;
mod text;

pub use fixed::Fp;
