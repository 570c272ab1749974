//! Omnipool: every asset trades against one shared hub asset.

pub mod duality;
pub mod math;
pub mod types;
