//! Post-processing of rendered pages.

pub mod css;
pub mod serialize;
