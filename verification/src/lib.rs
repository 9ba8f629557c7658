//! Multiscale peak detection for gas-chromatography detector traces, with a
//! small companion model of refrigerant mixtures and their classification.
//!
//! All numeric work is done in exact fixed-point arithmetic: a real quantity
//! is carried as a signed count of micro-units (`fixed::SCALE` counts per
//! unit), so every computation in the pipeline is deterministic and fully
//! specified down to the last micro-unit.

pub mod cluster;
pub mod convolve;
pub mod detect;
pub mod extrema;
pub mod fixed;
pub mod kernel;
pub mod math;
pub mod peaks;
pub mod preprocess;
pub mod refrigerant;
pub mod threshold;

pub use fixed::SCALE;
