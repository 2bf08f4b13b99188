//! Anchor selection and polar-angle ordering of planar points: the
//! preprocessing step of a Graham-scan convex-hull computation.
//!
//! Points live on an integer coordinate grid, so every comparison the
//! ordering makes (cross-product sign tests, the anchor rule) is exact.
//! The tolerance band of width [`EPSILON`] that all comparisons go
//! through is kept explicit so that a coarser grid could widen it.

pub mod angle;
pub mod order;
pub mod point;

pub use angle::compare;
pub use order::order_points;
pub use order::OrderError;
pub use point::distance;
pub use point::Point;
pub use point::EPSILON;
