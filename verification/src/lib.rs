//! Real-root isolation for dense univariate polynomials, together with the
//! auto-ranging and pixel/coordinate mapping used to plot their graphs.
//!
//! Reals are carried in a saturating fixed-point representation (see
//! [`fixed`]); the rendering of the resulting curve is left to the embedding
//! application.

pub mod fixed;
pub mod utils;
pub mod polynomial;
pub mod chart;
pub mod text;
