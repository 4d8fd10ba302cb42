//! Named-axis shape algebra, identity-aware data regimes and declaration
//! checks for an experimental training library.
pub mod error;
pub mod text;
pub mod axis;
pub mod geometry;
pub mod contraction;
pub mod broadcast;
pub mod loss;
pub mod structural;
pub mod model;
pub mod architectures;
pub mod research;
