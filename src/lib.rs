//! Verified core of an elliptical-arc detection toolkit: PGM parsing,
//! ownership bookkeeping for detector buffers, and the pairwise overlap
//! (compatibility) matrix over rasterized primitives.
pub mod text;
pub mod pgm;
pub mod overlap;
pub mod compat;
pub mod error;
pub mod detection;
pub mod matrix_text;

pub use compat::generate_compatibility_matrix;
pub use error::ElsdcError;
pub use matrix_text::format_matrix;
pub use pgm::{parse_pgm, read_pgm_header};
