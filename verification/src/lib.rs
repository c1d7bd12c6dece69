//! Deterministic square identicons rendered as vector-markup documents.
//!
//! A hexadecimal hash string is turned into a flat bit sequence, the bits are
//! folded into a horizontally symmetric square grid, and the set cells are
//! emitted as rectangles of a vector image, one per cell, above an optional
//! background rectangle.

pub mod bits;
pub mod errors;
pub mod grid;
pub mod options;
pub mod render;
pub mod xml;

pub use bits::{bit_array, bit_string_from_u16, byte_array, extract_bits};
pub use errors::IdenticonError;
pub use grid::build_grid;
pub use options::{generate, new_hash, Background, IdenticonOptions};
pub use render::render;
