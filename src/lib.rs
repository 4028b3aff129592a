//! Packing of fixed-size structures into byte buffers, and of sequences of them.

mod error;
mod packing;
pub mod types_vec;

pub use error::PackingError;
pub use packing::PackedStructSlice;
