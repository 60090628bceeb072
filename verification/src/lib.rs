//! Conway's Game of Life on a torus, stored in a packed bit set.
//!
//! The grid is a `width × height` torus of cells kept row by row in a
//! `fixedbitset::FixedBitSet`. Every operation is specified over the
//! sequence of booleans that the bit set holds.

pub mod bits;
pub mod codec;
pub mod laws;
pub mod life;
pub mod universe;

pub use crate::codec::DecodeError;
pub use crate::universe::{Cell, DrawCountError, Universe, SIZE};
