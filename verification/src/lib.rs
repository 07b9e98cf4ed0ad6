//! Fixed-size 2D grids of block identifiers, a signed 2D coordinate type with
//! componentwise arithmetic, and a positional codec for fixed-length arrays
//! that reports a length error with the first missing index.

use vstd::prelude::*;

pub mod codec;
pub mod coord;
pub mod grid;

verus! {

/// Unsigned integer naming a grid cell's content.
pub type BlockID = usize;

} // verus!
