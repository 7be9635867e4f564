//! Why a grid could not be made.

use vstd::prelude::*;

verus! {

/// The reasons for which a request for a grid is refused. A refused request
/// changes nothing.
#[derive(Clone, Copy, Debug, PartialEq, Eq, Structural)]
pub enum GridError {
    /// The width or the height asked for is zero.
    InvalidDimension,
    /// The grid would have more cells than a 32-bit index can number.
    GridTooLarge,
    /// The grid is too small to hold the motif asked for.
    PatternTooSmall,
    /// Fewer coin tosses were supplied than the grid has cells.
    TooFewDraws,
}

} // verus!
