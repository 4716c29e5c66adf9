//! A grid cell addressed by its axial coordinate.
//!
//! `HexCell` wraps a [`Coordinates`] value for callers that prefer to talk
//! about cells rather than raw coordinate pairs; the pixel-space geometry of
//! a cell is the surrounding application's concern.

use crate::coordinates::{add_spec, unit_spec, Coordinates};
use crate::message::invalid_direction_msg;
use vstd::prelude::*;

verus! {

/// A cell of the hexagonal grid, identified by its axial coordinate.
#[derive(Debug, Clone, Copy, PartialEq, Eq, Structural)]
pub struct HexCell {
    pub coord: Coordinates,
}

impl HexCell {
    /// The cell at the given coordinate.
    pub fn at(c: Coordinates) -> (h: HexCell)
        ensures
            h.coord == c,
    {
        HexCell { coord: c }
    }

    /// The adjacent cell in direction 'd' (range 0..6).
    ///
    /// Out-of-range directions are rejected with the same message as
    /// [`Coordinates::unit`].
    pub fn neighbour(&self, d: usize) -> (n: Result<HexCell, String>)
        requires
            d < 6 ==> i32::MIN <= self.coord.q + unit_spec(d as int).0 <= i32::MAX,
            d < 6 ==> i32::MIN <= self.coord.r + unit_spec(d as int).1 <= i32::MAX,
        ensures
            d < 6 ==> (n matches Ok(h) && h.coord@ == add_spec(self.coord@, unit_spec(d as int))),
            d >= 6 ==> (n matches Err(m) && m@ == invalid_direction_msg(d as int)),
    {
        match self.coord.neighbour(d) {
            Ok(c) => Ok(HexCell { coord: c }),
            Err(e) => Err(e),
        }
    }
}

} // verus!
