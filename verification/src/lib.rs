//! Hexagonal-grid geometry kernel.
//!
//! The crate provides the tile-side algebra of a hexagonal grid built on
//! axial coordinates: construction, arithmetic, distance, neighbour lookup,
//! exact fractional rounding and line drawing. Pixel-space concerns
//! (orientations, layouts, floating-point transforms) are left to the
//! surrounding application; everything here is integer mathematics with
//! machine-checked contracts.

pub mod coordinates;
pub mod hexcell;
pub mod message;
pub mod rounding;

pub use coordinates::Coordinates;
pub use coordinates::EdgeCoordinates;
pub use hexcell::HexCell;
pub use rounding::Frac;
