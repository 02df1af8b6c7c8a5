use vstd::prelude::*;

use crate::primitive::vector::Vec3I;

verus! {

/// An axis-aligned box in integer coordinates: an anchor position plus
/// per-axis extents. Used as a query result for visualization, never as a
/// storage unit.
#[derive(Debug, Clone, Copy, PartialEq, Eq, Structural)]
pub struct CuboidI {
    pub position: Vec3I,
    pub extents: Vec3I,
}

} // verus!
