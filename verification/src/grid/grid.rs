use vstd::prelude::*;

use crate::path::jps::{jps_i, spec_jps_post};
use crate::path::path::PathfindingType;
use crate::primitive::cuboid::CuboidI;
use crate::primitive::vector::Vec3I;

verus! {

/// Every walkable position of a grid lies within this many cells of the
/// origin on each axis; it bounds the region a path scan can ever cross.
pub const WALKABLE_COORD_BOUND: i64 = 0x4000_0000;

/// Capability interface of a path-searchable, drawable grid.
///
/// The search engine relies on one predicate only: `is_valid_path_node_i`.
/// Occupied cells are the traversable surface; unoccupied or out-of-range
/// cells are obstacles.
pub trait PathfindingGrid: Sized {
    /// The set of walkable positions.
    spec fn spec_walkable(&self) -> Set<Vec3I>;

    /// The grid's anchor position.
    spec fn spec_anchor(&self) -> Vec3I;

    /// The unit boxes of the currently occupied cells.
    spec fn spec_cuboids(&self) -> Seq<CuboidI>;

    /// True iff `position`, translated into a linear index, is in range and
    /// currently occupied. A walkable position always lies within
    /// `WALKABLE_COORD_BOUND` of the origin on every axis: the searchable
    /// region of any grid is machine-bounded.
    fn is_valid_path_node_i(&self, position: &Vec3I) -> (r: bool)
        ensures
            r == self.spec_walkable().contains(*position),
            r ==> -WALKABLE_COORD_BOUND <= position.x <= WALKABLE_COORD_BOUND
                && -WALKABLE_COORD_BOUND <= position.y <= WALKABLE_COORD_BOUND
                && -WALKABLE_COORD_BOUND <= position.z <= WALKABLE_COORD_BOUND,
    ;

    /// The grid's origin in integer coordinates.
    fn position_i(&self) -> (r: Vec3I)
        ensures
            r == self.spec_anchor(),
    ;

    /// A snapshot of the occupied cells, one unit cuboid per cell.
    fn as_cuboid_cells(&self) -> (r: Vec<CuboidI>)
        ensures
            r@ == self.spec_cuboids(),
    ;
}

/// The navigation query every grid offers: path search through a selectable
/// algorithm. Implemented once for every `PathfindingGrid`.
pub trait PathfindingQuery: PathfindingGrid {
    /// Searches a traversable path from `start` to `goal` (both inclusive)
    /// with the selected algorithm, or reports that none was found.
    fn compute_path_i(
        &self,
        start: &Vec3I,
        goal: &Vec3I,
        pathfinding_engine: &PathfindingType,
    ) -> (r: Option<Vec<Vec3I>>)
        ensures
            spec_jps_post(self.spec_walkable(), *start, *goal, r),
    ;
}

impl<G: PathfindingGrid> PathfindingQuery for G {
    fn compute_path_i(
        &self,
        start: &Vec3I,
        goal: &Vec3I,
        pathfinding_engine: &PathfindingType,
    ) -> (r: Option<Vec<Vec3I>>) {
        match pathfinding_engine {
            PathfindingType::Jps => jps_i(start, goal, self),
        }
    }
}

} // verus!
