//! A spatial primitive for voxelized worlds: a capacity-bounded 3D
//! occupancy grid and a 3D Jump Point Search pathfinder over it.
//!
//! A caller resolves the build-wide [`config::GridConfig`] once, constructs
//! a [`grid::voxel::static_sized_voxel_grid::StaticSizedVoxelGrid`] of the
//! capacity tier it needs, populates cells through the create / read /
//! update / upsert / delete operations, and asks for routes through
//! [`grid::grid::PathfindingQuery::compute_path_i`]. Occupied cells are the
//! traversable surface; a query returns an ordered waypoint sequence from
//! start to goal or reports, as an ordinary result, that no path was found.

use vstd::prelude::*;

pub mod config;
pub mod grid;
pub mod path;
pub mod primitive;

verus! {

/// Sum of two sizes, provided the result stays representable.
pub fn add(left: usize, right: usize) -> (r: usize)
    requires
        left + right <= usize::MAX,
    ensures
        r == left + right,
{
    left + right
}

} // verus!
