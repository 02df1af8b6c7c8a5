pub mod grid;
pub mod voxel;
