pub mod static_sized_voxel_grid;
