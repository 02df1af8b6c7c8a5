use viator::config::GridConfig;
use viator::grid::grid::PathfindingGrid;
use viator::grid::voxel::static_sized_voxel_grid::StaticSizedVoxelGridSmall;
use viator::primitive::cell::Cell;
use viator::primitive::vector::Vec3I;

fn y_up_config() -> GridConfig {
    GridConfig::resolve(true, false, false, true, false, true).unwrap()
}

fn z_up_config() -> GridConfig {
    GridConfig::resolve(false, true, false, true, false, true).unwrap()
}

fn grid_10(config: &GridConfig) -> StaticSizedVoxelGridSmall<u64> {
    let origin = Vec3I { x: 0, y: 0, z: 0 };
    let extents = Vec3I { x: 10, y: 10, z: 10 };
    StaticSizedVoxelGridSmall::new(&origin, &extents, config)
}

#[test]
fn create_then_read_returns_the_value() {
    let cfg = y_up_config();
    let mut g = grid_10(&cfg);
    assert!(g.create_cell(1, 2, 3, &7));
    assert_eq!(g.read_cell_cloned(1, 2, 3), Some(7));
    assert_eq!(g.read_cell(1, 2, 3), Some(&7));
}

#[test]
fn read_of_an_untouched_slot_is_absent() {
    let cfg = y_up_config();
    let g = grid_10(&cfg);
    assert_eq!(g.read_cell_cloned(4, 4, 4), None);
}

#[test]
fn create_on_occupied_slot_fails_and_keeps_value() {
    let cfg = y_up_config();
    let mut g = grid_10(&cfg);
    assert!(g.create_cell(1, 1, 1, &7));
    assert!(!g.create_cell(1, 1, 1, &9));
    assert_eq!(g.read_cell_cloned(1, 1, 1), Some(7));
}

#[test]
fn update_on_occupied_slot_overwrites() {
    let cfg = y_up_config();
    let mut g = grid_10(&cfg);
    assert!(g.create_cell(2, 2, 2, &7));
    assert!(g.update_cell(2, 2, 2, &9));
    assert_eq!(g.read_cell_cloned(2, 2, 2), Some(9));
}

#[test]
fn update_on_unoccupied_slot_fails_and_slot_stays_absent() {
    let cfg = y_up_config();
    let mut g = grid_10(&cfg);
    assert!(!g.update_cell(3, 3, 3, &9));
    assert_eq!(g.read_cell_cloned(3, 3, 3), None);
    assert_eq!(g.as_cuboid_cells().len(), 0);
}

#[test]
fn upsert_writes_whether_or_not_occupied() {
    let cfg = y_up_config();
    let mut g = grid_10(&cfg);
    g.upsert_cell(5, 5, 5, &1);
    assert_eq!(g.read_cell_cloned(5, 5, 5), Some(1));
    g.upsert_cell(5, 5, 5, &2);
    assert_eq!(g.read_cell_cloned(5, 5, 5), Some(2));
    assert_eq!(g.as_cuboid_cells().len(), 1);
}

#[test]
fn delete_resets_to_default_and_clears_occupancy() {
    let cfg = y_up_config();
    let mut g = grid_10(&cfg);
    assert!(g.create_cell(1, 0, 0, &42));
    g.delete_cell(1, 0, 0);
    assert_eq!(g.read_cell_cloned(1, 0, 0), None);
    assert_eq!(g.as_cuboid_cells().len(), 0);
    // After re-creating with the default value the slot reads back the
    // payload default, showing the backing was erased.
    assert!(g.create_cell(1, 0, 0, &u64::default()));
    assert_eq!(g.read_cell_cloned(1, 0, 0), Some(0));
}

#[test]
fn delete_check_reports_whether_a_slot_was_cleared() {
    let cfg = y_up_config();
    let mut g = grid_10(&cfg);
    assert!(g.create_cell(0, 1, 0, &5));
    assert!(g.delete_cell_check(0, 1, 0));
    assert!(!g.delete_cell_check(0, 1, 0));
}

#[test]
fn delete_pop_returns_the_prior_value() {
    let cfg = y_up_config();
    let mut g = grid_10(&cfg);
    assert!(g.create_cell(0, 0, 1, &11));
    assert_eq!(g.delete_cell_pop(0, 0, 1), Some(11));
    assert_eq!(g.delete_cell_pop(0, 0, 1), None);
    assert_eq!(g.read_cell_cloned(0, 0, 1), None);
}

#[test]
fn out_of_capacity_create_fails_and_occupancy_is_unchanged() {
    let cfg = y_up_config();
    let mut g = grid_10(&cfg);
    assert!(g.create_cell(0, 0, 0, &1));
    let before = g.as_cuboid_cells().len();
    // In the 10x10x10 y-up layout this computes index 999900, far beyond
    // the ten-thousand-slot tier.
    assert!(!g.create_cell(0, 9999, 0, &1));
    assert_eq!(g.as_cuboid_cells().len(), before);
    assert_eq!(g.read_cell_cloned(0, 9999, 0), None);
}

#[test]
fn capacity_boundary_is_exact() {
    let cfg = y_up_config();
    let mut g = grid_10(&cfg);
    // In the 10x10x10 y-up layout, (9, 99, 9) packs to index 9999, the last
    // slot of the ten-thousand tier; (0, 100, 0) packs to exactly 10000.
    assert!(g.create_cell(9, 99, 9, &1));
    assert_eq!(g.read_cell_cloned(9, 99, 9), Some(1));
    assert!(!g.create_cell(0, 100, 0, &1));
    assert_eq!(g.read_cell_cloned(0, 100, 0), None);
}

#[test]
fn cuboid_snapshot_lists_every_occupied_cell() {
    let cfg = y_up_config();
    let mut g = grid_10(&cfg);
    assert!(g.create_cell(0, 0, 0, &1));
    assert!(g.create_cell(2, 0, 0, &2));
    assert!(g.create_cell(0, 5, 7, &3));
    let positions: Vec<Vec3I> = g.as_cuboid_cells().iter().map(|c| c.position).collect();
    assert_eq!(positions.len(), 3);
    assert!(positions.contains(&Vec3I { x: 0, y: 0, z: 0 }));
    assert!(positions.contains(&Vec3I { x: 2, y: 0, z: 0 }));
    assert!(positions.contains(&Vec3I { x: 0, y: 5, z: 7 }));
}

#[test]
fn negative_coordinates_are_rejected_at_the_origin() {
    let cfg = y_up_config();
    let mut g = grid_10(&cfg);
    assert!(!g.create_cell(-1, 0, 0, &1));
    assert_eq!(g.read_cell_cloned(-1, 0, 0), None);
}

#[test]
fn cuboid_snapshot_decodes_y_up_indices() {
    let cfg = y_up_config();
    let mut g = grid_10(&cfg);
    assert!(g.create_cell(3, 4, 5, &1));
    let boxes = g.as_cuboid_cells();
    assert_eq!(boxes.len(), 1);
    assert_eq!(boxes[0].position, Vec3I { x: 3, y: 4, z: 5 });
    assert_eq!(boxes[0].extents, Vec3I { x: 1, y: 1, z: 1 });
}

#[test]
fn cuboid_snapshot_decodes_z_up_indices() {
    let cfg = z_up_config();
    let mut g = grid_10(&cfg);
    assert!(g.create_cell(3, 4, 5, &1));
    let boxes = g.as_cuboid_cells();
    assert_eq!(boxes.len(), 1);
    assert_eq!(boxes[0].position, Vec3I { x: 3, y: 4, z: 5 });
}

#[test]
fn cuboid_snapshot_positions_are_anchored() {
    let cfg = y_up_config();
    let anchor = Vec3I { x: 2, y: 0, z: 2 };
    let extents = Vec3I { x: 10, y: 10, z: 10 };
    let mut g: StaticSizedVoxelGridSmall<Cell> = StaticSizedVoxelGridSmall::new(
        &anchor, &extents, &cfg,
    );
    assert!(g.create_cell(1, 1, 1, &Cell::default()));
    let boxes = g.as_cuboid_cells();
    assert_eq!(boxes.len(), 1);
    assert_eq!(boxes[0].position, Vec3I { x: 3, y: 1, z: 3 });
}

#[test]
fn bounds_cover_the_logical_extents() {
    let cfg = y_up_config();
    let anchor = Vec3I { x: 2, y: 0, z: 2 };
    let extents = Vec3I { x: 10, y: 9, z: 8 };
    let g: StaticSizedVoxelGridSmall<u64> = StaticSizedVoxelGridSmall::new(
        &anchor, &extents, &cfg,
    );
    let b = g.bounds_as_cuboid();
    assert_eq!(b.position, anchor);
    assert_eq!(b.extents, Vec3I { x: 10, y: 9, z: 8 });
}

#[test]
fn anchor_is_reported_by_position_i() {
    let cfg = y_up_config();
    let anchor = Vec3I { x: 7, y: 1, z: 4 };
    let extents = Vec3I { x: 5, y: 5, z: 5 };
    let g: StaticSizedVoxelGridSmall<u64> = StaticSizedVoxelGridSmall::new(
        &anchor, &extents, &cfg,
    );
    assert_eq!(g.position_i(), anchor);
}

#[test]
fn validity_predicate_tracks_occupancy() {
    let cfg = y_up_config();
    let mut g = grid_10(&cfg);
    let p = Vec3I { x: 1, y: 2, z: 3 };
    assert!(!g.is_valid_path_node_i(&p));
    assert!(g.create_cell(1, 2, 3, &1));
    assert!(g.is_valid_path_node_i(&p));
    g.delete_cell(1, 2, 3);
    assert!(!g.is_valid_path_node_i(&p));
}

#[test]
fn occupancy_round_trip_mixed_operations() {
    let cfg = y_up_config();
    let mut g = grid_10(&cfg);
    assert!(g.create_cell(0, 0, 0, &1));
    g.upsert_cell(1, 0, 0, &2);
    assert!(g.update_cell(0, 0, 0, &3));
    assert_eq!(g.as_cuboid_cells().len(), 2);
    assert_eq!(g.read_cell_cloned(0, 0, 0), Some(3));
    assert_eq!(g.read_cell_cloned(1, 0, 0), Some(2));
    g.delete_cell(1, 0, 0);
    assert_eq!(g.as_cuboid_cells().len(), 1);
    assert_eq!(g.read_cell_cloned(1, 0, 0), None);
    assert_eq!(g.read_cell_cloned(0, 0, 0), Some(3));
}
