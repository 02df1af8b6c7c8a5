use viator::config::GridConfig;
use viator::grid::grid::{PathfindingGrid, PathfindingQuery};
use viator::grid::voxel::static_sized_voxel_grid::StaticSizedVoxelGridSmall;
use viator::path::jps::{
    jps_i, jps_i_directions, jps_i_move_in_direction, jps_i_reconstruct_path,
};
use viator::path::path::PathfindingType;
use viator::path::position_map::PositionMap;
use viator::primitive::cell::Cell;
use viator::primitive::vector::Vec3I;

fn y_up_config() -> GridConfig {
    GridConfig::resolve(true, false, false, true, false, true).unwrap()
}

/// The grid of the example scene: 10x10x10 at the origin with six cells.
fn example_grid() -> StaticSizedVoxelGridSmall<Cell> {
    let origin = Vec3I { x: 0, y: 0, z: 0 };
    let extents = Vec3I { x: 10, y: 10, z: 10 };
    let cfg = y_up_config();
    let mut g: StaticSizedVoxelGridSmall<Cell> = StaticSizedVoxelGridSmall::new(
        &origin, &extents, &cfg,
    );
    assert!(g.create_cell(0, 0, 0, &Cell::default()));
    assert!(g.create_cell(1, 0, 0, &Cell::default()));
    assert!(g.create_cell(0, 1, 0, &Cell::default()));
    assert!(g.create_cell(0, 2, 0, &Cell::default()));
    assert!(g.create_cell(0, 3, 0, &Cell::default()));
    assert!(g.create_cell(0, 0, 1, &Cell::default()));
    g
}

/// Every consecutive pair of waypoints must lie on one axis-aligned line
/// with every stepped cell walkable.
fn assert_waypoints_jump_connected(g: &StaticSizedVoxelGridSmall<Cell>, path: &[Vec3I]) {
    for w in path.windows(2) {
        let (a, b) = (w[0], w[1]);
        let dx = (b.x - a.x).signum();
        let dy = (b.y - a.y).signum();
        let dz = (b.z - a.z).signum();
        let on_one_axis = [dx != 0, dy != 0, dz != 0].iter().filter(|&&t| t).count() == 1;
        assert!(on_one_axis, "waypoints {:?} -> {:?} not on one axis", a, b);
        let d = Vec3I { x: dx, y: dy, z: dz };
        let mut p = a;
        loop {
            p = jps_i_move_in_direction(p, d);
            assert!(g.is_valid_path_node_i(&p), "stepped cell {:?} not walkable", p);
            if p == b {
                break;
            }
        }
    }
}

#[test]
fn scenario_straight_line_path_is_found() {
    let g = example_grid();
    let start = Vec3I { x: 0, y: 0, z: 0 };
    let goal = Vec3I { x: 0, y: 3, z: 0 };
    let path = g.compute_path_i(&start, &goal, &PathfindingType::Jps).expect("a path exists");
    assert_eq!(path.first(), Some(&start));
    assert_eq!(path.last(), Some(&goal));
    let created = [
        Vec3I { x: 0, y: 0, z: 0 },
        Vec3I { x: 1, y: 0, z: 0 },
        Vec3I { x: 0, y: 1, z: 0 },
        Vec3I { x: 0, y: 2, z: 0 },
        Vec3I { x: 0, y: 3, z: 0 },
        Vec3I { x: 0, y: 0, z: 1 },
    ];
    for wp in &path {
        assert!(created.contains(wp), "waypoint {:?} is not a created cell", wp);
    }
    assert_waypoints_jump_connected(&g, &path);
}

#[test]
fn scenario_unreachable_goal_reports_no_path() {
    let g = example_grid();
    let start = Vec3I { x: 0, y: 0, z: 0 };
    let goal = Vec3I { x: 5, y: 5, z: 5 };
    assert_eq!(g.compute_path_i(&start, &goal, &PathfindingType::Jps), None);
}

#[test]
fn scenario_start_equals_goal_gives_single_waypoint() {
    let g = example_grid();
    for p in [Vec3I { x: 0, y: 0, z: 0 }, Vec3I { x: 0, y: 3, z: 0 }] {
        let path = g.compute_path_i(&p, &p, &PathfindingType::Jps).expect("trivial path");
        assert_eq!(path, vec![p]);
    }
}

#[test]
fn no_path_when_walkable_region_is_disconnected() {
    let origin = Vec3I { x: 0, y: 0, z: 0 };
    let extents = Vec3I { x: 10, y: 10, z: 10 };
    let cfg = y_up_config();
    let mut g: StaticSizedVoxelGridSmall<Cell> = StaticSizedVoxelGridSmall::new(
        &origin, &extents, &cfg,
    );
    assert!(g.create_cell(0, 0, 0, &Cell::default()));
    assert!(g.create_cell(9, 9, 9, &Cell::default()));
    let start = Vec3I { x: 0, y: 0, z: 0 };
    let goal = Vec3I { x: 9, y: 9, z: 9 };
    assert_eq!(g.compute_path_i(&start, &goal, &PathfindingType::Jps), None);
}

#[test]
fn path_query_is_convention_independent() {
    let origin = Vec3I { x: 0, y: 0, z: 0 };
    let extents = Vec3I { x: 10, y: 10, z: 10 };
    let cfg = GridConfig::resolve(false, true, false, true, false, true).unwrap();
    let mut g: StaticSizedVoxelGridSmall<Cell> = StaticSizedVoxelGridSmall::new(
        &origin, &extents, &cfg,
    );
    assert!(g.create_cell(0, 0, 0, &Cell::default()));
    assert!(g.create_cell(1, 0, 0, &Cell::default()));
    assert!(g.create_cell(0, 1, 0, &Cell::default()));
    assert!(g.create_cell(0, 2, 0, &Cell::default()));
    assert!(g.create_cell(0, 3, 0, &Cell::default()));
    assert!(g.create_cell(0, 0, 1, &Cell::default()));
    let start = Vec3I { x: 0, y: 0, z: 0 };
    let goal = Vec3I { x: 0, y: 3, z: 0 };
    let path = g.compute_path_i(&start, &goal, &PathfindingType::Jps).expect("a path exists");
    assert_eq!(path.first(), Some(&start));
    assert_eq!(path.last(), Some(&goal));
}

#[test]
fn jps_i_agrees_with_the_grid_query() {
    let g = example_grid();
    let start = Vec3I { x: 0, y: 0, z: 0 };
    let goal = Vec3I { x: 0, y: 3, z: 0 };
    let direct = jps_i(&start, &goal, &g);
    let through_grid = g.compute_path_i(&start, &goal, &PathfindingType::Jps);
    assert_eq!(direct, through_grid);
}

#[test]
fn directions_are_the_six_axis_neighbours() {
    let dirs = jps_i_directions();
    assert_eq!(dirs.len(), 6);
    assert_eq!(dirs[0], Vec3I { x: 1, y: 0, z: 0 });
    assert_eq!(dirs[1], Vec3I { x: -1, y: 0, z: 0 });
    assert_eq!(dirs[2], Vec3I { x: 0, y: 1, z: 0 });
    assert_eq!(dirs[3], Vec3I { x: 0, y: -1, z: 0 });
    assert_eq!(dirs[4], Vec3I { x: 0, y: 0, z: 1 });
    assert_eq!(dirs[5], Vec3I { x: 0, y: 0, z: -1 });
}

#[test]
fn move_in_direction_steps_one_cell() {
    let p = Vec3I { x: 1, y: 2, z: 3 };
    let d = Vec3I { x: 0, y: 0, z: -1 };
    assert_eq!(jps_i_move_in_direction(p, d), Vec3I { x: 1, y: 2, z: 2 });
}

#[test]
fn move_in_direction_clamps_at_the_coordinate_ends() {
    let p = Vec3I { x: i64::MAX, y: 0, z: i64::MIN };
    let d = Vec3I { x: 1, y: 0, z: -1 };
    assert_eq!(jps_i_move_in_direction(p, d), p);
}

#[test]
fn reconstruct_path_follows_predecessor_links() {
    let start = Vec3I { x: 0, y: 0, z: 0 };
    let mid = Vec3I { x: 0, y: 0, z: 4 };
    let goal = Vec3I { x: 3, y: 0, z: 4 };
    let mut came_from: PositionMap<Option<Vec3I>> = PositionMap::new();
    came_from.insert(start, None);
    came_from.insert(mid, Some(start));
    came_from.insert(goal, Some(mid));
    let path = jps_i_reconstruct_path(came_from, goal);
    assert_eq!(path, vec![start, mid, goal]);
}
