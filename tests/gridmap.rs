use vacuum_sim::controller::gridmap::{Boundary, CellState, GridMap, CELL_LENGTH, SIZE};
use vacuum_sim::controller::Controller;
use vacuum_sim::geometry::point::Point;
use vacuum_sim::geometry::pose::Pose;
use vacuum_sim::geometry::vector::Vector;
use vacuum_sim::math::Angle;
use vacuum_sim::pointcloud::PointCloud;
use vacuum_sim::sensor::laserscanner::{Measurement, Scan};

fn cloud(points: &[(i64, i64)]) -> PointCloud {
    PointCloud::new(points.iter().map(|&(x, y)| Point::new(x, y)).collect())
}

fn all_void(g: &GridMap) -> bool {
    for r in 0..g.size() {
        for c in 0..g.size() {
            if g.cell_state(r, c) != Some(&CellState::Void) || g.cell_count(r, c) != Some(0) {
                return false;
            }
        }
    }
    true
}

#[test]
fn default_grid_is_void() {
    let g = GridMap::default();
    assert_eq!(g.size(), SIZE);
    assert_eq!(g.cell_length(), CELL_LENGTH);
    assert_eq!(g.boundary(), Boundary::Reject);
    assert!(all_void(&g));
    assert_eq!(CellState::default(), CellState::Void);
}

#[test]
fn out_of_range_queries_are_absent() {
    let g = GridMap::default();
    assert_eq!(g.cell_state(SIZE, 0), None);
    assert_eq!(g.cell_state(0, SIZE), None);
    assert_eq!(g.cell_count(SIZE, SIZE), None);
    assert_eq!(g.cell_state(SIZE - 1, SIZE - 1), Some(&CellState::Void));
}

#[test]
fn origin_maps_to_centre_cell() {
    let mut g = GridMap::default();
    g.update_points(&cloud(&[(0, 0)]));
    assert_eq!(g.cell_state(55, 55), Some(&CellState::Occupied(1)));
}

#[test]
fn quantization_rounds_down() {
    let mut g = GridMap::default();
    // -1 / 250 + 55.5 = 55.496 -> 55; -126 / 250 + 55.5 = 54.996 -> 54.
    g.update_points(&cloud(&[(-1, -1), (-126, 0), (125, 250)]));
    assert_eq!(g.cell_count(55, 55), Some(1));
    assert_eq!(g.cell_count(55, 54), Some(1));
    assert_eq!(g.cell_count(56, 56), Some(1));
}

#[test]
fn same_point_twice_counts_two() {
    let mut g = GridMap::default();
    let p = cloud(&[(1000, -2000)]);
    g.update_points(&p);
    g.update_points(&p);
    // y = -2000 -> -8 + 55.5 -> 47; x = 1000 -> 4 + 55.5 -> 59.
    assert_eq!(g.cell_state(47, 59), Some(&CellState::Occupied(2)));
    assert_eq!(g.cell_count(47, 59), Some(2));
}

#[test]
fn update_then_clear_is_fresh() {
    let mut g = GridMap::default();
    g.update_points(&cloud(&[(0, 0), (500, 500), (-3000, 7000)]));
    assert!(!all_void(&g));
    g.clear();
    assert!(all_void(&g));
    assert_eq!(g.size(), SIZE);
    assert_eq!(g.cell_length(), CELL_LENGTH);
}

#[test]
fn reject_policy_drops_point_on_positive_edge() {
    let mut g = GridMap::default();
    // 111 / 2 * 250 = 13875: the first index past the grid.
    g.update_points(&cloud(&[(13875, 0), (0, 13875)]));
    assert!(all_void(&g));
    // One unit short of it is the last cell.
    g.update_points(&cloud(&[(13874, 0)]));
    assert_eq!(g.cell_count(55, 110), Some(1));
    // The negative edge is the first cell.
    g.update_points(&cloud(&[(-13875, 0)]));
    assert_eq!(g.cell_count(55, 0), Some(1));
    g.update_points(&cloud(&[(-13876, 0)]));
    assert_eq!(g.cell_count(55, 0), Some(1));
}

#[test]
fn clamp_policy_moves_point_to_last_cell() {
    let mut g = GridMap::new(SIZE, CELL_LENGTH, Boundary::Clamp).unwrap();
    g.update_points(&cloud(&[(13875, 0)]));
    assert_eq!(g.cell_count(55, 110), Some(1));
    g.update_points(&cloud(&[(13874, 0)]));
    assert_eq!(g.cell_count(55, 110), Some(2));
    g.update_points(&cloud(&[(-100000, 100000)]));
    assert_eq!(g.cell_count(110, 0), Some(1));
}

#[test]
fn grid_rejects_bad_configuration() {
    assert!(GridMap::new(0, 250, Boundary::Reject).is_none());
    assert!(GridMap::new(10, 0, Boundary::Reject).is_none());
    assert!(GridMap::new(10, -5, Boundary::Clamp).is_none());
    assert!(GridMap::new(5000, 250, Boundary::Reject).is_none());
    let g = GridMap::new(4, 10, Boundary::Clamp).unwrap();
    assert_eq!(g.size(), 4);
    assert!(all_void(&g));
}

#[test]
fn even_grid_centre() {
    let mut g = GridMap::new(4, 10, Boundary::Reject).unwrap();
    // x / 10 + 2: -20 -> 0, -1 -> 1, 0 -> 2, 19 -> 3, 20 -> out.
    g.update_points(&cloud(&[(-20, 0), (-1, 0), (0, 0), (19, 0), (20, 0)]));
    assert_eq!(g.cell_count(2, 0), Some(1));
    assert_eq!(g.cell_count(2, 1), Some(1));
    assert_eq!(g.cell_count(2, 2), Some(1));
    assert_eq!(g.cell_count(2, 3), Some(1));
}

#[test]
fn update_projects_scan_from_pose() {
    let mut g = GridMap::default();
    let mut scan = Scan::empty();
    scan.add(Measurement::new(Angle::zero(), 1000));
    scan.add(Measurement::new(Angle::zero(), 1100));
    g.update(&Pose::default(), &scan);
    // y = 1000 -> 59, y = 1100 -> 59.9 -> 59.
    assert_eq!(g.cell_count(59, 55), Some(2));
}

#[test]
fn controller_accumulates_or_clears() {
    let mut scan = Scan::empty();
    scan.add(Measurement::new(Angle::zero(), 1000));
    let pose = Pose::new(Vector::new(0, 0), Angle::zero());

    let mut keep = Controller::default();
    assert!(!keep.clear_each_cycle);
    keep.cycle(&scan, &pose);
    keep.cycle(&scan, &pose);
    assert_eq!(keep.gridmap.cell_count(59, 55), Some(2));
    assert_eq!(keep.pose_estimate, pose);

    let mut fresh = Controller::new(GridMap::default(), true);
    fresh.cycle(&scan, &pose);
    fresh.cycle(&scan, &pose);
    assert_eq!(fresh.gridmap.cell_count(59, 55), Some(1));
}

#[test]
fn count_saturates_at_ceiling_state() {
    let mut g = GridMap::new(1, 10, Boundary::Clamp).unwrap();
    g.update_points(&cloud(&[(0, 0), (99, 99), (-99, -99)]));
    assert_eq!(g.cell_state(0, 0), Some(&CellState::Occupied(3)));
}
