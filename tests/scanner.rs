use vacuum_sim::geometry::line::Line;
use vacuum_sim::geometry::pose::Pose;
use vacuum_sim::geometry::vector::Vector;
use vacuum_sim::math::{Angle, UNIT};
use vacuum_sim::pointcloud::raycast;
use vacuum_sim::sensor::laserscanner::{Measurement, Scan};
use vacuum_sim::simulation::laserscanner::LaserScanner;

fn v(x: i64, y: i64) -> Vector {
    Vector::new(x, y)
}

fn column_angles(n: u32) -> Vec<Angle> {
    (0..n)
        .map(|i| {
            let a = i as f64 / n as f64 * 2.0 * std::f64::consts::PI;
            Angle::new(
                (a.cos() * UNIT as f64).round() as i64,
                (a.sin() * UNIT as f64).round() as i64,
            )
        })
        .collect()
}

fn square(half: i64) -> Vec<Line> {
    vec![
        Line::new(v(-half, -half), v(half, -half)),
        Line::new(v(half, -half), v(half, half)),
        Line::new(v(half, half), v(-half, half)),
        Line::new(v(-half, half), v(-half, -half)),
    ]
}

#[test]
fn scanner_reports_nearer_of_two_walls() {
    let scanner = LaserScanner::new(vec![Angle::zero()]).unwrap();
    let walls = vec![
        Line::new(v(-1000, 10000), v(1000, 10000)),
        Line::new(v(-1000, 5000), v(1000, 5000)),
    ];
    let scan = scanner.scan(&Pose::default(), &walls);
    assert_eq!(scan.len(), 1);
    assert_eq!(scan.get(0), Measurement::new(Angle::zero(), 5000));
}

#[test]
fn full_scan_in_square_room_reads_every_column() {
    for n in [1u32, 4, 8, 100] {
        let angles = column_angles(n);
        let scanner = LaserScanner::new(angles.clone()).unwrap();
        assert_eq!(scanner.num_columns(), n);
        let pose = Pose::new(v(100, -200), Angle::zero());
        let scan = scanner.scan(&pose, &square(5000));
        assert_eq!(scan.len(), n as usize);
        for (i, m) in scan.iter().enumerate() {
            assert_eq!(m.angle, angles[i]);
            assert_eq!(scanner.column_to_angle(i as u32), angles[i]);
            let expected = i as f64 / n as f64 * 2.0 * std::f64::consts::PI;
            let got = (m.angle.sin as f64).atan2(m.angle.cos as f64).rem_euclid(2.0 * std::f64::consts::PI);
            assert!((got - expected).abs() < 1e-3 || (got - expected).abs() > 2.0 * std::f64::consts::PI - 1e-3);
            assert!(m.distance >= 4700 && m.distance <= 7500);
        }
    }
}

#[test]
fn square_room_distances_along_axes() {
    let scanner = LaserScanner::new(column_angles(4)).unwrap();
    let scan = scanner.scan(&Pose::default(), &square(5000));
    let distances: Vec<u64> = scan.iter().map(|m| m.distance).collect();
    assert_eq!(distances, vec![5000, 5000, 5000, 5000]);
}

#[test]
fn columns_without_hits_are_left_out() {
    let scanner = LaserScanner::new(column_angles(4)).unwrap();
    // One wall straight ahead only.
    let walls = vec![Line::new(v(-1000, 3000), v(1000, 3000))];
    let scan = scanner.scan(&Pose::default(), &walls);
    assert_eq!(scan.len(), 1);
    assert_eq!(scan.get(0).distance, 3000);
    assert_eq!(scan.get(0).angle, Angle::zero());
    let empty = scanner.scan(&Pose::default(), &[]);
    assert_eq!(empty.len(), 0);
}

#[test]
fn scanner_rejects_bad_columns() {
    assert!(LaserScanner::new(vec![]).is_none());
    assert!(LaserScanner::new(vec![Angle { cos: UNIT + 1, sin: 0 }]).is_none());
    assert!(LaserScanner::new(vec![Angle::zero(), Angle { cos: 0, sin: -UNIT - 1 }]).is_none());
    assert!(LaserScanner::new(vec![Angle::zero()]).is_some());
}

#[test]
fn heading_turns_the_scan() {
    let scanner = LaserScanner::new(vec![Angle::zero()]).unwrap();
    let walls = vec![Line::new(v(-4000, -1000), v(-4000, 1000))];
    // Facing forward nothing is hit; facing a quarter turn left the wall is.
    assert_eq!(scanner.scan(&Pose::default(), &walls).len(), 0);
    let left = Pose::new(v(0, 0), Angle::new(0, UNIT));
    let scan = scanner.scan(&left, &walls);
    assert_eq!(scan.len(), 1);
    assert_eq!(scan.get(0).distance, 4000);
}

#[test]
fn projection_of_forward_reading_round_trips() {
    for d in [0u64, 1, 7, 5000, 123_456_789] {
        let m = Measurement::new(Angle::zero(), d);
        assert_eq!(m.to_vector(&Pose::default()), v(0, d as i64));
    }
}

#[test]
fn projection_follows_pose_and_angle() {
    let pose = Pose::new(v(1000, 2000), Angle::new(0, UNIT));
    let m = Measurement::new(Angle::zero(), 300);
    assert_eq!(m.to_vector(&pose), v(700, 2000));
    let back = Measurement::new(Angle::new(-UNIT, 0), 300);
    assert_eq!(back.to_vector(&Pose::default()), v(0, -300));
}

#[test]
fn scan_to_pointcloud_keeps_order() {
    let mut scan = Scan::empty();
    scan.add(Measurement::new(Angle::zero(), 10));
    scan.add(Measurement::new(Angle::new(0, UNIT), 20));
    let cloud = scan.to_pointcloud(&Pose::default());
    assert_eq!(cloud.size(), 2);
    assert_eq!(cloud.get(0).pos, v(0, 10));
    assert_eq!(cloud.get(1).pos, v(-20, 0));
    let xs: Vec<i64> = cloud.iter().map(|p| p.pos.x).collect();
    assert_eq!(xs, vec![0, -20]);
}

#[test]
fn raycast_gives_three_fixed_points() {
    let cloud = raycast();
    assert_eq!(cloud.size(), 3);
    assert_eq!(cloud.get(0).pos, v(0, 0));
    assert_eq!(cloud.get(1).pos, v(3, 4));
    assert_eq!(cloud.get(2).pos, v(4, 5));
}
