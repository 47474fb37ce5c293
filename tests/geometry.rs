use vacuum_sim::geometry::line::Line;
use vacuum_sim::geometry::point::Point;
use vacuum_sim::geometry::pose::Pose;
use vacuum_sim::geometry::ray::Ray;
use vacuum_sim::geometry::target::Target;
use vacuum_sim::geometry::vector::Vector;
use vacuum_sim::math::{isqrt, div_floor, Angle, UNIT};

fn v(x: i64, y: i64) -> Vector {
    Vector::new(x, y)
}

#[test]
fn ray_meets_vertical_segment_at_exact_point() {
    let ray = Ray::new(v(0, 0), v(1, 0));
    let wall = Line::new(v(5, -1), v(5, 1));
    let hits = wall.intersect(&ray);
    assert_eq!(hits, vec![Point::new(5, 0)]);
}

#[test]
fn parallel_ray_misses_overlapping_segment() {
    let ray = Ray::new(v(0, 0), v(1, 0));
    let along = Line::new(v(2, 0), v(8, 0));
    assert!(along.intersect(&ray).is_empty());
    let beside = Line::new(v(2, 3), v(8, 3));
    assert!(beside.intersect(&ray).is_empty());
}

#[test]
fn segment_behind_ray_is_missed() {
    let ray = Ray::new(v(0, 0), v(1, 0));
    let wall = Line::new(v(-5, -1), v(-5, 1));
    assert!(wall.intersect(&ray).is_empty());
}

#[test]
fn segment_off_to_the_side_is_missed() {
    let ray = Ray::new(v(0, 0), v(1, 0));
    let wall = Line::new(v(5, 1), v(5, 3));
    assert!(wall.intersect(&ray).is_empty());
}

#[test]
fn segment_endpoints_count_as_hits() {
    let ray = Ray::new(v(0, 0), v(1, 0));
    let from_start = Line::new(v(5, 0), v(5, 4));
    assert_eq!(from_start.intersect(&ray), vec![Point::new(5, 0)]);
    let to_end = Line::new(v(7, -4), v(7, 0));
    assert_eq!(to_end.intersect(&ray), vec![Point::new(7, 0)]);
}

#[test]
fn hit_point_is_rounded_down() {
    // The ray y = x / 2 meets the wall x = 3 at y = 1.5.
    let ray = Ray::new(v(0, 0), v(2, 1));
    let wall = Line::new(v(3, -10), v(3, 10));
    assert_eq!(wall.intersect(&ray), vec![Point::new(3, 1)]);
    // and y = -1.5 rounds down to -2.
    let down = Ray::new(v(0, 0), v(2, -1));
    assert_eq!(wall.intersect(&down), vec![Point::new(3, -2)]);
}

#[test]
fn vector_arithmetic() {
    let a = v(3, 4);
    let b = v(-1, 2);
    assert_eq!(a.add(b), v(2, 6));
    assert_eq!(a.sub(b), v(4, 2));
    assert_eq!(a.mul(3), v(9, 12));
    assert_eq!(a.dot(b), 5);
    assert_eq!(a.cross(b), 10);
    assert_eq!(b.cross(a), -10);
}

#[test]
fn vector_length_is_rounded_down() {
    assert_eq!(v(3, 4).length(), 5);
    assert_eq!(v(1, 1).length(), 1);
    assert_eq!(v(0, 0).length(), 0);
    assert_eq!(v(-6, 8).length(), 10);
    assert_eq!(Point::new(5, 12).distance(), 13);
}

#[test]
fn integer_square_root() {
    assert_eq!(isqrt(0), 0);
    assert_eq!(isqrt(15), 3);
    assert_eq!(isqrt(16), 4);
    assert_eq!(isqrt(u128::MAX), u64::MAX);
}

#[test]
fn floor_division_rounds_towards_minus_infinity() {
    assert_eq!(div_floor(7, 2), 3);
    assert_eq!(div_floor(-7, 2), -4);
    assert_eq!(div_floor(-8, 2), -4);
    assert_eq!(div_floor(0, 5), 0);
}

#[test]
fn angle_zero_faces_forward() {
    let zero = Angle::zero();
    assert_eq!(Vector::from_angle(zero), v(0, UNIT));
    let quarter = Angle::new(0, UNIT);
    assert_eq!(Vector::from_angle(quarter), v(-UNIT, 0));
    let ray = Ray::from_angle(v(1, 2), zero);
    assert_eq!(ray.origin, v(1, 2));
    assert_eq!(ray.direction, v(0, UNIT));
}

#[test]
fn rotation_is_counter_clockwise() {
    let quarter = Angle::new(0, UNIT);
    assert_eq!(v(10, 0).rotate(quarter), v(0, 10));
    assert_eq!(v(0, 10).rotate(quarter), v(-10, 0));
    let half = Angle::new(-UNIT, 0);
    assert_eq!(v(3, -7).rotate(half), v(-3, 7));
}

#[test]
fn pose_direction_turns_with_heading() {
    let pose = Pose::new(v(0, 0), Angle::new(0, UNIT));
    // Facing a quarter turn left, angle zero points along -x.
    assert_eq!(pose.direction(Angle::zero()), v(-UNIT, 0));
    assert_eq!(Pose::default(), Pose::new(v(0, 0), Angle::zero()));
}

#[test]
fn vector_angle_in_fixed_point() {
    assert_eq!(v(0, 5).angle(), Angle::zero());
    assert_eq!(v(-3, 0).angle(), Angle::new(0, UNIT));
    assert_eq!(v(0, -2).angle(), Angle::new(-UNIT, 0));
    assert_eq!(v(3, 4).angle(), Angle::new(52428, -39322));
    assert_eq!(v(0, 0).angle(), Angle::zero());
    let quarter = Angle::new(0, UNIT);
    assert_eq!(Vector::from_angle(quarter).angle(), quarter);
}
