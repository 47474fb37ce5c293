//! A simulated mobile robot with a rotating range sensor in a world of
//! straight walls, and the occupancy grid that its scans build.
//!
//! All arithmetic is exact integer arithmetic. World coordinates are whole
//! millimetres. An angle is held as its cosine and sine in fixed point (see
//! `math::Angle`); results that are not whole numbers are rounded down.

pub mod controller;
pub mod geometry;
pub mod math;
pub mod pointcloud;
pub mod sensor;
pub mod simulation;
