use vstd::prelude::*;

use crate::geometry::pose::Pose;
use super::laserscanner::LaserScanner;

verus! {

/// The simulated robot: where it stands and the scanner it carries.
pub struct Robot {
    pub pose: Pose,
    pub laser_scanner: LaserScanner,
}

} // verus!
