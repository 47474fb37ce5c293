use vstd::prelude::*;

pub mod gridmap;

use crate::geometry::pose::Pose;
use crate::sensor::laserscanner::{projected_all, Scan};
use self::gridmap::{blank, lemma_accumulated_by_shape, GridMap};

verus! {

/// The perception step: it keeps the occupancy grid and the pose estimate,
/// and folds each new scan into the grid.
pub struct Controller {
    pub gridmap: GridMap,
    pub pose_estimate: Pose,
    /// Whether the grid is cleared before each scan is added, rather than
    /// kept across the whole run.
    pub clear_each_cycle: bool,
}

impl Controller {
    pub fn new(gridmap: GridMap, clear_each_cycle: bool) -> (r: Controller)
        ensures
            r.gridmap == gridmap,
            r.pose_estimate == Pose::default_spec(),
            r.clear_each_cycle == clear_each_cycle,
    {
        Controller { gridmap, pose_estimate: Pose::origin(), clear_each_cycle }
    }

    /// One perception step: take `pose` as the pose estimate, clear the grid
    /// if so configured, then record the world point of each reading of
    /// `scan`, seen from `pose`.
    pub fn cycle(&mut self, scan: &Scan, pose: &Pose)
        requires
            old(self).gridmap.wf(),
            pose.wf(),
            forall|i: int| 0 <= i < scan@.len() ==> (#[trigger] scan@[i]).wf(),
        ensures
            final(self).pose_estimate == *pose,
            final(self).clear_each_cycle == old(self).clear_each_cycle,
            final(self).gridmap.wf(),
            old(self).gridmap.same_shape(&final(self).gridmap),
            final(self).gridmap@ == old(self).gridmap.accumulated(
                if old(self).clear_each_cycle {
                    blank(old(self).gridmap@.len())
                } else {
                    old(self).gridmap@
                },
                projected_all(scan@, *pose),
            ),
    {
        self.pose_estimate = *pose;
        let ghost before = self.gridmap;
        if self.clear_each_cycle {
            self.gridmap.clear();
        }
        let ghost between = self.gridmap;
        self.gridmap.update(&self.pose_estimate, scan);
        proof {
            lemma_accumulated_by_shape(
                between,
                before,
                between@,
                projected_all(scan@, *pose),
            );
        }
    }
}

impl Default for Controller {
    fn default() -> (r: Controller)
        ensures
            r.gridmap.wf(),
            r.gridmap.grid_size() == gridmap::SIZE,
            r.gridmap@ == blank((gridmap::SIZE * gridmap::SIZE) as nat),
            r.pose_estimate == Pose::default_spec(),
            !r.clear_each_cycle,
    {
        Controller { gridmap: GridMap::default(), pose_estimate: Pose::origin(), clear_each_cycle: false }
    }
}

} // verus!
