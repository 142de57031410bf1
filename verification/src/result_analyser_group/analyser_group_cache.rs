//! Memoization cache for the group aggregates.

use vstd::prelude::*;

verus! {

/// One optional slot per aggregate. Every slot starts unset and is filled at
/// most once, by the first successful computation of its aggregate; a filled
/// slot is never cleared or overwritten, which is sound because the
/// underlying analysers are immutable.
#[derive(PartialEq, Debug)]
pub struct AnalyserGroupCache {
    pub total_distance: Option<u64>,
    pub average_distance: Option<u64>,
    pub average_speed: Option<u64>,
    pub pure_average_speed: Option<u64>,
    pub total_driving_time: Option<u64>,
    pub total_pure_driving_time: Option<u64>,
}

/// Slot-wise monotonicity: every slot that is set in `before` is still set to
/// the same value in `after`. This is the only transition a cache slot may
/// make: from unset to set, never back.
pub open spec fn cache_extends(before: AnalyserGroupCache, after: AnalyserGroupCache) -> bool {
    &&& (before.total_distance is Some ==> after.total_distance == before.total_distance)
    &&& (before.average_distance is Some ==> after.average_distance == before.average_distance)
    &&& (before.average_speed is Some ==> after.average_speed == before.average_speed)
    &&& (before.pure_average_speed is Some ==> after.pure_average_speed
        == before.pure_average_speed)
    &&& (before.total_driving_time is Some ==> after.total_driving_time
        == before.total_driving_time)
    &&& (before.total_pure_driving_time is Some ==> after.total_pure_driving_time
        == before.total_pure_driving_time)
}

impl AnalyserGroupCache {
    /// Every slot is unset.
    pub open spec fn all_unset(&self) -> bool {
        &&& self.total_distance is None
        &&& self.average_distance is None
        &&& self.average_speed is None
        &&& self.pure_average_speed is None
        &&& self.total_driving_time is None
        &&& self.total_pure_driving_time is None
    }

    /// A cache with every slot unset.
    pub fn new() -> (c: AnalyserGroupCache)
        ensures
            c.all_unset(),
    {
        AnalyserGroupCache {
            total_distance: None,
            average_distance: None,
            average_speed: None,
            pure_average_speed: None,
            total_driving_time: None,
            total_pure_driving_time: None,
        }
    }
}

} // verus!
