//! Configuration: attribute thresholds and the presentation markers.

use vstd::prelude::*;

verus! {

/// One configured attribute: its name and the score above which it is
/// rejected. Scores and thresholds are in thousandths (900 means 0.900).
pub struct ThresholdEntry {
    pub name: String,
    pub threshold: u32,
}

/// The six presentation markers: one plain marker per class, and a
/// distinguished marker for the highest and the lowest entry of each class.
pub struct Markers {
    pub passed: String,
    pub failed: String,
    pub passed_highest: String,
    pub passed_lowest: String,
    pub failed_highest: String,
    pub failed_lowest: String,
}

impl Markers {
    /// The six markers are pairwise distinct, so that a marker on a report
    /// line identifies the entry's class and rank without ambiguity.
    pub open spec fn wf(self) -> bool {
        &&& self.passed@ != self.failed@
        &&& self.passed@ != self.passed_highest@
        &&& self.passed@ != self.passed_lowest@
        &&& self.passed@ != self.failed_highest@
        &&& self.passed@ != self.failed_lowest@
        &&& self.failed@ != self.passed_highest@
        &&& self.failed@ != self.passed_lowest@
        &&& self.failed@ != self.failed_highest@
        &&& self.failed@ != self.failed_lowest@
        &&& self.passed_highest@ != self.passed_lowest@
        &&& self.passed_highest@ != self.failed_highest@
        &&& self.passed_highest@ != self.failed_lowest@
        &&& self.passed_lowest@ != self.failed_highest@
        &&& self.passed_lowest@ != self.failed_lowest@
        &&& self.failed_highest@ != self.failed_lowest@
    }
}

/// The whole configuration: thresholds by attribute name, and the markers.
/// Immutable after load; the application constructs it once at startup.
pub struct Config {
    pub thresholds: Vec<ThresholdEntry>,
    pub markers: Markers,
}

impl Config {
    /// The threshold mapping the configuration denotes. When a name is listed
    /// more than once, the last listing wins, as the lookup does.
    pub open spec fn thr_map(self) -> Map<Seq<char>, u32> {
        map_of(self.thresholds@)
    }

    pub open spec fn wf(self) -> bool {
        self.markers.wf()
    }

    /// The configured threshold for `name`, or `None` when the attribute is
    /// not configured.
    pub fn lookup_threshold(&self, name: &String) -> (r: Option<u32>)
        ensures
            r matches Some(t) ==> self.thr_map().contains_key(name@) && t == self.thr_map()[name@],
            r is None ==> !self.thr_map().contains_key(name@),
    {
        let mut found: Option<u32> = None;
        let n = self.thresholds.len();
        let mut i: usize = 0;
        while i < n
            invariant
                n == self.thresholds@.len(),
                i <= n,
                found matches Some(t) ==> map_of(self.thresholds@.take(i as int)).contains_key(
                    name@,
                ) && t == map_of(self.thresholds@.take(i as int))[name@],
                found is None ==> !map_of(self.thresholds@.take(i as int)).contains_key(name@),
            decreases n - i,
        {
            proof {
                assert(self.thresholds@.take(i + 1).drop_last() =~= self.thresholds@.take(i as int));
            }
            if self.thresholds[i].name == *name {
                found = Some(self.thresholds[i].threshold);
            }
            i = i + 1;
        }
        proof {
            assert(self.thresholds@.take(n as int) =~= self.thresholds@);
        }
        found
    }
}

/// The mapping a threshold list denotes: later entries override earlier ones.
pub open spec fn map_of(s: Seq<ThresholdEntry>) -> Map<Seq<char>, u32>
    decreases s.len(),
{
    if s.len() == 0 {
        Map::empty()
    } else {
        map_of(s.drop_last()).insert(s.last().name@, s.last().threshold)
    }
}

} // verus!
