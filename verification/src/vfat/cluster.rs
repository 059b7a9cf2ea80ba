//! Cluster numbers.

use vstd::prelude::*;
use vstd::std_specs::convert::FromSpecImpl;

verus! {

/// The number of a cluster of the data region. The numbers 0 and 1 are
/// reserved: the first cluster of the data region has the number 2.
#[derive(Debug, Clone, Copy, PartialEq, Eq, Structural, Hash)]
pub struct Cluster(pub u32);

impl From<u32> for Cluster {
    fn from(raw_num: u32) -> (r: Cluster) {
        Cluster(raw_num)
    }
}

impl FromSpecImpl<u32> for Cluster {
    open spec fn obeys_from_spec() -> bool {
        true
    }

    open spec fn from_spec(raw_num: u32) -> Cluster {
        Cluster(raw_num)
    }
}

} // verus!
