//! The replication policy of the switchboard.

use vstd::prelude::*;

verus! {

/// Which agents of a space are to hold an entry.
#[derive(Clone, Copy, Debug, PartialEq, Eq, Structural)]
pub enum DhtAlgorithm {
    /// Every agent holds every entry.
    FullSync,
    /// An entry is held by the `redundant_count` agents nearest to it on the
    /// ring.
    NaiveSharding { redundant_count: u64 },
}

} // verus!
