//! Verified core of a concurrent, range-aware file downloader.
//!
//! The library holds the logic of the transfer: probing a server's range
//! capability from response metadata, partitioning the byte space into
//! disjoint intervals, deciding how many fetchers to launch and with which
//! request headers, tracking each fetcher's running write offset, and
//! aggregating per-task outcomes into one result. The asynchronous network
//! and file I/O that surrounds this logic lives outside the library.

use vstd::prelude::*;

pub mod cli;
pub mod errors;
pub mod fetch;
pub mod glue;
pub mod model;
pub mod plan;
pub mod probe;
pub mod run;

verus! {

/// One byte interval of the partitioned resource.
///
/// `Bounded` is the closed interval `[start, end]`; `OpenEnded` runs from
/// `start` through the end of the resource and is used only for the final
/// interval of a partition, absorbing any remainder of the integer division.
#[derive(Clone, Copy, Debug, PartialEq, Eq, Structural)]
pub enum ByteInterval {
    Bounded { start: u64, end: u64 },
    OpenEnded { start: u64 },
}

} // verus!
