//! Coordinator decisions: what to launch once the capability probe has
//! answered, and how the per-task outcomes reduce to the transfer's one
//! result.
//!
//! The coordinator's I/O — creating the destination file, spawning the
//! fetchers, joining them, deleting the file on failure — happens outside the
//! library and follows the decisions made here.

use vstd::prelude::*;
use crate::ByteInterval;
use crate::errors::DownloadError;
use crate::plan::{is_plan, plan, plan_args_ok};
use crate::probe::CapabilityResult;

verus! {

/// One transfer to perform: source URL, destination path, and how many
/// concurrent tasks to split a range-capable transfer into.
pub struct Downloader {
    /// The URL of the resource to fetch.
    pub url: String,
    /// The destination path of the output file.
    pub path: String,
    /// The requested task count; must be at least one.
    pub task_num: u64,
}

/// What the coordinator launches: one fetcher per interval, each sent with a
/// range header exactly when `use_range_header` holds.
pub struct LaunchPlan {
    /// Whether each fetcher attaches a range header for its interval.
    pub use_range_header: bool,
    /// The byte interval of each fetcher, in task order.
    pub intervals: Vec<ByteInterval>,
}

/// The shape the launch decision must take for a given capability and task
/// count: with range support, the planner's partition for `task_count` tasks,
/// each fetch carrying a range header; without it, exactly one fetcher over
/// the whole resource and no range header.
pub open spec fn launch_plan_ok(p: LaunchPlan, cap: CapabilityResult, task_count: int) -> bool {
    if cap.supports_ranges {
        &&& p.use_range_header
        &&& is_plan(p.intervals@, cap.total_length as int, task_count)
    } else {
        &&& !p.use_range_header
        &&& p.intervals@ == seq![
            ByteInterval::Bounded { start: 0u64, end: (cap.total_length - 1) as u64 },
        ]
    }
}

impl Downloader {
    /// Packs up one transfer request.
    pub fn new(url: String, path: String, task_num: u64) -> (r: Downloader)
        ensures
            r.url@ == url@,
            r.path@ == path@,
            r.task_num == task_num,
    {
        Downloader { url, path, task_num }
    }

    /// Decides what to launch for this request once the probe has answered.
    ///
    /// With range support the byte space is split into `task_num` planned
    /// intervals fetched with range headers; without it a single fetcher
    /// covers the whole resource and no range header is sent.
    pub fn launch_plan(&self, cap: &CapabilityResult) -> (r: LaunchPlan)
        requires
            cap.supports_ranges ==> plan_args_ok(cap.total_length as int, self.task_num as int),
            !cap.supports_ranges ==> cap.total_length >= 1,
        ensures
            launch_plan_ok(r, *cap, self.task_num as int),
            cap.supports_ranges ==> r.intervals@.len() == self.task_num,
            !cap.supports_ranges ==> r.intervals@.len() == 1,
    {
        if cap.supports_ranges {
            LaunchPlan { use_range_header: true, intervals: plan(cap.total_length, self.task_num) }
        } else {
            let mut intervals: Vec<ByteInterval> = Vec::new();
            intervals.push(ByteInterval::Bounded { start: 0, end: cap.total_length - 1 });
            proof {
                assert(intervals@ =~= seq![
                    ByteInterval::Bounded { start: 0u64, end: (cap.total_length - 1) as u64 },
                ]);
            }
            LaunchPlan { use_range_header: false, intervals }
        }
    }
}

/// The launch invariant: whichever branch the capability forced, the
/// intervals handed to the fetchers are pairwise disjoint and together cover
/// exactly the bytes `[0, total_length)`.
pub proof fn lemma_launch_plan_partition(p: LaunchPlan, cap: CapabilityResult, task_count: int)
    requires
        launch_plan_ok(p, cap, task_count),
        cap.supports_ranges ==> plan_args_ok(cap.total_length as int, task_count),
        !cap.supports_ranges ==> cap.total_length >= 1,
    ensures
        forall|i: int, j: int, b: int|
            0 <= i < p.intervals@.len() && 0 <= j < p.intervals@.len() && i != j ==> !(
            crate::plan::interval_covers(p.intervals@[i], b, cap.total_length as int)
                && crate::plan::interval_covers(p.intervals@[j], b, cap.total_length as int)),
        forall|i: int, b: int|
            0 <= i < p.intervals@.len() && crate::plan::interval_covers(
                p.intervals@[i],
                b,
                cap.total_length as int,
            ) ==> 0 <= b < cap.total_length,
        forall|b: int|
            0 <= b < cap.total_length ==> crate::plan::some_interval_covers(
                p.intervals@,
                b,
                cap.total_length as int,
            ),
{
    let total = cap.total_length as int;
    if cap.supports_ranges {
        crate::plan::lemma_plan_partition(p.intervals@, total, task_count);
    } else {
        assert forall|b: int| 0 <= b < total implies crate::plan::some_interval_covers(
            p.intervals@,
            b,
            total,
        ) by {
            assert(crate::plan::interval_covers(p.intervals@[0], b, total));
        }
    }
}

/// Whether `r` is the first failure in `outcomes`: some outcome equals `r`,
/// `r` is an error, and every outcome before it succeeded.
pub open spec fn is_first_failure(
    outcomes: Seq<Result<(), DownloadError>>,
    r: Result<(), DownloadError>,
) -> bool {
    exists|k: int|
        0 <= k < outcomes.len() && #[trigger] outcomes[k] == r && r is Err && forall|j: int|
            0 <= j < k ==> outcomes[j] is Ok
}

/// Reduces the fetchers' outcomes to the transfer's one result: success
/// exactly when every task succeeded, else the first error encountered.
pub fn reduce_outcomes(outcomes: &Vec<Result<(), DownloadError>>) -> (r: Result<
    (),
    DownloadError,
>)
    ensures
        r is Ok <==> forall|k: int| 0 <= k < outcomes@.len() ==> outcomes@[k] is Ok,
        r is Err ==> is_first_failure(outcomes@, r),
{
    let mut i: usize = 0;
    while i < outcomes.len()
        invariant
            0 <= i <= outcomes@.len(),
            forall|j: int| 0 <= j < i ==> outcomes@[j] is Ok,
        decreases outcomes@.len() - i,
    {
        match outcomes[i] {
            Result::Ok(()) => {},
            Result::Err(e) => {
                return Err(e);
            },
        }
        i = i + 1;
    }
    Ok(())
}

} // verus!
