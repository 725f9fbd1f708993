//! How many archives are processed at the same time.
//!
//! Two guards cap what was asked for: twice the number of CPU cores, since
//! parsing is bound by the CPU while downloads are not; and, where archives
//! are held in memory, the memory that is available.

use vstd::prelude::*;

verus! {

/// The most memory that one archive is taken to need: 1 GiB.
pub const MAX_ARCHIVE_SIZE: u64 = 1_073_741_824;

/// The number of concurrent jobs, after each guard.
#[derive(Debug, Clone, Copy, PartialEq, Eq, Structural)]
pub struct JobPlan {
    /// Jobs that the CPU cores allow.
    pub capped: usize,
    /// Jobs that the CPU cores and the memory allow.
    pub effective: usize,
}

/// The lesser of two numbers.
pub open spec fn lesser(a: usize, b: usize) -> usize {
    if b < a {
        b
    } else {
        a
    }
}

/// How many archives fit in memory at a time; one is always tried.
pub open spec fn memory_jobs(available: u64) -> usize {
    (if available / MAX_ARCHIVE_SIZE < 1 {
        1u64
    } else {
        (available / MAX_ARCHIVE_SIZE) as u64
    }) as usize
}

/// The jobs that the CPU cores allow.
pub open spec fn jobs_for_cores(requested: usize, cpu_cores: usize) -> usize {
    lesser(requested, (cpu_cores * 2) as usize)
}

/// The jobs that the memory allows. Without streaming, or where the available
/// memory is not known, memory is no limit.
pub open spec fn jobs_for_memory(
    jobs: usize,
    stream_enabled: bool,
    available: Option<u64>,
) -> usize {
    match available {
        Some(bytes) => if stream_enabled {
            lesser(jobs, memory_jobs(bytes))
        } else {
            jobs
        },
        None => jobs,
    }
}

/// The number of jobs for a number of CPU cores that may not be known.
pub open spec fn jobs_for_machine(cores: Option<usize>) -> usize {
    match cores {
        Some(n) => n,
        None => 1,
    }
}

/// The number of jobs where none was asked for: one for each CPU core, and one
/// where the number of cores is not known.
pub fn jobs_or_one(cores: Option<usize>) -> (r: usize)
    ensures
        r == match cores {
            Some(n) => n,
            None => 1,
        },
        r == jobs_for_machine(cores),
{
    match cores {
        Some(n) => n,
        None => 1,
    }
}

/// Caps the requested jobs at twice the number of CPU cores.
pub fn cap_to_cores(requested: usize, cpu_cores: usize) -> (r: usize)
    requires
        cpu_cores * 2 <= usize::MAX,
    ensures
        r == jobs_for_cores(requested, cpu_cores),
{
    let max_jobs: usize = cpu_cores * 2;
    if requested > max_jobs {
        max_jobs
    } else {
        requested
    }
}

/// Caps jobs that hold whole archives at what fits into the available memory.
pub fn cap_to_memory(jobs: usize, available: u64) -> (r: usize)
    ensures
        r == lesser(jobs, memory_jobs(available)),
{
    let fitting: u64 = available / MAX_ARCHIVE_SIZE;
    let max_jobs: usize = (if fitting < 1 {
        1u64
    } else {
        fitting
    }) as usize;
    if max_jobs < jobs {
        max_jobs
    } else {
        jobs
    }
}

/// The number of concurrent jobs, given what was asked for, the CPU cores,
/// whether archives are held in memory, and the memory that is available, if
/// it is known.
pub fn plan_jobs(
    requested: usize,
    cpu_cores: usize,
    stream_enabled: bool,
    available: Option<u64>,
) -> (r: JobPlan)
    requires
        cpu_cores * 2 <= usize::MAX,
    ensures
        r.capped == jobs_for_cores(requested, cpu_cores),
        r.effective == jobs_for_memory(r.capped, stream_enabled, available),
{
    let capped: usize = cap_to_cores(requested, cpu_cores);
    let effective: usize = if stream_enabled {
        match available {
            Some(bytes) => cap_to_memory(capped, bytes),
            None => capped,
        }
    } else {
        capped
    };
    JobPlan { capped, effective }
}

/// The guards only ever lower the number of jobs, and never below one where at
/// least one was asked for.
pub proof fn guards_only_lower_jobs(
    requested: usize,
    cpu_cores: usize,
    stream_enabled: bool,
    available: Option<u64>,
)
    requires
        cpu_cores * 2 <= usize::MAX,
        available matches Some(bytes) ==> bytes / MAX_ARCHIVE_SIZE <= usize::MAX,
    ensures
        ({
            let capped = jobs_for_cores(requested, cpu_cores);
            let effective = jobs_for_memory(capped, stream_enabled, available);
            &&& effective <= capped <= requested
            &&& capped <= cpu_cores * 2
            &&& requested >= 1 && cpu_cores >= 1 ==> effective >= 1
        }),
{
}

/// Archives held in memory fit into it: either a single job runs, or all jobs
/// together need no more than is available.
pub proof fn streamed_archives_fit_in_memory(jobs: usize, available: u64)
    requires
        available / MAX_ARCHIVE_SIZE <= usize::MAX,
    ensures
        ({
            let effective = jobs_for_memory(jobs, true, Some(available));
            effective <= 1 || effective * MAX_ARCHIVE_SIZE <= available
        }),
{
}

/// Without streaming, memory is no limit.
pub proof fn disk_mode_ignores_memory(jobs: usize, available: Option<u64>)
    ensures
        jobs_for_memory(jobs, false, available) == jobs,
{
}

/// The CPU cores allow the lesser of what was asked for and twice their number.
pub proof fn cores_allow_the_lesser(requested: usize, cpu_cores: usize)
    requires
        cpu_cores * 2 <= usize::MAX,
    ensures
        jobs_for_cores(requested, cpu_cores) <= requested,
        jobs_for_cores(requested, cpu_cores) <= cpu_cores + cpu_cores,
        jobs_for_cores(requested, cpu_cores) == requested || jobs_for_cores(requested, cpu_cores)
            == cpu_cores + cpu_cores,
{
}

/// With streaming, as many archives of a gibibyte each run as fit into the
/// available memory and are asked for, but one where not even one fits.
pub proof fn memory_allows_what_fits(jobs: usize, available: u64)
    requires
        available / 1_073_741_824 <= usize::MAX,
    ensures
        ({
            let r = jobs_for_memory(jobs, true, Some(available));
            &&& r <= jobs
            &&& r <= 1 || r * 1_073_741_824 <= available
            &&& r < jobs ==> r >= 1 && (r + 1) * 1_073_741_824 > available
        }),
{
}

/// Memory that is not known is no limit.
pub proof fn unknown_memory_is_no_limit(jobs: usize, stream_enabled: bool)
    ensures
        jobs_for_memory(jobs, stream_enabled, None) == jobs,
{
}

/// A machine gets as many jobs as it has cores, and one where that is not
/// known, for any number of cores.
pub proof fn machine_gets_a_job_for_each_core(n: usize)
    ensures
        jobs_for_machine(Some(n)) == n,
        jobs_for_machine(None) == 1,
{
}

} // verus!
