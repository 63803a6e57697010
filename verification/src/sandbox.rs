//! What a sandbox may use of the machine.
use vstd::prelude::*;

verus! {

/// How far a sandbox is locked down.
#[derive(Debug, Clone, Copy, PartialEq, Eq, Structural)]
pub enum SandboxProfile {
    /// For the steps of a build, which install packages.
    Build,
    /// For running workloads.
    Runtime,
}

/// Limits on what a sandbox uses. A limit that is absent is enforced at its default.
#[derive(Debug, Clone, Copy, PartialEq, Eq)]
pub struct ResourceLimits {
    /// Memory in bytes.
    pub memory_bytes: Option<u64>,
    /// Processor time in microseconds per period.
    pub cpu_quota: Option<u64>,
    /// The period in microseconds.
    pub cpu_period: Option<u64>,
    /// How many processes there may be.
    pub pids_max: Option<u64>,
    /// Disk space in bytes.
    pub disk_bytes: Option<u64>,
}

impl DeepView for ResourceLimits {
    type V = ResourceLimits;

    open spec fn deep_view(&self) -> ResourceLimits {
        *self
    }
}

/// One gibibyte of memory, one core, 512 processes and two gibibytes of disk.
pub open spec fn default_limits() -> ResourceLimits {
    ResourceLimits {
        memory_bytes: Some(1_073_741_824),
        cpu_quota: Some(100_000),
        cpu_period: Some(100_000),
        pids_max: Some(512),
        disk_bytes: Some(2_147_483_648),
    }
}

impl Default for ResourceLimits {
    fn default() -> (r: Self)
        ensures
            r == default_limits(),
    {
        ResourceLimits {
            memory_bytes: Some(1_073_741_824),
            cpu_quota: Some(100_000),
            cpu_period: Some(100_000),
            pids_max: Some(512),
            disk_bytes: Some(2_147_483_648),
        }
    }
}

/// The limit that was asked for, or else the default.
pub open spec fn either(asked: Option<u64>, default: Option<u64>) -> Option<u64> {
    match asked {
        Some(n) => Some(n),
        None => default,
    }
}

/// The limits that a request brings, or the default ones where it brings none.
pub open spec fn limits_of(asked: Option<ResourceLimits>) -> ResourceLimits {
    match asked {
        None => default_limits(),
        Some(a) => a,
    }
}

/// The limits that a request brings, or the default ones.
pub fn limits_or_default(asked: Option<ResourceLimits>) -> (r: ResourceLimits)
    ensures
        r == limits_of(asked),
{
    match asked {
        None => ResourceLimits::default(),
        Some(a) => a,
    }
}

/// The limits that are enforced: each that is absent at its default.
pub open spec fn enforced(a: ResourceLimits) -> ResourceLimits {
    ResourceLimits {
        memory_bytes: either(a.memory_bytes, default_limits().memory_bytes),
        cpu_quota: either(a.cpu_quota, default_limits().cpu_quota),
        cpu_period: either(a.cpu_period, default_limits().cpu_period),
        pids_max: either(a.pids_max, default_limits().pids_max),
        disk_bytes: either(a.disk_bytes, default_limits().disk_bytes),
    }
}

/// The limit that was asked for, or else the default.
fn choose_limit(asked: Option<u64>, default: Option<u64>) -> (r: Option<u64>)
    ensures
        r == either(asked, default),
{
    match asked {
        Some(n) => Some(n),
        None => default,
    }
}

/// Fills in the limits that are absent.
pub fn enforced_limits(a: &ResourceLimits) -> (r: ResourceLimits)
    ensures
        r == enforced(*a),
        r.memory_bytes is Some && r.cpu_quota is Some && r.cpu_period is Some && r.pids_max is Some,
{
    let d = ResourceLimits::default();
    ResourceLimits {
        memory_bytes: choose_limit(a.memory_bytes, d.memory_bytes),
        cpu_quota: choose_limit(a.cpu_quota, d.cpu_quota),
        cpu_period: choose_limit(a.cpu_period, d.cpu_period),
        pids_max: choose_limit(a.pids_max, d.pids_max),
        disk_bytes: choose_limit(a.disk_bytes, d.disk_bytes),
    }
}

/// `n` times `unit`, or the largest number of 64 bits where that is more than they hold.
pub open spec fn saturated(n: u64, unit: u64) -> u64 {
    if n * unit > u64::MAX {
        u64::MAX
    } else {
        (n * unit) as u64
    }
}

/// The default limits with the cores, and the gibibytes of memory and disk, that a request names.
pub open spec fn sized_limits(
    cpu: Option<u64>,
    memory: Option<u64>,
    disk: Option<u64>,
) -> ResourceLimits {
    ResourceLimits {
        memory_bytes: match memory {
            Some(n) => Some(saturated(n, 1_073_741_824)),
            None => default_limits().memory_bytes,
        },
        cpu_quota: match cpu {
            Some(n) => Some(saturated(n, 100_000)),
            None => default_limits().cpu_quota,
        },
        cpu_period: Some(100_000),
        pids_max: default_limits().pids_max,
        disk_bytes: match disk {
            Some(n) => Some(saturated(n, 1_073_741_824)),
            None => default_limits().disk_bytes,
        },
    }
}

/// Multiplies, stopping at the largest number.
fn saturate(n: u64, unit: u64) -> (r: u64)
    ensures
        r == saturated(n, unit),
{
    match n.checked_mul(unit) {
        Some(m) => m,
        None => u64::MAX,
    }
}

/// The default limits with the sizes that a request names.
pub fn size_limits(cpu: Option<u64>, memory: Option<u64>, disk: Option<u64>) -> (r: ResourceLimits)
    ensures
        r == sized_limits(cpu, memory, disk),
{
    let mut r = ResourceLimits::default();
    if let Some(n) = cpu {
        r.cpu_period = Some(100_000);
        r.cpu_quota = Some(saturate(n, 100_000));
    }
    if let Some(n) = memory {
        r.memory_bytes = Some(saturate(n, 1_073_741_824));
    }
    if let Some(n) = disk {
        r.disk_bytes = Some(saturate(n, 1_073_741_824));
    }
    r
}

/// `n`, but at least one.
pub open spec fn at_least_one(n: nat) -> nat {
    if n < 1 {
        1
    } else {
        n
    }
}

/// The whole cores that the limits leave, at least one.
pub open spec fn cores(limits: ResourceLimits) -> nat {
    match (limits.cpu_quota, limits.cpu_period) {
        (Some(quota), Some(period)) => if period > 0 {
            at_least_one((quota / period) as nat)
        } else {
            1
        },
        _ => 1,
    }
}

/// The whole gibibytes in `bytes`, at least one; `absent` where there is no limit.
pub open spec fn gibibytes(bytes: Option<u64>, absent: nat) -> nat {
    match bytes {
        Some(n) => at_least_one((n / 1_073_741_824) as nat),
        None => absent,
    }
}

/// The whole cores that the limits leave.
pub fn sandbox_cpu_cores(resources: &ResourceLimits) -> (r: u64)
    ensures
        r == cores(*resources),
{
    match (resources.cpu_quota, resources.cpu_period) {
        (Some(quota), Some(period)) => {
            if period > 0 {
                let whole: u64 = quota / period;
                if whole < 1 {
                    1
                } else {
                    whole
                }
            } else {
                1
            }
        },
        _ => 1,
    }
}

/// The whole gibibytes in `bytes`.
fn count_gibibytes(bytes: Option<u64>, absent: u64) -> (r: u64)
    ensures
        r == gibibytes(bytes, absent as nat),
{
    match bytes {
        Some(n) => {
            let whole: u64 = n / 1_073_741_824;
            if whole < 1 {
                1
            } else {
                whole
            }
        },
        None => absent,
    }
}

/// The whole gibibytes of memory; one where there is no limit.
pub fn sandbox_memory_gib(resources: &ResourceLimits) -> (r: u64)
    ensures
        r == gibibytes(resources.memory_bytes, 1),
{
    count_gibibytes(resources.memory_bytes, 1)
}

/// The whole gibibytes of disk; two where there is no limit.
pub fn sandbox_disk_gib(resources: &ResourceLimits) -> (r: u64)
    ensures
        r == gibibytes(resources.disk_bytes, 2),
{
    count_gibibytes(resources.disk_bytes, 2)
}

/// A sandbox made with a number of cores and gibibytes shows those numbers, as far as the bytes
/// fit in 64 bits and each number is at least one.
pub proof fn law_sizes_are_shown(cpu: u64, memory: u64, disk: u64)
    requires
        cpu >= 1,
        memory >= 1,
        disk >= 1,
        cpu * 100_000 <= u64::MAX,
        memory * 1_073_741_824 <= u64::MAX,
        disk * 1_073_741_824 <= u64::MAX,
    ensures
        cores(sized_limits(Some(cpu), Some(memory), Some(disk))) == cpu,
        gibibytes(sized_limits(Some(cpu), Some(memory), Some(disk)).memory_bytes, 1) == memory,
        gibibytes(sized_limits(Some(cpu), Some(memory), Some(disk)).disk_bytes, 2) == disk,
{
}

/// The limits of a request are kept as they are; those that it leaves out are enforced at their
/// defaults, and a request without any brings the defaults.
pub proof fn law_asked_limits_are_kept(a: ResourceLimits)
    ensures
        limits_of(Some(a)) == a,
        limits_of(None) == default_limits(),
        ({
            let d = default_limits();
            let e = enforced(a);
            &&& a.memory_bytes is Some ==> e.memory_bytes == a.memory_bytes
            &&& a.memory_bytes is None ==> e.memory_bytes == d.memory_bytes
            &&& a.cpu_quota is Some ==> e.cpu_quota == a.cpu_quota
            &&& a.cpu_quota is None ==> e.cpu_quota == d.cpu_quota
            &&& a.cpu_period is Some ==> e.cpu_period == a.cpu_period
            &&& a.cpu_period is None ==> e.cpu_period == d.cpu_period
            &&& a.pids_max is Some ==> e.pids_max == a.pids_max
            &&& a.pids_max is None ==> e.pids_max == d.pids_max
            &&& a.disk_bytes is Some ==> e.disk_bytes == a.disk_bytes
            &&& a.disk_bytes is None ==> e.disk_bytes == d.disk_bytes
        }),
        default_limits() == (ResourceLimits {
            memory_bytes: Some(1_073_741_824),
            cpu_quota: Some(100_000),
            cpu_period: Some(100_000),
            pids_max: Some(512),
            disk_bytes: Some(2_147_483_648),
        }),
{
}

/// A size that a request leaves out keeps its default, and one that is too large for 64 bits stands
/// for the largest number; the share of the processor is counted in periods of a tenth of a second.
pub proof fn law_sizes_fall_back(
    cpu: Option<u64>,
    memory: Option<u64>,
    disk: Option<u64>,
)
    ensures
        ({
            let r = sized_limits(cpu, memory, disk);
            let d = default_limits();
            &&& cpu is None ==> r.cpu_quota == d.cpu_quota
            &&& memory is None ==> r.memory_bytes == d.memory_bytes
            &&& disk is None ==> r.disk_bytes == d.disk_bytes
            &&& cpu matches Some(n) ==> r.cpu_quota == Some(
                if n <= u64::MAX / 100_000 {
                    (n * 100_000) as u64
                } else {
                    u64::MAX
                },
            )
            &&& memory matches Some(n) ==> r.memory_bytes == Some(
                if n < 17_179_869_184 {
                    (n * 1_073_741_824) as u64
                } else {
                    u64::MAX
                },
            )
            &&& disk matches Some(n) ==> r.disk_bytes == Some(
                if n < 17_179_869_184 {
                    (n * 1_073_741_824) as u64
                } else {
                    u64::MAX
                },
            )
            &&& r.cpu_period == Some(100_000u64)
            &&& r.pids_max == d.pids_max
        }),
{
}

/// The sizes that are shown are rounded down to whole ones, but never below one.
pub proof fn law_shown_sizes_are_whole(limits: ResourceLimits, n: u64)
    ensures
        limits.cpu_quota is None || limits.cpu_period is None || limits.cpu_period == Some(0u64)
            ==> cores(limits) == 1,
        (limits.cpu_quota matches Some(q) && limits.cpu_period matches Some(p) && p > 0 && n * p <= q < (n
            + 1) * p) ==> cores(limits) == if n == 0 {
            1
        } else {
            n as nat
        },
        forall|bytes: u64, absent: nat|
            n * 1_073_741_824 <= bytes < (n + 1) * 1_073_741_824 ==> #[trigger] gibibytes(
                Some(bytes),
                absent,
            ) == if n == 0 {
                1
            } else {
                n as nat
            },
        gibibytes(None, 1) == 1,
        gibibytes(None, 2) == 2,
{
    if let (Some(q), Some(p)) = (limits.cpu_quota, limits.cpu_period) {
        if p > 0 && n * p <= q < (n + 1) * p {
            assert(q / p == n) by (nonlinear_arith)
                requires
                    p > 0,
                    n * p <= q < (n + 1) * p,
            ;
        }
    }
}

} // verus!
