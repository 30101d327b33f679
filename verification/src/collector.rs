//! Host-process collection logic: platform CPU normalization, memory sanity
//! checks, browser-family process discovery and classification, CPU% derived
//! from cumulative CPU-time deltas, and assembly of per-process samples.
//!
//! OS process enumeration and the protocol socket exchanges live outside the
//! library; every decision about the numbers they produce is made here.

use vstd::prelude::*;
use vstd::string::StringSliceAdditionalSpecFns;
use crate::models::{
    MetricPoint, ProcKind, ProcessInfo, VIRTUAL_PID_BASE, MAX_CPU_MILLI, spec_clamp_cpu,
    spec_clamp_mem, clamp_cpu, clamp_mem,
};
use crate::cdp::BrowserProcessInfo;
use crate::text::{lower_byte, lower_bytes, contains_bytes, spec_contains_bytes};

verus! {

/// Hard sanity ceiling for a single process's memory footprint: one TB.
pub const ONE_TB: u64 = 0x100_0000_0000;

/// The platform the collector runs on.
#[derive(Clone, Copy, Debug, PartialEq, Eq, Structural)]
pub enum Platform {
    Windows,
    MacOs,
    Linux,
    Other,
}

/// The single switch for CPU normalization, resolved once at startup.
#[derive(Clone, Copy, Debug, PartialEq, Eq, Structural)]
pub struct CpuNormPolicy {
    pub divide_by_logical_cores: bool,
}

/// The CPU normalization each platform's native task manager convention asks
/// for. Windows Task Manager shows 0-100% of total CPU capacity, so raw
/// per-core-summed readings are divided by the logical core count there;
/// macOS Activity Monitor (and typical Linux tools) show per-core-summed
/// percentages that may exceed 100%, so readings pass through unmodified.
/// Matching the native task manager is the design goal of this policy.
pub fn policy_for_platform(p: Platform) -> (r: CpuNormPolicy)
    ensures
        r.divide_by_logical_cores == (p is Windows),
{
    CpuNormPolicy { divide_by_logical_cores: matches!(p, Platform::Windows) }
}

/// A raw OS CPU reading normalized per the platform policy.
pub open spec fn spec_norm_cpu(raw_milli: u64, cores: u64, policy: CpuNormPolicy) -> int {
    if policy.divide_by_logical_cores {
        raw_milli as int / cores as int
    } else {
        raw_milli as int
    }
}

pub fn os_cpu_pct_for_task_manager(raw_milli: u64, logical_cores: u64, policy: CpuNormPolicy) -> (r:
    u64)
    requires
        logical_cores >= 1,
    ensures
        r as int == spec_norm_cpu(raw_milli, logical_cores, policy),
{
    if policy.divide_by_logical_cores {
        proof {
            vstd::arithmetic::div_mod::lemma_div_is_ordered(
                0,
                raw_milli as int,
                logical_cores as int,
            );
            vstd::arithmetic::div_mod::lemma_div_nonincreasing(
                raw_milli as int,
                logical_cores as int,
            );
        }
        raw_milli / logical_cores
    } else {
        raw_milli
    }
}

/// A resident-set reading sanity-checked against total system memory: only
/// when it implausibly exceeds total memory by 4x is it reinterpreted as
/// kibibytes (and only if that reading is plausible); otherwise it passes
/// through unmodified.
pub open spec fn spec_sanitize_rss(raw: u64, total: u64) -> u64 {
    if total > 0 && raw > 4 * total {
        if raw as int / 1024 <= 4 * total {
            (raw / 1024) as u64
        } else {
            raw
        }
    } else {
        raw
    }
}

pub fn sanitize_rss(raw: u64, total: u64) -> (r: u64)
    ensures
        r == spec_sanitize_rss(raw, total),
{
    let t4: u128 = 4 * (total as u128);
    if total > 0 && (raw as u128) > t4 {
        let kib = raw / 1024;
        if (kib as u128) <= t4 {
            kib
        } else {
            raw
        }
    } else {
        raw
    }
}

/// The browser-aligned footprint figure, with fallback: the platform's
/// "physical footprint" when plausible (positive, under the 1 TB ceiling and
/// at most 2x total memory when total memory is known); else the coarser
/// resident figure from the same query when that is plausible; else nothing.
/// The boolean reports that the fallback was taken, so the caller can log it.
pub open spec fn spec_select_footprint(phys: u64, resident: u64, total: u64) -> Option<(u64, bool)> {
    let phys_plausible = phys > 0 && phys < ONE_TB && (total == 0 || phys <= 2 * total);
    if phys_plausible {
        Some((phys, false))
    } else if resident > 0 && resident < ONE_TB {
        Some((resident, true))
    } else {
        None
    }
}

pub fn select_footprint(phys: u64, resident: u64, total: u64) -> (r: Option<(u64, bool)>)
    ensures
        r == spec_select_footprint(phys, resident, total),
{
    let phys_plausible = phys > 0 && phys < ONE_TB && (total == 0 || (phys as u128) <= 2 * (
    total as u128));
    if phys_plausible {
        Some((phys, false))
    } else if resident > 0 && resident < ONE_TB {
        Some((resident, true))
    } else {
        None
    }
}

// ---------------------------------------------------------------------------
// CPU% from cumulative CPU-time deltas
// ---------------------------------------------------------------------------

/// The CPU percentage implied by a cumulative CPU-time delta over a
/// wall-clock delta, normalized by the logical core count, clamped at zero
/// when the counter went backwards and at the representable ceiling.
/// `None` when there is no previous observation or no time has passed.
pub open spec fn spec_cpu_pct_from_delta(
    prev: Option<(u64, u64)>,
    cpu_time_ms: u64,
    now_ms: u64,
    cores: u64,
) -> Option<u64> {
    match prev {
        None => None,
        Some((pt, pw)) => if now_ms > pw {
            if cpu_time_ms >= pt {
                let q = (cpu_time_ms - pt) * 100_000 / ((now_ms - pw) * (cores as int));
                Some(
                    if q > MAX_CPU_MILLI {
                        MAX_CPU_MILLI
                    } else {
                        q as u64
                    },
                )
            } else {
                Some(0)
            }
        } else {
            None
        },
    }
}

/// Per-process `(cumulative CPU-time ms, wall-clock ms)` of the previous
/// observation, for computing CPU% from deltas. Owned by one collector
/// instance; created at session start and dropped at session end.
pub struct CpuTimeTracker {
    pub entries: Vec<(u32, u64, u64)>,
}

/// First entry for a process id.
pub open spec fn spec_tracker_find(s: Seq<(u32, u64, u64)>, pid: u32) -> Option<(u64, u64)>
    decreases s.len(),
{
    if s.len() == 0 {
        None
    } else if s[0].0 == pid {
        Some((s[0].1, s[0].2))
    } else {
        spec_tracker_find(s.drop_first(), pid)
    }
}

proof fn lemma_tracker_find_at(s: Seq<(u32, u64, u64)>, pid: u32, k: int)
    requires
        0 <= k < s.len(),
        s[k].0 == pid,
        forall|t: int| 0 <= t < k ==> (#[trigger] s[t]).0 != pid,
    ensures
        spec_tracker_find(s, pid) == Some((s[k].1, s[k].2)),
    decreases k,
{
    if k > 0 {
        assert(s.drop_first()[k - 1] == s[k]);
        assert(forall|t: int| 0 <= t < k - 1 ==> (#[trigger] s.drop_first()[t]).0 != pid);
        lemma_tracker_find_at(s.drop_first(), pid, k - 1);
    }
}

proof fn lemma_tracker_find_none(s: Seq<(u32, u64, u64)>, pid: u32)
    requires
        forall|t: int| 0 <= t < s.len() ==> (#[trigger] s[t]).0 != pid,
    ensures
        spec_tracker_find(s, pid) is None,
    decreases s.len(),
{
    if s.len() > 0 {
        assert(forall|t: int| 0 <= t < s.drop_first().len() ==> (#[trigger] s.drop_first()[t]).0
            != pid);
        lemma_tracker_find_none(s.drop_first(), pid);
    }
}

proof fn lemma_tracker_find_update(s: Seq<(u32, u64, u64)>, k: int, x: (u32, u64, u64), pid: u32)
    requires
        0 <= k < s.len(),
        s[k].0 == x.0,
    ensures
        spec_tracker_find(s.update(k, x), pid) == (if pid == x.0 && (forall|t: int|
            0 <= t < k ==> (#[trigger] s[t]).0 != pid) {
            Some((x.1, x.2))
        } else {
            spec_tracker_find(s, pid)
        }),
    decreases s.len(),
{
    if s.len() > 0 {
        if k == 0 {
            assert(s.update(0, x)[0] == x);
            assert(s.update(0, x).drop_first() =~= s.drop_first());
        } else {
            assert(s.update(k, x)[0] == s[0]);
            assert(s.update(k, x).drop_first() =~= s.drop_first().update(k - 1, x));
            lemma_tracker_find_update(s.drop_first(), k - 1, x, pid);
            assert(forall|t: int|
                0 <= t < k - 1 ==> (#[trigger] s.drop_first()[t]) == s[t + 1]);
            if s[0].0 == pid {
            } else {
                assert((forall|t: int| 0 <= t < k - 1 ==> (#[trigger] s.drop_first()[t]).0 != pid)
                    == (forall|t: int| 0 <= t < k ==> (#[trigger] s[t]).0 != pid)) by {
                    if forall|t: int| 0 <= t < k - 1 ==> (#[trigger] s.drop_first()[t]).0 != pid {
                        assert forall|t: int| 0 <= t < k implies (#[trigger] s[t]).0 != pid by {
                            if t > 0 {
                                assert(s.drop_first()[t - 1] == s[t]);
                            }
                        }
                    }
                }
            }
        }
    }
}

proof fn lemma_tracker_find_push(s: Seq<(u32, u64, u64)>, x: (u32, u64, u64), pid: u32)
    requires
        pid != x.0,
    ensures
        spec_tracker_find(s.push(x), pid) == spec_tracker_find(s, pid),
    decreases s.len(),
{
    if s.len() == 0 {
        assert(s.push(x)[0] == x);
        assert(s.push(x).drop_first() =~= Seq::<(u32, u64, u64)>::empty());
        assert(spec_tracker_find(Seq::<(u32, u64, u64)>::empty(), pid) is None);
        assert(spec_tracker_find(s.push(x), pid) is None);
    } else {
        assert(s.push(x)[0] == s[0]);
        assert(s.push(x).drop_first() =~= s.drop_first().push(x));
        lemma_tracker_find_push(s.drop_first(), x, pid);
    }
}

impl CpuTimeTracker {
    /// Unique process ids.
    pub open spec fn wf(self) -> bool {
        forall|i: int, j: int|
            0 <= i < j < self.entries@.len() ==> (#[trigger] self.entries@[i]).0
                != (#[trigger] self.entries@[j]).0
    }

    pub fn new() -> (r: CpuTimeTracker)
        ensures
            r.wf(),
            r.entries@.len() == 0,
    {
        CpuTimeTracker { entries: Vec::new() }
    }

    /// Record one observation and return the CPU% it implies against the
    /// previous one. The new observation is stored unconditionally, even when
    /// no previous entry existed (the first tick yields state, no percent).
    pub fn observe(&mut self, pid: u32, cpu_time_ms: u64, now_ms: u64, cores: u64) -> (r: Option<
        u64,
    >)
        requires
            old(self).wf(),
            cores >= 1,
        ensures
            final(self).wf(),
            r == spec_cpu_pct_from_delta(
                spec_tracker_find(old(self).entries@, pid),
                cpu_time_ms,
                now_ms,
                cores,
            ),
            spec_tracker_find(final(self).entries@, pid) == Some((cpu_time_ms, now_ms)),
            forall|q: u32|
                q != pid ==> spec_tracker_find(final(self).entries@, q) == spec_tracker_find(
                    old(self).entries@,
                    q,
                ),
    {
        let n = self.entries.len();
        let mut k: usize = 0;
        while k < n && self.entries[k].0 != pid
            invariant
                n == self.entries@.len(),
                0 <= k <= n,
                forall|t: int| 0 <= t < k ==> (#[trigger] self.entries@[t]).0 != pid,
            decreases n - k,
        {
            k = k + 1;
        }
        let r: Option<u64> = if k < n {
            proof {
                lemma_tracker_find_at(self.entries@, pid, k as int);
            }
            let pt = self.entries[k].1;
            let pw = self.entries[k].2;
            if now_ms > pw {
                if cpu_time_ms >= pt {
                    let dcpu: u128 = (cpu_time_ms - pt) as u128;
                    proof {
                        assert(1 <= ((now_ms - pw) as int) * (cores as int)
                            <= 0xFFFF_FFFF_FFFF_FFFF * 0xFFFF_FFFF_FFFF_FFFF)
                            by (nonlinear_arith)
                            requires
                                now_ms > pw,
                                now_ms - pw <= 0xFFFF_FFFF_FFFF_FFFF,
                                1 <= cores <= 0xFFFF_FFFF_FFFF_FFFF,
                        ;
                    }
                    let denom: u128 = ((now_ms - pw) as u128) * (cores as u128);
                    let pct: u128 = dcpu * 100_000 / denom;
                    proof {
                        vstd::arithmetic::div_mod::lemma_div_is_ordered(
                            0,
                            (cpu_time_ms - pt) as int * 100_000,
                            ((now_ms - pw) as int) * (cores as int),
                        );
                        vstd::arithmetic::div_mod::lemma_div_is_ordered(
                            (cpu_time_ms - pt) as int * 100_000,
                            u64::MAX as int * 100_000,
                            ((now_ms - pw) as int) * (cores as int),
                        );
                        vstd::arithmetic::div_mod::lemma_div_is_ordered_by_denominator(
                            u64::MAX as int * 100_000,
                            1,
                            ((now_ms - pw) as int) * (cores as int),
                        );
                        assert(((now_ms - pw) as int) * (cores as int) >= 1) by (nonlinear_arith)
                            requires
                                now_ms > pw,
                                cores >= 1,
                        ;
                    }
                    if pct > (MAX_CPU_MILLI as u128) {
                        Some(MAX_CPU_MILLI)
                    } else {
                        Some(pct as u64)
                    }
                } else {
                    Some(0)
                }
            } else {
                None
            }
        } else {
            proof {
                lemma_tracker_find_none(self.entries@, pid);
            }
            None
        };
        if k < n {
            proof {
                lemma_tracker_find_update(
                    self.entries@,
                    k as int,
                    (pid, cpu_time_ms, now_ms),
                    pid,
                );
                assert forall|q: u32| q != pid implies spec_tracker_find(
                    self.entries@.update(k as int, (pid, cpu_time_ms, now_ms)),
                    q,
                ) == spec_tracker_find(self.entries@, q) by {
                    lemma_tracker_find_update(
                        self.entries@,
                        k as int,
                        (pid, cpu_time_ms, now_ms),
                        q,
                    );
                }
            }
            self.entries.set(k, (pid, cpu_time_ms, now_ms));
        } else {
            let ghost pre = self.entries@;
            self.entries.push((pid, cpu_time_ms, now_ms));
            proof {
                lemma_tracker_find_at(self.entries@, pid, n as int);
                assert forall|q: u32| q != pid implies spec_tracker_find(self.entries@, q)
                    == spec_tracker_find(pre, q) by {
                    lemma_tracker_find_push(pre, (pid, cpu_time_ms, now_ms), q);
                }
            }
        }
        r
    }
}

/// Whether a process id occurs in a process-info list.
pub open spec fn spec_procinfo_contains(s: Seq<(u32, BrowserProcessInfo)>, pid: u32) -> bool {
    exists|i: int| 0 <= i < s.len() && (#[trigger] s[i]).0 == pid
}

/// First process-info entry for a process id.
pub open spec fn spec_find_info(s: Seq<(u32, BrowserProcessInfo)>, pid: u32) -> Option<
    BrowserProcessInfo,
>
    decreases s.len(),
{
    if s.len() == 0 {
        None
    } else if s[0].0 == pid {
        Some(s[0].1)
    } else {
        spec_find_info(s.drop_first(), pid)
    }
}

/// First cached rate for a process id.
pub open spec fn spec_find_rate(s: Seq<(u32, u64)>, pid: u32) -> Option<u64>
    decreases s.len(),
{
    if s.len() == 0 {
        None
    } else if s[0].0 == pid {
        Some(s[0].1)
    } else {
        spec_find_rate(s.drop_first(), pid)
    }
}

/// The per-process CPU rates one refresh derives: for each process's first
/// entry, the percentage its CPU-time delta against the previous observation
/// implies (processes without a previous observation yield no rate yet).
pub open spec fn spec_cpu_rates(
    entries: Seq<(u32, BrowserProcessInfo)>,
    tr0: Seq<(u32, u64, u64)>,
    now_ms: u64,
    cores: u64,
) -> Seq<(u32, u64)>
    decreases entries.len(),
{
    if entries.len() == 0 {
        Seq::<(u32, u64)>::empty()
    } else {
        let rest = spec_cpu_rates(entries.drop_last(), tr0, now_ms, cores);
        let e = entries.last();
        if spec_procinfo_contains(entries.drop_last(), e.0) {
            rest
        } else {
            match spec_cpu_pct_from_delta(
                spec_tracker_find(tr0, e.0),
                e.1.cpu_time_milli,
                now_ms,
                cores,
            ) {
                Some(p) => rest.push((e.0, p)),
                None => rest,
            }
        }
    }
}

/// The state one collector instance owns: the platform policy, the
/// browser-aligned process-info cache and the CPU-rate cache derived from
/// cumulative CPU-time deltas. Created at session start, dropped at session
/// end; never a process-wide singleton.
pub struct GeneralCollector {
    pub browser_mode: bool,
    pub policy: CpuNormPolicy,
    pub cores: u64,
    pub total_memory: u64,
    pub prev_cpu_time: CpuTimeTracker,
    pub browser_procinfo: Vec<(u32, BrowserProcessInfo)>,
    pub browser_cpu_milli: Vec<(u32, u64)>,
}

impl GeneralCollector {
    pub open spec fn wf(self) -> bool {
        &&& self.prev_cpu_time.wf()
        &&& self.cores >= 1
    }

    /// A fresh collector with empty caches.
    pub fn new(browser_mode: bool, policy: CpuNormPolicy, cores: u64, total_memory: u64) -> (r:
        GeneralCollector)
        requires
            cores >= 1,
        ensures
            r.wf(),
            r.browser_mode == browser_mode,
            r.policy == policy,
            r.cores == cores,
            r.total_memory == total_memory,
            r.browser_procinfo@.len() == 0,
            r.browser_cpu_milli@.len() == 0,
            r.prev_cpu_time.entries@.len() == 0,
    {
        GeneralCollector {
            browser_mode,
            policy,
            cores,
            total_memory,
            prev_cpu_time: CpuTimeTracker::new(),
            browser_procinfo: Vec::new(),
            browser_cpu_milli: Vec::new(),
        }
    }

    /// Refresh the browser-aligned caches from one aggregate process-info
    /// response: store the response, derive each process's CPU% from its
    /// CPU-time delta, and record the new observations (first entry per id
    /// wins; a first tick yields state but no percentage).
    #[verifier::loop_isolation(false)]
    pub fn update(&mut self, procinfo: Vec<(u32, BrowserProcessInfo)>, now_ms: u64)
        requires
            old(self).wf(),
        ensures
            final(self).wf(),
            final(self).browser_mode == old(self).browser_mode,
            final(self).policy == old(self).policy,
            final(self).cores == old(self).cores,
            final(self).total_memory == old(self).total_memory,
            final(self).browser_procinfo@ == procinfo@,
            final(self).browser_cpu_milli@ == spec_cpu_rates(
                procinfo@,
                old(self).prev_cpu_time.entries@,
                now_ms,
                old(self).cores,
            ),
            forall|q: u32|
                !spec_procinfo_contains(procinfo@, q) ==> spec_tracker_find(
                    final(self).prev_cpu_time.entries@,
                    q,
                ) == spec_tracker_find(old(self).prev_cpu_time.entries@, q),
    {
        let ghost tr0 = self.prev_cpu_time.entries@;
        let n = procinfo.len();
        let mut rates: Vec<(u32, u64)> = Vec::new();
        let mut i: usize = 0;
        proof {
            assert(procinfo@.take(0) =~= Seq::<(u32, BrowserProcessInfo)>::empty());
        }
        while i < n
            invariant
                0 <= i <= n,
                self.prev_cpu_time.wf(),
                self.browser_mode == old(self).browser_mode,
                self.policy == old(self).policy,
                self.cores == old(self).cores,
                self.total_memory == old(self).total_memory,
                self.browser_procinfo == old(self).browser_procinfo,
                self.browser_cpu_milli == old(self).browser_cpu_milli,
                rates@ == spec_cpu_rates(procinfo@.take(i as int), tr0, now_ms, self.cores),
                forall|q: u32|
                    !spec_procinfo_contains(procinfo@.take(i as int), q) ==> spec_tracker_find(
                        self.prev_cpu_time.entries@,
                        q,
                    ) == spec_tracker_find(tr0, q),
            decreases n - i,
        {
            let pid = procinfo[i].0;
            proof {
                assert(procinfo@.take(i + 1).drop_last() =~= procinfo@.take(i as int));
                assert(procinfo@.take(i + 1).last() == procinfo@[i as int]);
            }
            // only a process's first entry is observed
            let mut t: usize = 0;
            while t < i && procinfo[t].0 != pid
                invariant
                    0 <= t <= i <= n,
                    forall|u: int| 0 <= u < t ==> (#[trigger] procinfo@[u]).0 != pid,
                decreases i - t,
            {
                t = t + 1;
            }
            let duplicate = t < i;
            proof {
                if duplicate {
                    assert(procinfo@.take(i as int)[t as int].0 == pid);
                    assert(spec_procinfo_contains(procinfo@.take(i as int), pid));
                } else {
                    assert forall|u: int| 0 <= u < procinfo@.take(i as int).len() implies (
                    #[trigger] procinfo@.take(i as int)[u]).0 != pid by {
                        assert(procinfo@.take(i as int)[u] == procinfo@[u]);
                    }
                    assert(!spec_procinfo_contains(procinfo@.take(i as int), pid));
                }
            }
            if !duplicate {
                let cpu_time = procinfo[i].1.cpu_time_milli;
                match self.prev_cpu_time.observe(pid, cpu_time, now_ms, self.cores) {
                    Some(p) => {
                        rates.push((pid, p));
                    },
                    None => {},
                }
                proof {
                    assert forall|q: u32|
                        !spec_procinfo_contains(procinfo@.take(i + 1), q) implies spec_tracker_find(
                        self.prev_cpu_time.entries@,
                        q,
                    ) == spec_tracker_find(tr0, q) by {
                        assert(q != pid) by {
                            if q == pid {
                                assert(procinfo@.take(i + 1)[i as int].0 == q);
                            }
                        }
                        assert forall|u: int|
                            0 <= u < procinfo@.take(i as int).len() implies (
                        #[trigger] procinfo@.take(i as int)[u]).0 != q by {
                            assert(procinfo@.take(i + 1)[u] == procinfo@.take(i as int)[u]);
                        }
                        assert(!spec_procinfo_contains(procinfo@.take(i as int), q));
                    }
                }
            } else {
                proof {
                    assert forall|q: u32|
                        !spec_procinfo_contains(procinfo@.take(i + 1), q) implies spec_tracker_find(
                        self.prev_cpu_time.entries@,
                        q,
                    ) == spec_tracker_find(tr0, q) by {
                        assert forall|u: int|
                            0 <= u < procinfo@.take(i as int).len() implies (
                        #[trigger] procinfo@.take(i as int)[u]).0 != q by {
                            assert(procinfo@.take(i + 1)[u] == procinfo@.take(i as int)[u]);
                        }
                        assert(!spec_procinfo_contains(procinfo@.take(i as int), q));
                    }
                }
            }
            i = i + 1;
        }
        proof {
            assert(procinfo@.take(n as int) =~= procinfo@);
        }
        self.browser_cpu_milli = rates;
        self.browser_procinfo = procinfo;
    }

    /// Look up the cached browser-aligned CPU% for a process.
    pub fn cached_rate(&self, pid: u32) -> (r: Option<u64>)
        ensures
            r == spec_find_rate(self.browser_cpu_milli@, pid),
    {
        let n = self.browser_cpu_milli.len();
        let mut i: usize = 0;
        proof {
            assert(self.browser_cpu_milli@.skip(0) =~= self.browser_cpu_milli@);
        }
        while i < n
            invariant
                n == self.browser_cpu_milli@.len(),
                0 <= i <= n,
                spec_find_rate(self.browser_cpu_milli@, pid) == spec_find_rate(
                    self.browser_cpu_milli@.skip(i as int),
                    pid,
                ),
            decreases n - i,
        {
            proof {
                assert(self.browser_cpu_milli@.skip(i as int)[0] == self.browser_cpu_milli@[
                i as int]);
                assert(self.browser_cpu_milli@.skip(i as int).drop_first()
                    =~= self.browser_cpu_milli@.skip(i + 1));
            }
            if self.browser_cpu_milli[i].0 == pid {
                return Some(self.browser_cpu_milli[i].1);
            }
            i = i + 1;
        }
        proof {
            assert(self.browser_cpu_milli@.skip(n as int).len() == 0);
        }
        None
    }

    /// Look up the cached process-info entry for a process.
    pub fn cached_info(&self, pid: u32) -> (r: Option<BrowserProcessInfo>)
        ensures
            r == spec_find_info(self.browser_procinfo@, pid),
    {
        let n = self.browser_procinfo.len();
        let mut i: usize = 0;
        proof {
            assert(self.browser_procinfo@.skip(0) =~= self.browser_procinfo@);
        }
        while i < n
            invariant
                n == self.browser_procinfo@.len(),
                0 <= i <= n,
                spec_find_info(self.browser_procinfo@, pid) == spec_find_info(
                    self.browser_procinfo@.skip(i as int),
                    pid,
                ),
            decreases n - i,
        {
            proof {
                assert(self.browser_procinfo@.skip(i as int)[0] == self.browser_procinfo@[
                i as int]);
                assert(self.browser_procinfo@.skip(i as int).drop_first()
                    =~= self.browser_procinfo@.skip(i + 1));
            }
            if self.browser_procinfo[i].0 == pid {
                return Some(self.browser_procinfo[i].1);
            }
            i = i + 1;
        }
        proof {
            assert(self.browser_procinfo@.skip(n as int).len() == 0);
        }
        None
    }

    /// Assemble one tick's sample for one process from the instance's caches
    /// and the readings the caller supplies.
    pub fn collect_process(
        &self,
        pid: u32,
        timestamp_ms: i64,
        os: Option<OsReading>,
        js_heap: Option<u64>,
        footprint: Option<u64>,
    ) -> (r: MetricPoint)
        requires
            self.wf(),
        ensures
            r == spec_assemble_point(
                pid,
                timestamp_ms,
                os,
                self.policy,
                self.cores,
                self.total_memory,
                js_heap,
                spec_find_rate(self.browser_cpu_milli@, pid),
                match spec_find_info(self.browser_procinfo@, pid) {
                    Some(info) => info.private_mem_bytes,
                    None => None,
                },
                footprint,
                self.browser_mode,
            ),
            r.wf(),
    {
        let browser_cpu = self.cached_rate(pid);
        let private = match self.cached_info(pid) {
            Some(info) => info.private_mem_bytes,
            None => None,
        };
        assemble_metric_point(
            pid,
            timestamp_ms,
            os,
            self.policy,
            self.cores,
            self.total_memory,
            js_heap,
            browser_cpu,
            private,
            footprint,
            self.browser_mode,
        )
    }
}

// ---------------------------------------------------------------------------
// Sample assembly
// ---------------------------------------------------------------------------

/// One OS-level reading for a process: raw CPU in milli-percent (per-core
/// summed, as the OS reports it) and raw resident-set bytes.
#[derive(Clone, Copy, Debug, PartialEq, Eq, Structural)]
pub struct OsReading {
    pub cpu_raw_milli: u64,
    pub rss_raw: u64,
}

/// The sample assembled from one tick's readings for one process: OS figures
/// are used only for real pids and normalized per the platform policy; in
/// browser mode the browser-aligned CPU% takes over as the primary figure
/// when available, the protocol's private memory is recorded, and the
/// footprint figure stands in for missing private memory.
pub open spec fn spec_assemble_point(
    pid: u32,
    timestamp_ms: i64,
    os: Option<OsReading>,
    policy: CpuNormPolicy,
    cores: u64,
    total_memory: u64,
    js_heap: Option<u64>,
    browser_cpu_milli: Option<u64>,
    browser_private: Option<u64>,
    footprint: Option<u64>,
    browser_mode: bool,
) -> MetricPoint {
    let is_real = pid < VIRTUAL_PID_BASE;
    let cpu_os = if is_real && os is Some {
        spec_clamp_cpu(spec_norm_cpu(os.unwrap().cpu_raw_milli, cores, policy) as u64)
    } else {
        0
    };
    let rss = if is_real && os is Some {
        spec_clamp_mem(spec_sanitize_rss(os.unwrap().rss_raw, total_memory))
    } else {
        0
    };
    let chrome = if browser_mode {
        match browser_cpu_milli {
            Some(v) => Some(spec_clamp_cpu(v)),
            None => None,
        }
    } else {
        None
    };
    let fp = if browser_mode && is_real {
        match footprint {
            Some(v) => Some(spec_clamp_mem(v)),
            None => None,
        }
    } else {
        None
    };
    let private0 = if browser_mode {
        match browser_private {
            Some(v) => Some(spec_clamp_mem(v)),
            None => None,
        }
    } else {
        None
    };
    let private = if private0 is None {
        fp
    } else {
        private0
    };
    MetricPoint {
        timestamp_ms,
        pid,
        cpu_milli: match chrome {
            Some(v) => v,
            None => cpu_os,
        },
        cpu_os_milli: cpu_os,
        cpu_chrome_milli: chrome,
        memory_rss: rss,
        memory_footprint: fp,
        js_heap_size: js_heap,
        memory_private: private,
        custom_metrics: None,
    }
}

/// Assemble the sample for one process from one tick's readings.
pub fn assemble_metric_point(
    pid: u32,
    timestamp_ms: i64,
    os: Option<OsReading>,
    policy: CpuNormPolicy,
    cores: u64,
    total_memory: u64,
    js_heap: Option<u64>,
    browser_cpu_milli: Option<u64>,
    browser_private: Option<u64>,
    footprint: Option<u64>,
    browser_mode: bool,
) -> (r: MetricPoint)
    requires
        cores >= 1,
    ensures
        r == spec_assemble_point(
            pid,
            timestamp_ms,
            os,
            policy,
            cores,
            total_memory,
            js_heap,
            browser_cpu_milli,
            browser_private,
            footprint,
            browser_mode,
        ),
        r.wf(),
        r.pid == pid,
        r.timestamp_ms == timestamp_ms,
{
    let is_real = pid < VIRTUAL_PID_BASE;
    let cpu_os: u64 = match os {
        Some(reading) if is_real => clamp_cpu(
            os_cpu_pct_for_task_manager(reading.cpu_raw_milli, cores, policy),
        ),
        _ => 0,
    };
    let rss: u64 = match os {
        Some(reading) if is_real => clamp_mem(sanitize_rss(reading.rss_raw, total_memory)),
        _ => 0,
    };
    let chrome: Option<u64> = if browser_mode {
        match browser_cpu_milli {
            Some(v) => Some(clamp_cpu(v)),
            None => None,
        }
    } else {
        None
    };
    let fp: Option<u64> = if browser_mode && is_real {
        match footprint {
            Some(v) => Some(clamp_mem(v)),
            None => None,
        }
    } else {
        None
    };
    let private0: Option<u64> = if browser_mode {
        match browser_private {
            Some(v) => Some(clamp_mem(v)),
            None => None,
        }
    } else {
        None
    };
    let private: Option<u64> = if private0.is_none() {
        fp
    } else {
        private0
    };
    MetricPoint {
        timestamp_ms,
        pid,
        cpu_milli: match chrome {
            Some(v) => v,
            None => cpu_os,
        },
        cpu_os_milli: cpu_os,
        cpu_chrome_milli: chrome,
        memory_rss: rss,
        memory_footprint: fp,
        js_heap_size: js_heap,
        memory_private: private,
        custom_metrics: None,
    }
}

// ---------------------------------------------------------------------------
// Process discovery
// ---------------------------------------------------------------------------

/// Whether an executable name (ASCII-lowercased) names a browser-family
/// process.
pub open spec fn spec_is_browser_name(name_bytes: Seq<u8>) -> bool {
    let low = name_bytes.map_values(|b: u8| lower_byte(b));
    ||| spec_contains_bytes(low, "chrome".spec_bytes())
    ||| spec_contains_bytes(low, "edge".spec_bytes())
    ||| spec_contains_bytes(low, "safari".spec_bytes())
    ||| spec_contains_bytes(low, "firefox".spec_bytes())
}

pub fn is_browser_process_name(name: &str) -> (r: bool)
    ensures
        r == spec_is_browser_name(name.spec_bytes()),
{
    let low = lower_bytes(name);
    contains_bytes(&low, &"chrome".as_bytes_vec()) || contains_bytes(&low, &"edge".as_bytes_vec())
        || contains_bytes(&low, &"safari".as_bytes_vec()) || contains_bytes(
        &low,
        &"firefox".as_bytes_vec(),
    )
}

/// The classification a launch command line implies: a `--type=...` marker
/// decides; without one the process is the browser process itself.
pub open spec fn spec_args_kind(args_bytes: Seq<u8>) -> ProcKind {
    if spec_contains_bytes(args_bytes, "--type=gpu-process".spec_bytes()) {
        ProcKind::Gpu
    } else if spec_contains_bytes(args_bytes, "--type=renderer".spec_bytes()) {
        ProcKind::Renderer
    } else if spec_contains_bytes(args_bytes, "--type=utility".spec_bytes()) {
        ProcKind::Utility
    } else {
        ProcKind::Browser
    }
}

pub fn classify_from_args(args: &str) -> (r: ProcKind)
    ensures
        r == spec_args_kind(args.spec_bytes()),
{
    let bytes = args.as_bytes_vec();
    if contains_bytes(&bytes, &"--type=gpu-process".as_bytes_vec()) {
        ProcKind::Gpu
    } else if contains_bytes(&bytes, &"--type=renderer".as_bytes_vec()) {
        ProcKind::Renderer
    } else if contains_bytes(&bytes, &"--type=utility".as_bytes_vec()) {
        ProcKind::Utility
    } else {
        ProcKind::Browser
    }
}

/// Build the discovery record for one OS process in system-mode scanning:
/// non-browser executables yield nothing; browser-family ones are classified
/// by their launch arguments. The caller passes the executable name already
/// lowercased (matching is done on ASCII-lowered bytes either way) and the
/// raw OS CPU reading, which is normalized here.
pub fn assemble_system_process(
    pid: u32,
    name: String,
    args: &str,
    memory: u64,
    cpu_raw_milli: u64,
    cores: u64,
    policy: CpuNormPolicy,
) -> (r: Option<ProcessInfo>)
    requires
        cores >= 1,
    ensures
        !spec_is_browser_name(vstd::utf8::encode_utf8(name@)) ==> r is None,
        spec_is_browser_name(vstd::utf8::encode_utf8(name@)) ==> (r matches Some(p) && {
            &&& p.pid == pid
            &&& p.alias is None
            &&& p.name == name
            &&& p.memory_usage == memory
            &&& p.cpu_milli as int == spec_norm_cpu(cpu_raw_milli, cores, policy)
            &&& p.proc_type == spec_args_kind(args.spec_bytes())
            &&& (match p.proc_type {
                ProcKind::Gpu => p.title matches Some(t) && t@ == "GPU Process"@,
                ProcKind::Renderer => p.title matches Some(t) && t@ == "Renderer / Tab"@,
                _ => p.title is None,
            })
            &&& p.url is None
        }),
{
    let browserish = is_browser_process_name(name.as_str());
    if !browserish {
        return None;
    }
    let kind = classify_from_args(args);
    let title: Option<String> = match kind {
        ProcKind::Gpu => Some(String::from_str("GPU Process")),
        ProcKind::Renderer => Some(String::from_str("Renderer / Tab")),
        _ => None,
    };
    let cpu = os_cpu_pct_for_task_manager(cpu_raw_milli, cores, policy);
    Some(
        ProcessInfo {
            pid,
            alias: None,
            name,
            memory_usage: memory,
            cpu_milli: cpu,
            proc_type: kind,
            title,
            url: None,
        },
    )
}

// ---------------------------------------------------------------------------
// Browser-mode scan assembly
// ---------------------------------------------------------------------------

/// One page target with what the protocol and the OS said about it: its
/// display metadata, the resolved process id (when the protocol answered) and
/// the OS readings for that id (zero when unavailable).
#[derive(Clone, Debug, PartialEq)]
pub struct PageEntry {
    pub title: String,
    pub url: String,
    pub resolved_pid: Option<u32>,
    pub os_cpu_milli: u64,
    pub os_memory: u64,
}

/// The process id a page is listed under: the resolved OS id when one came
/// back, else a virtual id synthesized from the page's position (stable only
/// within this scan).
pub open spec fn spec_page_pid(e: PageEntry, i: int) -> u32 {
    match e.resolved_pid {
        Some(x) => if x != 0 {
            x
        } else {
            (VIRTUAL_PID_BASE + i) as u32
        },
        None => (VIRTUAL_PID_BASE + i) as u32,
    }
}

/// Whether a real process id is already represented by one of the pages.
pub open spec fn spec_page_seen(pages: Seq<PageEntry>, pid: u32) -> bool {
    pid < VIRTUAL_PID_BASE && exists|i: int|
        0 <= i < pages.len() && #[trigger] spec_page_pid(pages[i], i) == pid
}

/// The browser-internal processes surfaced beside the pages: every reported
/// process not already represented by a page and not a renderer (renderers
/// are already represented by tabs).
pub open spec fn spec_extra_procs(
    procs: Seq<(u32, BrowserProcessInfo)>,
    pages: Seq<PageEntry>,
) -> Seq<(u32, BrowserProcessInfo)>
    decreases procs.len(),
{
    if procs.len() == 0 {
        Seq::<(u32, BrowserProcessInfo)>::empty()
    } else {
        let rest = spec_extra_procs(procs.drop_last(), pages);
        let x = procs.last();
        if spec_page_seen(pages, x.0) || x.1.proc_type == ProcKind::Renderer {
            rest
        } else {
            rest.push(x)
        }
    }
}

/// The display label of a process kind.
pub open spec fn spec_kind_label(k: ProcKind) -> Seq<char> {
    match k {
        ProcKind::Browser => "Browser"@,
        ProcKind::Gpu => "GPU"@,
        ProcKind::Renderer => "Renderer"@,
        ProcKind::Utility => "Utility"@,
        ProcKind::Other => "Other"@,
    }
}

pub fn kind_label(k: ProcKind) -> (r: &'static str)
    ensures
        r@ == spec_kind_label(k),
{
    match k {
        ProcKind::Browser => "Browser",
        ProcKind::Gpu => "GPU",
        ProcKind::Renderer => "Renderer",
        ProcKind::Utility => "Utility",
        ProcKind::Other => "Other",
    }
}

/// The discovery record a page turns into.
pub open spec fn spec_page_info_matches(p: ProcessInfo, e: PageEntry, i: int) -> bool {
    let pid = spec_page_pid(e, i);
    &&& p.pid == pid
    &&& p.alias is None
    &&& p.name@ == "Chrome Tab"@
    &&& p.proc_type == ProcKind::Renderer
    &&& (p.title matches Some(t) && t@ == e.title@)
    &&& (p.url matches Some(u) && u@ == e.url@)
    &&& p.memory_usage == (if pid < VIRTUAL_PID_BASE {
        e.os_memory
    } else {
        0
    })
    &&& p.cpu_milli == (if pid < VIRTUAL_PID_BASE {
        e.os_cpu_milli
    } else {
        0
    })
}

/// The discovery record a non-page browser process turns into.
pub open spec fn spec_extra_info_matches(p: ProcessInfo, x: (u32, BrowserProcessInfo)) -> bool {
    &&& p.pid == x.0
    &&& p.alias is None
    &&& p.name@ == "Chrome"@
    &&& p.proc_type == x.1.proc_type
    &&& (p.title matches Some(t) && t@ == spec_kind_label(x.1.proc_type) + " Process"@)
    &&& p.url is None
    &&& p.memory_usage == (match x.1.private_mem_bytes {
        Some(v) => v,
        None => 0,
    })
    &&& p.cpu_milli == 0
}

/// Assemble the browser-mode discovery list: one renderer record per page
/// (with a virtual id when the real one could not be resolved), then the
/// non-renderer browser-internal processes not already represented. Returns
/// the records and, per page, the id it was listed under (for the caller's
/// session map).
#[verifier::loop_isolation(false)]
pub fn assemble_browser_scan(
    pages: &Vec<PageEntry>,
    procinfo: &Vec<(u32, BrowserProcessInfo)>,
) -> (r: (Vec<ProcessInfo>, Vec<u32>))
    requires
        pages@.len() <= 10000,
    ensures
        r.1@.len() == pages@.len(),
        forall|i: int| 0 <= i < pages@.len() ==> r.1@[i] == spec_page_pid(pages@[i], i),
        r.0@.len() == pages@.len() + spec_extra_procs(procinfo@, pages@).len(),
        forall|i: int|
            0 <= i < pages@.len() ==> spec_page_info_matches(#[trigger] r.0@[i], pages@[i], i),
        forall|j: int|
            0 <= j < spec_extra_procs(procinfo@, pages@).len() ==> spec_extra_info_matches(
                #[trigger] r.0@[pages@.len() + j],
                spec_extra_procs(procinfo@, pages@)[j],
            ),
{
    let np = pages.len();
    let mut infos: Vec<ProcessInfo> = Vec::new();
    let mut pids: Vec<u32> = Vec::new();
    let mut i: usize = 0;
    while i < np
        invariant
            0 <= i <= np,
            infos@.len() == i,
            pids@.len() == i,
            forall|t: int| 0 <= t < i ==> pids@[t] == spec_page_pid(pages@[t], t),
            forall|t: int|
                0 <= t < i ==> spec_page_info_matches(#[trigger] infos@[t], pages@[t], t),
        decreases np - i,
    {
        let e = &pages[i];
        let pid: u32 = match e.resolved_pid {
            Some(x) if x != 0 => x,
            _ => VIRTUAL_PID_BASE + (i as u32),
        };
        let is_real = pid < VIRTUAL_PID_BASE;
        let info = ProcessInfo {
            pid,
            alias: None,
            name: String::from_str("Chrome Tab"),
            memory_usage: if is_real {
                e.os_memory
            } else {
                0
            },
            cpu_milli: if is_real {
                e.os_cpu_milli
            } else {
                0
            },
            proc_type: ProcKind::Renderer,
            title: Some(e.title.clone()),
            url: Some(e.url.clone()),
        };
        infos.push(info);
        pids.push(pid);
        i = i + 1;
    }
    let nq = procinfo.len();
    let mut k: usize = 0;
    proof {
        assert(procinfo@.take(0) =~= Seq::<(u32, BrowserProcessInfo)>::empty());
    }
    while k < nq
        invariant
            0 <= k <= nq,
            pids@.len() == np,
            forall|t: int| 0 <= t < np ==> pids@[t] == spec_page_pid(pages@[t], t),
            infos@.len() == np + spec_extra_procs(procinfo@.take(k as int), pages@).len(),
            forall|t: int|
                0 <= t < np ==> spec_page_info_matches(#[trigger] infos@[t], pages@[t], t),
            forall|j: int|
                0 <= j < spec_extra_procs(procinfo@.take(k as int), pages@).len()
                    ==> spec_extra_info_matches(
                    #[trigger] infos@[np + j],
                    spec_extra_procs(procinfo@.take(k as int), pages@)[j],
                ),
        decreases nq - k,
    {
        let pid = procinfo[k].0;
        let info = &procinfo[k].1;
        proof {
            assert(procinfo@.take(k + 1).drop_last() =~= procinfo@.take(k as int));
            assert(procinfo@.take(k + 1).last() == procinfo@[k as int]);
        }
        // is this id already represented by a page with a real pid?
        let mut seen = false;
        if pid < VIRTUAL_PID_BASE {
            let mut t: usize = 0;
            while t < np && pids[t] != pid
                invariant
                    0 <= t <= np,
                    pids@.len() == np,
                    forall|u: int| 0 <= u < t ==> pids@[u] != pid,
                decreases np - t,
            {
                t = t + 1;
            }
            seen = t < np;
            proof {
                if seen {
                    assert(spec_page_pid(pages@[t as int], t as int) == pid);
                    assert(spec_page_seen(pages@, pid));
                } else {
                    assert forall|u: int| 0 <= u < pages@.len() implies #[trigger] spec_page_pid(
                        pages@[u],
                        u,
                    ) != pid by {
                        assert(pids@[u] == spec_page_pid(pages@[u], u));
                    }
                    assert(!spec_page_seen(pages@, pid));
                }
            }
        }
        if !seen && !matches!(info.proc_type, ProcKind::Renderer) {
            let mut title = String::from_str(kind_label(info.proc_type));
            proof {
                reveal_strlit(" Process");
            }
            title.append(" Process");
            let rec = ProcessInfo {
                pid,
                alias: None,
                name: String::from_str("Chrome"),
                memory_usage: match info.private_mem_bytes {
                    Some(v) => v,
                    None => 0,
                },
                cpu_milli: 0,
                proc_type: info.proc_type,
                title: Some(title),
                url: None,
            };
            infos.push(rec);
        }
        k = k + 1;
    }
    proof {
        assert(procinfo@.take(nq as int) =~= procinfo@);
    }
    (infos, pids)
}

} // verus!
