//! Core data model: per-process measurements, per-timestamp batches, and the
//! configuration records that drive a collection run.

use vstd::prelude::*;

verus! {

/// Process identifiers at or above this threshold are *virtual*: synthesized
/// for a browser tab whose real OS process id could not be resolved. They are
/// only stable within one scan and must never be persisted as identity.
pub const VIRTUAL_PID_BASE: u32 = 90000;

/// Largest representable CPU reading, in milli-percent (4,000,000%).
/// Readings are clamped into this range when a sample is built, so that the
/// analysis can sum series without overflow.
pub const MAX_CPU_MILLI: u64 = 4_000_000_000;

/// Largest representable per-process memory reading, in bytes (16 TB).
pub const MAX_MEM_BYTES: u64 = 16_000_000_000_000;

/// Largest number of per-process samples in one batch.
pub const MAX_SAMPLES_PER_BATCH: usize = 65536;

/// Largest number of batches in one run buffer.
pub const MAX_BATCHES: usize = 1_048_576;

/// Classification of a process within the browser process model.
#[derive(Clone, Copy, Debug, PartialEq, Eq, Structural)]
pub enum ProcKind {
    Browser,
    Gpu,
    Renderer,
    Utility,
    Other,
}

/// One process's measurement at one timestamp.
///
/// `cpu_milli` is the primary CPU figure: the OS figure in system mode, the
/// browser-aligned figure in browser mode when available. All CPU fields are
/// milli-percent; all memory fields are bytes.
#[derive(Clone, Debug, PartialEq)]
pub struct MetricPoint {
    pub timestamp_ms: i64,
    pub pid: u32,
    /// Selected/primary CPU usage in milli-percent.
    pub cpu_milli: u64,
    /// OS-level CPU usage for this process, in milli-percent.
    pub cpu_os_milli: u64,
    /// Browser-aligned CPU usage derived from protocol cpu-time deltas, when available.
    pub cpu_chrome_milli: Option<u64>,
    /// Resident set size in bytes.
    pub memory_rss: u64,
    /// OS task-manager style memory footprint in bytes, when available.
    pub memory_footprint: Option<u64>,
    /// JS heap usage in bytes, when available.
    pub js_heap_size: Option<u64>,
    /// Browser-aligned private memory in bytes, when available.
    pub memory_private: Option<u64>,
    /// A named metric extracted from console logs or custom events, in
    /// milli-units of whatever the metric measures.
    pub custom_metrics: Option<(String, i64)>,
}

impl MetricPoint {
    /// All readings lie in the representable fixed-point range.
    pub open spec fn wf(self) -> bool {
        &&& self.cpu_milli <= MAX_CPU_MILLI
        &&& self.cpu_os_milli <= MAX_CPU_MILLI
        &&& (self.cpu_chrome_milli matches Some(v) ==> v <= MAX_CPU_MILLI)
        &&& self.memory_rss <= MAX_MEM_BYTES
        &&& (self.memory_footprint matches Some(v) ==> v <= MAX_MEM_BYTES)
        &&& (self.memory_private matches Some(v) ==> v <= MAX_MEM_BYTES)
    }

    /// The memory figure the analysis uses: browser-aligned private memory
    /// when present, resident set size otherwise.
    pub open spec fn spec_effective_memory(self) -> u64 {
        match self.memory_private {
            Some(v) => v,
            None => self.memory_rss,
        }
    }

    /// Executable twin of [`Self::spec_effective_memory`].
    pub fn effective_memory(&self) -> (r: u64)
        ensures
            r == self.spec_effective_memory(),
    {
        match self.memory_private {
            Some(v) => v,
            None => self.memory_rss,
        }
    }

    /// An empty sample: every reading zero or absent. Valid for an unresolved
    /// virtual pid and means "no data available this tick".
    pub fn empty(pid: u32, timestamp_ms: i64) -> (r: MetricPoint)
        ensures
            r.wf(),
            r.pid == pid,
            r.timestamp_ms == timestamp_ms,
            r.cpu_milli == 0,
            r.cpu_os_milli == 0,
            r.cpu_chrome_milli is None,
            r.memory_rss == 0,
            r.memory_footprint is None,
            r.js_heap_size is None,
            r.memory_private is None,
            r.custom_metrics is None,
    {
        MetricPoint {
            timestamp_ms,
            pid,
            cpu_milli: 0,
            cpu_os_milli: 0,
            cpu_chrome_milli: None,
            memory_rss: 0,
            memory_footprint: None,
            js_heap_size: None,
            memory_private: None,
            custom_metrics: None,
        }
    }
}

/// Clamp a CPU reading into the representable range.
pub fn clamp_cpu(v: u64) -> (r: u64)
    ensures
        r == spec_clamp_cpu(v),
{
    if v > MAX_CPU_MILLI {
        MAX_CPU_MILLI
    } else {
        v
    }
}

pub open spec fn spec_clamp_cpu(v: u64) -> u64 {
    if v > MAX_CPU_MILLI {
        MAX_CPU_MILLI
    } else {
        v
    }
}

/// Clamp a memory reading into the representable range.
pub fn clamp_mem(v: u64) -> (r: u64)
    ensures
        r == spec_clamp_mem(v),
{
    if v > MAX_MEM_BYTES {
        MAX_MEM_BYTES
    } else {
        v
    }
}

pub open spec fn spec_clamp_mem(v: u64) -> u64 {
    if v > MAX_MEM_BYTES {
        MAX_MEM_BYTES
    } else {
        v
    }
}

/// One timestamp's set of per-process samples: the atomic unit of the run
/// buffer. The sample list is keyed by process id; keys are unique.
#[derive(Clone, Debug, PartialEq)]
pub struct BatchMetric {
    pub timestamp_ms: i64,
    pub metrics: Vec<(u32, MetricPoint)>,
}

/// Look up a process id in a sample list (first match).
pub open spec fn spec_find_pid(s: Seq<(u32, MetricPoint)>, pid: u32) -> Option<MetricPoint>
    decreases s.len(),
{
    if s.len() == 0 {
        None
    } else if s[0].0 == pid {
        Some(s[0].1)
    } else {
        spec_find_pid(s.drop_first(), pid)
    }
}

impl BatchMetric {
    /// Well-formed batch: a bounded number of samples, unique process ids,
    /// every sample in range, stamped with this batch's timestamp and keyed
    /// by its own process id.
    pub open spec fn wf(self) -> bool {
        &&& self.metrics@.len() <= MAX_SAMPLES_PER_BATCH
        &&& (forall|i: int, j: int|
            0 <= i < j < self.metrics@.len() ==> (#[trigger] self.metrics@[i]).0
                != (#[trigger] self.metrics@[j]).0)
        &&& (forall|i: int|
            0 <= i < self.metrics@.len() ==> (#[trigger] self.metrics@[i]).1.wf())
        &&& (forall|i: int|
            0 <= i < self.metrics@.len() ==> (#[trigger] self.metrics@[i]).1.pid
                == self.metrics@[i].0)
        &&& (forall|i: int|
            0 <= i < self.metrics@.len() ==> (#[trigger] self.metrics@[i]).1.timestamp_ms
                == self.timestamp_ms)
    }

    /// Find the sample for a process id.
    pub fn get(&self, pid: u32) -> (r: Option<&MetricPoint>)
        ensures
            match r {
                Some(p) => spec_find_pid(self.metrics@, pid) == Some(*p),
                None => spec_find_pid(self.metrics@, pid) is None,
            },
    {
        let n = self.metrics.len();
        let mut i: usize = 0;
        proof {
            assert(self.metrics@.skip(0) =~= self.metrics@);
        }
        while i < n
            invariant
                n == self.metrics@.len(),
                0 <= i <= n,
                spec_find_pid(self.metrics@, pid) == spec_find_pid(self.metrics@.skip(i as int), pid),
            decreases n - i,
        {
            proof {
                assert(self.metrics@.skip(i as int).len() > 0);
                assert(self.metrics@.skip(i as int)[0] == self.metrics@[i as int]);
                assert(self.metrics@.skip(i as int).drop_first() =~= self.metrics@.skip(i + 1));
            }
            if self.metrics[i].0 == pid {
                return Some(&self.metrics[i].1);
            }
            i = i + 1;
        }
        proof {
            assert(self.metrics@.skip(n as int).len() == 0);
        }
        None
    }
}

/// One entry of the debug endpoint's JSON target list.
#[derive(Clone, Debug, PartialEq)]
pub struct CdpTarget {
    pub id: String,
    pub title: String,
    /// "page", "iframe", "service_worker", ...
    pub kind: String,
    pub url: String,
    pub web_socket_debugger_url: Option<String>,
}

/// A well-formed run buffer: a bounded number of well-formed batches.
pub open spec fn wf_buffer(bs: Seq<BatchMetric>) -> bool {
    &&& bs.len() <= MAX_BATCHES
    &&& (forall|i: int| 0 <= i < bs.len() ==> (#[trigger] bs[i]).wf())
}

/// Display metadata for a discovered process.
#[derive(Clone, Debug, PartialEq)]
pub struct ProcessInfo {
    pub pid: u32,
    pub alias: Option<String>,
    pub name: String,
    /// Memory usage in bytes.
    pub memory_usage: u64,
    /// CPU usage in milli-percent.
    pub cpu_milli: u64,
    pub proc_type: ProcKind,
    pub title: Option<String>,
    pub url: Option<String>,
}

/// A user-chosen display alias for one process.
#[derive(Clone, Debug, PartialEq)]
pub struct ProcessAlias {
    pub pid: u32,
    pub alias: String,
}

/// A pattern that extracts a named numeric metric from console-log lines.
#[derive(Clone, Debug, PartialEq)]
pub struct LogMetricConfig {
    pub name: String,
    pub pattern: String,
    pub unit: Option<String>,
    pub target_pid: Option<u32>,
}

/// Free-form description of the scenario a run measures.
#[derive(Clone, Debug, PartialEq)]
pub struct TestContext {
    pub scenario_name: Option<String>,
    pub build_id: Option<String>,
    pub tags: Option<Vec<String>>,
    pub notes: Option<String>,
}

/// Configuration for one collection run.
#[derive(Clone, Debug, PartialEq)]
pub struct CollectionConfig {
    pub target_pids: Vec<u32>,
    pub interval_ms: u64,
    /// "system" or "browser".
    pub mode: String,
    pub test_context: Option<TestContext>,
    pub process_aliases: Option<Vec<ProcessAlias>>,
    /// Auto-stop after this many seconds, when set.
    pub stop_after_seconds: Option<u64>,
    pub log_metric_configs: Option<Vec<LogMetricConfig>>,
    pub folder_path: Option<String>,
}

} // verus!
