//! Ingestion and fusion: merges samples arriving from the local collector
//! loop, the browser-extension push feed, and the debug-protocol path into one
//! clean, ordered batch stream for the run buffer and for live display.
//!
//! The run buffer's timestamps are non-decreasing; a sample for an already
//! buffered timestamp is merged field by field into that batch; implausible
//! single-tick memory jumps are rejected in favor of the previous accepted
//! reading.

use vstd::prelude::*;
use crate::models::{
    BatchMetric, CollectionConfig, MetricPoint, ProcessAlias, TestContext, spec_find_pid,
    spec_clamp_cpu, spec_clamp_mem, clamp_cpu, clamp_mem, wf_buffer, MAX_BATCHES,
    MAX_SAMPLES_PER_BATCH,
};

verus! {

/// Arguments of a process-list request.
#[derive(Clone, Debug, PartialEq)]
pub struct ProcessListArgs {
    pub mode: String,
}

/// One entry of a push-feed payload: CPU in milli-percent and the raw memory
/// figure in milli-MB (the feed's documented unit is MB).
#[derive(Clone, Copy, Debug, PartialEq, Eq, Structural)]
pub struct FeedSample {
    pub pid: u32,
    pub cpu_milli: u64,
    pub mem_raw_milli_mb: u64,
}

// ---------------------------------------------------------------------------
// Unit disambiguation and the spike clamp
// ---------------------------------------------------------------------------

/// The push feed's memory figure resolved to bytes.
///
/// The feed is expected to send megabytes; a misconfigured sender may emit
/// raw bytes. The value is treated as already-bytes only if reading it as
/// megabytes would imply more than 8x total system memory AND the raw value
/// itself is a plausible byte count (at most 8x total memory); otherwise it is
/// read as megabytes.
pub open spec fn spec_feed_memory_bytes(raw_milli_mb: u64, total: u64) -> u64 {
    let as_bytes = (total > 0 && raw_milli_mb * 0x100000 > 8000 * total && raw_milli_mb > 0
        && raw_milli_mb <= 8000 * total);
    if as_bytes {
        (raw_milli_mb / 1000) as u64
    } else {
        (raw_milli_mb * 0x100000 / 1000) as u64
    }
}

pub fn feed_memory_bytes(raw_milli_mb: u64, total: u64) -> (r: u64)
    ensures
        r == spec_feed_memory_bytes(raw_milli_mb, total),
{
    let wide: u128 = raw_milli_mb as u128;
    let tot: u128 = total as u128;
    let as_bytes = total > 0 && wide * 0x100000 > 8000 * tot && raw_milli_mb > 0 && wide <= 8000
        * tot;
    if as_bytes {
        proof {
            vstd::arithmetic::div_mod::lemma_div_is_ordered(
                raw_milli_mb as int,
                u64::MAX as int,
                1000,
            );
            vstd::arithmetic::div_mod::lemma_div_is_ordered(0, raw_milli_mb as int, 1000);
        }
        (wide / 1000) as u64
    } else {
        let b: u128 = wide * 0x100000 / 1000;
        proof {
            vstd::arithmetic::div_mod::lemma_div_is_ordered(
                0,
                (raw_milli_mb as int) * 0x100000,
                1000,
            );
        }
        // an astronomically large figure wraps exactly as the spec's cast does
        #[verifier::truncate] (b as u64)
    }
}

/// Whether a new memory reading for a process is an implausible single-tick
/// jump against the previous accepted reading: a multiplicatively large jump
/// that is also absolutely large (more than 6x and more than 512 MiB up), any
/// jump of more than 2 GiB, or a reading above 90% of total system memory.
pub open spec fn spec_is_spike(prev: u64, new: u64, total: u64) -> bool {
    ||| (prev > 0 && new > 6 * prev && new > prev + 0x2000_0000)
    ||| (prev > 0 && new > prev + 0x8000_0000)
    ||| (total > 0 && 10 * new > 9 * total)
}

/// The accepted memory reading: the previous value when the new reading is an
/// implausible spike, the new reading otherwise.
pub open spec fn spec_clamp_memory(prev: u64, new: u64, total: u64) -> u64 {
    if spec_is_spike(prev, new, total) {
        prev
    } else {
        new
    }
}

pub fn clamp_memory(prev: u64, new: u64, total: u64) -> (r: u64)
    ensures
        r == spec_clamp_memory(prev, new, total),
{
    let p: u128 = prev as u128;
    let nw: u128 = new as u128;
    let t: u128 = total as u128;
    let spike = (prev > 0 && nw > 6 * p && nw > p + 0x2000_0000) || (prev > 0 && nw > p
        + 0x8000_0000) || (total > 0 && 10 * nw > 9 * t);
    if spike {
        prev
    } else {
        new
    }
}

// ---------------------------------------------------------------------------
// Field-level sample merge
// ---------------------------------------------------------------------------

/// Merge a newer sample into an older one for the same process and timestamp.
/// Only fields the new sample actually supplies overwrite: an optional field
/// must be present, and a scalar reading must be non-zero (an all-zero reading
/// means "no data this tick").
pub open spec fn spec_merge_point(o: MetricPoint, np: MetricPoint) -> MetricPoint {
    MetricPoint {
        timestamp_ms: np.timestamp_ms,
        pid: np.pid,
        cpu_milli: if np.cpu_milli > 0 {
            np.cpu_milli
        } else {
            o.cpu_milli
        },
        cpu_os_milli: if np.cpu_os_milli > 0 {
            np.cpu_os_milli
        } else {
            o.cpu_os_milli
        },
        cpu_chrome_milli: if np.cpu_chrome_milli is Some {
            np.cpu_chrome_milli
        } else {
            o.cpu_chrome_milli
        },
        memory_rss: if np.memory_rss > 0 {
            np.memory_rss
        } else {
            o.memory_rss
        },
        memory_footprint: if np.memory_footprint is Some {
            np.memory_footprint
        } else {
            o.memory_footprint
        },
        js_heap_size: if np.js_heap_size is Some {
            np.js_heap_size
        } else {
            o.js_heap_size
        },
        memory_private: if np.memory_private is Some {
            np.memory_private
        } else {
            o.memory_private
        },
        custom_metrics: if np.custom_metrics is Some {
            np.custom_metrics
        } else {
            o.custom_metrics
        },
    }
}

/// Copy a sample value for value.
pub fn copy_point(p: &MetricPoint) -> (r: MetricPoint)
    ensures
        r == *p,
{
    MetricPoint {
        timestamp_ms: p.timestamp_ms,
        pid: p.pid,
        cpu_milli: p.cpu_milli,
        cpu_os_milli: p.cpu_os_milli,
        cpu_chrome_milli: p.cpu_chrome_milli,
        memory_rss: p.memory_rss,
        memory_footprint: p.memory_footprint,
        js_heap_size: p.js_heap_size,
        memory_private: p.memory_private,
        custom_metrics: match &p.custom_metrics {
            Some(t) => Some((t.0.clone(), t.1)),
            None => None,
        },
    }
}

/// Merge one newer sample into an older one (executable twin of
/// [`spec_merge_point`]).
pub fn merge_point(o: &MetricPoint, np: &MetricPoint) -> (r: MetricPoint)
    ensures
        r == spec_merge_point(*o, *np),
{
    MetricPoint {
        timestamp_ms: np.timestamp_ms,
        pid: np.pid,
        cpu_milli: if np.cpu_milli > 0 {
            np.cpu_milli
        } else {
            o.cpu_milli
        },
        cpu_os_milli: if np.cpu_os_milli > 0 {
            np.cpu_os_milli
        } else {
            o.cpu_os_milli
        },
        cpu_chrome_milli: if np.cpu_chrome_milli.is_some() {
            np.cpu_chrome_milli
        } else {
            o.cpu_chrome_milli
        },
        memory_rss: if np.memory_rss > 0 {
            np.memory_rss
        } else {
            o.memory_rss
        },
        memory_footprint: if np.memory_footprint.is_some() {
            np.memory_footprint
        } else {
            o.memory_footprint
        },
        js_heap_size: if np.js_heap_size.is_some() {
            np.js_heap_size
        } else {
            o.js_heap_size
        },
        memory_private: if np.memory_private.is_some() {
            np.memory_private
        } else {
            o.memory_private
        },
        custom_metrics: if np.custom_metrics.is_some() {
            match &np.custom_metrics {
                Some(t) => Some((t.0.clone(), t.1)),
                None => None,
            }
        } else {
            match &o.custom_metrics {
                Some(t) => Some((t.0.clone(), t.1)),
                None => None,
            }
        },
    }
}

/// Index of the first sample with the given process id, or -1.
pub open spec fn spec_find_index(s: Seq<(u32, MetricPoint)>, pid: u32) -> int
    decreases s.len(),
{
    if s.len() == 0 {
        -1
    } else if s[0].0 == pid {
        0
    } else {
        let r = spec_find_index(s.drop_first(), pid);
        if r == -1 {
            -1
        } else {
            r + 1
        }
    }
}

/// Merge one incoming sample into a batch's sample list: merged into the
/// sample with the same process id if one exists, appended otherwise. A full
/// batch drops a sample for a process id it does not already hold.
pub open spec fn spec_insert_sample(
    s: Seq<(u32, MetricPoint)>,
    x: (u32, MetricPoint),
) -> Seq<(u32, MetricPoint)> {
    let i = spec_find_index(s, x.0);
    if i >= 0 {
        s.update(i, (x.0, spec_merge_point(s[i].1, x.1)))
    } else if s.len() < MAX_SAMPLES_PER_BATCH {
        s.push(x)
    } else {
        s
    }
}

/// Merge a list of incoming samples into a batch's sample list, in order.
pub open spec fn spec_merge_samples(
    olds: Seq<(u32, MetricPoint)>,
    news: Seq<(u32, MetricPoint)>,
) -> Seq<(u32, MetricPoint)>
    decreases news.len(),
{
    if news.len() == 0 {
        olds
    } else {
        spec_insert_sample(spec_merge_samples(olds, news.drop_last()), news.last())
    }
}

/// Whether a sample list holds the given process id.
pub open spec fn contains_key(s: Seq<(u32, MetricPoint)>, pid: u32) -> bool {
    exists|i: int| 0 <= i < s.len() && (#[trigger] s[i]).0 == pid
}

proof fn lemma_find_index_at(s: Seq<(u32, MetricPoint)>, pid: u32, k: int)
    requires
        0 <= k < s.len(),
        s[k].0 == pid,
        forall|t: int| 0 <= t < k ==> (#[trigger] s[t]).0 != pid,
    ensures
        spec_find_index(s, pid) == k,
    decreases k,
{
    if k > 0 {
        assert(s[0].0 != pid);
        assert(s.drop_first()[k - 1] == s[k]);
        assert(forall|t: int| 0 <= t < k - 1 ==> (#[trigger] s.drop_first()[t]).0 != pid);
        lemma_find_index_at(s.drop_first(), pid, k - 1);
    }
}

proof fn lemma_find_index_none(s: Seq<(u32, MetricPoint)>, pid: u32)
    requires
        forall|t: int| 0 <= t < s.len() ==> (#[trigger] s[t]).0 != pid,
    ensures
        spec_find_index(s, pid) == -1,
    decreases s.len(),
{
    if s.len() > 0 {
        assert(forall|t: int| 0 <= t < s.drop_first().len() ==> (#[trigger] s.drop_first()[t]).0
            != pid);
        lemma_find_index_none(s.drop_first(), pid);
    }
}

/// The well-formedness of a sample list for a batch at timestamp `ts`.
pub open spec fn wf_samples(s: Seq<(u32, MetricPoint)>, ts: i64) -> bool {
    &&& s.len() <= MAX_SAMPLES_PER_BATCH
    &&& (forall|i: int, j: int|
        0 <= i < j < s.len() ==> (#[trigger] s[i]).0 != (#[trigger] s[j]).0)
    &&& (forall|i: int| 0 <= i < s.len() ==> (#[trigger] s[i]).1.wf())
    &&& (forall|i: int| 0 <= i < s.len() ==> (#[trigger] s[i]).1.pid == s[i].0)
    &&& (forall|i: int| 0 <= i < s.len() ==> (#[trigger] s[i]).1.timestamp_ms == ts)
}

/// Merge a list of incoming samples into an existing batch with the same
/// timestamp (executable twin of [`spec_merge_samples`]).
#[verifier::loop_isolation(false)]
pub fn merge_batch(last: &BatchMetric, ts: i64, points: &Vec<(u32, MetricPoint)>) -> (r:
    BatchMetric)
    requires
        last.wf(),
        last.timestamp_ms == ts,
        wf_samples(points@, ts),
    ensures
        r.timestamp_ms == ts,
        r.metrics@ == spec_merge_samples(last.metrics@, points@),
        r.wf(),
{
    let n0 = last.metrics.len();
    let mut out: Vec<(u32, MetricPoint)> = Vec::new();
    let mut i: usize = 0;
    while i < n0
        invariant
            0 <= i <= n0,
            out@.len() == i,
            forall|t: int| 0 <= t < i ==> (#[trigger] out@[t]) == last.metrics@[t],
        decreases n0 - i,
    {
        out.push((last.metrics[i].0, copy_point(&last.metrics[i].1)));
        i = i + 1;
    }
    proof {
        assert(out@ =~= last.metrics@);
        assert(points@.take(0) =~= Seq::<(u32, MetricPoint)>::empty());
    }
    let np = points.len();
    let mut i: usize = 0;
    while i < np
        invariant
            0 <= i <= np,
            out@ == spec_merge_samples(last.metrics@, points@.take(i as int)),
            wf_samples(out@, ts),
        decreases np - i,
    {
        let pid = points[i].0;
        proof {
            assert(points@.take(i + 1).drop_last() =~= points@.take(i as int));
            assert(points@.take(i + 1).last() == points@[i as int]);
            assert(points@[i as int].1.wf());
        }
        // find the first sample with this id
        let m = out.len();
        let mut k: usize = 0;
        while k < m && out[k].0 != pid
            invariant
                m == out@.len(),
                0 <= k <= m,
                forall|t: int| 0 <= t < k ==> (#[trigger] out@[t]).0 != pid,
            decreases m - k,
        {
            k = k + 1;
        }
        if k < m {
            proof {
                lemma_find_index_at(out@, pid, k as int);
            }
            let merged = merge_point(&out[k].1, &points[i].1);
            out.set(k, (pid, merged));
        } else {
            proof {
                lemma_find_index_none(out@, pid);
            }
            if out.len() < MAX_SAMPLES_PER_BATCH {
                out.push((pid, copy_point(&points[i].1)));
            }
        }
        i = i + 1;
    }
    proof {
        assert(points@.take(np as int) =~= points@);
    }
    BatchMetric { timestamp_ms: ts, metrics: out }
}

// ---------------------------------------------------------------------------
// The collection session state
// ---------------------------------------------------------------------------

/// The mutable state shared by the sampling loop and the feed loop: the run
/// buffer, the "is a run active" flag, and the session configuration. The
/// embedding program guards a value of this type with a mutual-exclusion
/// discipline; every decision about what enters the buffer is made here.
pub struct CollectionState {
    pub running: bool,
    /// Whether the active session is configured for browser-aligned metrics.
    pub browser_mode: bool,
    /// "system" or "browser".
    pub mode: String,
    pub target_pids: Vec<u32>,
    pub interval_ms: u64,
    pub started_at_ms: Option<i64>,
    pub process_aliases: Vec<ProcessAlias>,
    pub folder_path: Option<String>,
    pub test_context: Option<TestContext>,
    pub stop_after_seconds: Option<u64>,
    /// Total system memory in bytes, for plausibility checks; 0 if unknown.
    pub total_memory_bytes: u64,
    /// The run buffer: batches in non-decreasing timestamp order.
    pub buffer: Vec<BatchMetric>,
}

/// The sample a push-feed entry turns into: unit-resolved, spike-clamped and
/// range-clamped memory, with the same figure recorded as private memory.
pub open spec fn spec_feed_point(e: FeedSample, buffer: Seq<BatchMetric>, total: u64, ts: i64)
    -> MetricPoint {
    let m1 = spec_feed_memory_bytes(e.mem_raw_milli_mb, total);
    let m2 = match spec_prev_mem(buffer, e.pid) {
        Some(prev) => spec_clamp_memory(prev, m1, total),
        None => m1,
    };
    let mem = spec_clamp_mem(m2);
    let cpu = spec_clamp_cpu(e.cpu_milli);
    MetricPoint {
        timestamp_ms: ts,
        pid: e.pid,
        cpu_milli: cpu,
        cpu_os_milli: cpu,
        cpu_chrome_milli: None,
        memory_rss: mem,
        memory_footprint: None,
        js_heap_size: None,
        memory_private: Some(mem),
        custom_metrics: None,
    }
}

/// The previously accepted memory reading for a process: its sample in the
/// most recent buffered batch, if any.
pub open spec fn spec_prev_mem(buffer: Seq<BatchMetric>, pid: u32) -> Option<u64> {
    if buffer.len() == 0 {
        None
    } else {
        match spec_find_pid(buffer.last().metrics@, pid) {
            Some(p) => Some(p.memory_rss),
            None => None,
        }
    }
}

/// The samples accepted from a push-feed payload: entries for tracked process
/// ids only, first entry per id wins, each converted by [`spec_feed_point`].
pub open spec fn spec_feed_points(
    entries: Seq<FeedSample>,
    targets: Seq<u32>,
    buffer: Seq<BatchMetric>,
    total: u64,
    ts: i64,
) -> Seq<(u32, MetricPoint)>
    decreases entries.len(),
{
    if entries.len() == 0 {
        Seq::<(u32, MetricPoint)>::empty()
    } else {
        let rest = spec_feed_points(entries.drop_last(), targets, buffer, total, ts);
        let e = entries.last();
        if !targets.contains(e.pid) || contains_key(rest, e.pid) {
            rest
        } else {
            rest.push((e.pid, spec_feed_point(e, buffer, total, ts)))
        }
    }
}

/// What ingesting a sample list does to the state: nothing for an empty list;
/// forwarding without recording when no run is active or the buffer is at
/// capacity; a field-level merge into the most recent batch when its timestamp
/// matches; dropping a batch older than the most recent one; appending
/// otherwise. A recorded batch is read back from the buffer for live display;
/// a forwarded one is returned directly.
pub open spec fn ingest_post(
    pre: CollectionState,
    post: CollectionState,
    r: IngestOutcome,
    ts: i64,
    points: Seq<(u32, MetricPoint)>,
) -> bool {
    let buf = pre.buffer@;
    &&& post.running == pre.running
    &&& post.browser_mode == pre.browser_mode
    &&& post.mode == pre.mode
    &&& post.target_pids == pre.target_pids
    &&& post.interval_ms == pre.interval_ms
    &&& post.started_at_ms == pre.started_at_ms
    &&& post.stop_after_seconds == pre.stop_after_seconds
    &&& post.total_memory_bytes == pre.total_memory_bytes
    &&& if points.len() == 0 {
        post.buffer@ == buf && r is Ignored
    } else if !pre.running {
        post.buffer@ == buf && (r matches IngestOutcome::Forwarded(b) && b.timestamp_ms == ts
            && b.metrics@ == points)
    } else if buf.len() > 0 && buf.last().timestamp_ms == ts {
        &&& r is Recorded
        &&& post.buffer@.len() == buf.len()
        &&& (forall|i: int| 0 <= i < buf.len() - 1 ==> (#[trigger] post.buffer@[i]) == buf[i])
        &&& post.buffer@[buf.len() - 1].timestamp_ms == ts
        &&& post.buffer@[buf.len() - 1].metrics@ == spec_merge_samples(
            buf.last().metrics@,
            points,
        )
    } else if buf.len() > 0 && ts < buf.last().timestamp_ms {
        post.buffer@ == buf && r is Ignored
    } else if buf.len() < MAX_BATCHES {
        &&& r is Recorded
        &&& post.buffer@.len() == buf.len() + 1
        &&& (forall|i: int| 0 <= i < buf.len() ==> (#[trigger] post.buffer@[i]) == buf[i])
        &&& post.buffer@[buf.len() as int].timestamp_ms == ts
        &&& post.buffer@[buf.len() as int].metrics@ == points
    } else {
        post.buffer@ == buf && (r matches IngestOutcome::Forwarded(b) && b.timestamp_ms == ts
            && b.metrics@ == points)
    }
}

/// What became of an ingested sample list.
pub enum IngestOutcome {
    /// Dropped: empty, stale, or not routed to this session.
    Ignored,
    /// Not recorded (no active run, or the buffer is at capacity), but handed
    /// back for live display.
    Forwarded(BatchMetric),
    /// Merged into or appended to the run buffer; the accepted batch is the
    /// buffer's most recent one.
    Recorded,
}

impl CollectionState {
    /// Invariant: the buffer is well-formed and its timestamps never decrease.
    pub open spec fn wf(self) -> bool {
        &&& wf_buffer(self.buffer@)
        &&& (forall|i: int, j: int|
            0 <= i <= j < self.buffer@.len() ==> (#[trigger] self.buffer@[i]).timestamp_ms
                <= (#[trigger] self.buffer@[j]).timestamp_ms)
    }

    /// A fresh, inactive session state.
    pub fn new(total_memory_bytes: u64) -> (r: CollectionState)
        ensures
            r.wf(),
            !r.running,
            !r.browser_mode,
            r.buffer@.len() == 0,
            r.target_pids@.len() == 0,
            r.interval_ms == 1000,
            r.total_memory_bytes == total_memory_bytes,
            r.started_at_ms is None,
    {
        CollectionState {
            running: false,
            browser_mode: false,
            mode: String::from_str("system"),
            target_pids: Vec::new(),
            interval_ms: 1000,
            started_at_ms: None,
            process_aliases: Vec::new(),
            folder_path: None,
            test_context: None,
            stop_after_seconds: None,
            total_memory_bytes,
            buffer: Vec::new(),
        }
    }

    /// Begin a run: adopt the configuration, clear the buffer, raise the
    /// active flag. The push feed is accepted only when the configured mode
    /// is "browser".
    pub fn start_run(&mut self, config: CollectionConfig, started_at_ms: i64)
        ensures
            final(self).wf(),
            final(self).running,
            final(self).buffer@.len() == 0,
            final(self).browser_mode == (config.mode@ == "browser"@),
            final(self).target_pids@ == config.target_pids@,
            final(self).interval_ms == config.interval_ms,
            final(self).started_at_ms == Some(started_at_ms),
            final(self).stop_after_seconds == config.stop_after_seconds,
            final(self).total_memory_bytes == old(self).total_memory_bytes,
    {
        let browser = config.mode.eq(&String::from_str("browser"));
        self.running = true;
        self.browser_mode = browser;
        self.mode = config.mode;
        self.target_pids = config.target_pids;
        self.interval_ms = config.interval_ms;
        self.started_at_ms = Some(started_at_ms);
        self.process_aliases = match config.process_aliases {
            Some(a) => a,
            None => Vec::new(),
        };
        self.folder_path = config.folder_path;
        self.test_context = config.test_context;
        self.stop_after_seconds = config.stop_after_seconds;
        self.buffer = Vec::new();
    }

    /// End a run and hand back the buffer. Idempotent: stopping an inactive
    /// session returns an empty buffer and leaves the state inactive.
    pub fn stop_run(&mut self) -> (r: Vec<BatchMetric>)
        requires
            old(self).wf(),
        ensures
            final(self).wf(),
            !final(self).running,
            final(self).buffer@.len() == 0,
            r@ == old(self).buffer@,
            final(self).total_memory_bytes == old(self).total_memory_bytes,
    {
        self.running = false;
        let mut out: Vec<BatchMetric> = Vec::new();
        core::mem::swap(&mut out, &mut self.buffer);
        out
    }

    /// Ingest one list of per-process samples stamped `ts` (see
    /// [`ingest_post`] for the full routing rule).
    fn ingest_points(&mut self, ts: i64, points: Vec<(u32, MetricPoint)>) -> (r: IngestOutcome)
        requires
            old(self).wf(),
            wf_samples(points@, ts),
        ensures
            final(self).wf(),
            ingest_post(*old(self), *final(self), r, ts, points@),
    {
        if points.len() == 0 {
            return IngestOutcome::Ignored;
        }
        if !self.running {
            return IngestOutcome::Forwarded(BatchMetric { timestamp_ms: ts, metrics: points });
        }
        let blen = self.buffer.len();
        if blen > 0 {
            let last_ts = self.buffer[blen - 1].timestamp_ms;
            if last_ts == ts {
                let merged = merge_batch(&self.buffer[blen - 1], ts, &points);
                self.buffer.set(blen - 1, merged);
                return IngestOutcome::Recorded;
            }
            if ts < last_ts {
                return IngestOutcome::Ignored;
            }
        }
        if blen < MAX_BATCHES {
            self.buffer.push(BatchMetric { timestamp_ms: ts, metrics: points });
            return IngestOutcome::Recorded;
        }
        IngestOutcome::Forwarded(BatchMetric { timestamp_ms: ts, metrics: points })
    }

    /// The most recent batch in the run buffer.
    pub fn last_batch(&self) -> (r: Option<&BatchMetric>)
        ensures
            match r {
                Some(b) => self.buffer@.len() > 0 && *b == self.buffer@.last(),
                None => self.buffer@.len() == 0,
            },
    {
        let n = self.buffer.len();
        if n == 0 {
            None
        } else {
            Some(&self.buffer[n - 1])
        }
    }
}

/// Linear membership scan.
pub fn vec_contains_u32(v: &Vec<u32>, x: u32) -> (r: bool)
    ensures
        r == v@.contains(x),
{
    let n = v.len();
    let mut i: usize = 0;
    while i < n
        invariant
            n == v@.len(),
            0 <= i <= n,
            forall|t: int| 0 <= t < i ==> v@[t] != x,
        decreases n - i,
    {
        if v[i] == x {
            return true;
        }
        i = i + 1;
    }
    false
}

fn samples_contain_key(s: &Vec<(u32, MetricPoint)>, pid: u32) -> (r: bool)
    ensures
        r == contains_key(s@, pid),
{
    let n = s.len();
    let mut i: usize = 0;
    while i < n
        invariant
            n == s@.len(),
            0 <= i <= n,
            forall|t: int| 0 <= t < i ==> (#[trigger] s@[t]).0 != pid,
        decreases n - i,
    {
        if s[i].0 == pid {
            return true;
        }
        i = i + 1;
    }
    false
}

impl CollectionState {
    /// The previously accepted memory reading for a process.
    fn prev_mem(&self, pid: u32) -> (r: Option<u64>)
        ensures
            r == spec_prev_mem(self.buffer@, pid),
    {
        let n = self.buffer.len();
        if n == 0 {
            return None;
        }
        match self.buffer[n - 1].get(pid) {
            Some(p) => Some(p.memory_rss),
            None => None,
        }
    }

    /// Convert a push-feed payload into accepted samples: tracked process ids
    /// only, first entry per id wins, units resolved and spikes clamped
    /// against the previous accepted reading.
    #[verifier::loop_isolation(false)]
    fn build_feed_points(&self, timestamp_ms: i64, entries: &Vec<FeedSample>) -> (r: Vec<
        (u32, MetricPoint),
    >)
        requires
            entries@.len() <= MAX_SAMPLES_PER_BATCH,
        ensures
            r@ == spec_feed_points(
                entries@,
                self.target_pids@,
                self.buffer@,
                self.total_memory_bytes,
                timestamp_ms,
            ),
            wf_samples(r@, timestamp_ms),
    {
        let n = entries.len();
        let mut out: Vec<(u32, MetricPoint)> = Vec::new();
        let mut i: usize = 0;
        proof {
            assert(entries@.take(0) =~= Seq::<FeedSample>::empty());
        }
        while i < n
            invariant
                0 <= i <= n,
                out@ == spec_feed_points(
                    entries@.take(i as int),
                    self.target_pids@,
                    self.buffer@,
                    self.total_memory_bytes,
                    timestamp_ms,
                ),
                out@.len() <= i,
                wf_samples(out@, timestamp_ms),
            decreases n - i,
        {
            let e = entries[i];
            proof {
                assert(entries@.take(i + 1).drop_last() =~= entries@.take(i as int));
                assert(entries@.take(i + 1).last() == entries@[i as int]);
            }
            let tracked_pid = vec_contains_u32(&self.target_pids, e.pid);
            let already = samples_contain_key(&out, e.pid);
            if tracked_pid && !already {
                let cpu = clamp_cpu(e.cpu_milli);
                let m1 = feed_memory_bytes(e.mem_raw_milli_mb, self.total_memory_bytes);
                let m2 = match self.prev_mem(e.pid) {
                    Some(prev) => clamp_memory(prev, m1, self.total_memory_bytes),
                    None => m1,
                };
                let mem = clamp_mem(m2);
                let point = MetricPoint {
                    timestamp_ms,
                    pid: e.pid,
                    cpu_milli: cpu,
                    cpu_os_milli: cpu,
                    cpu_chrome_milli: None,
                    memory_rss: mem,
                    memory_footprint: None,
                    js_heap_size: None,
                    memory_private: Some(mem),
                    custom_metrics: None,
                };
                out.push((e.pid, point));
            }
            i = i + 1;
        }
        proof {
            assert(entries@.take(n as int) =~= entries@);
        }
        out
    }

    /// Accept a metric payload from the sidecar or the push feed: filter to
    /// the tracked process ids, resolve units, clamp spikes, and route the
    /// resulting batch (merge, append, forward or drop — see [`ingest_post`]).
    pub fn process_metric_payload(&mut self, timestamp_ms: i64, entries: &Vec<FeedSample>) -> (r:
        IngestOutcome)
        requires
            old(self).wf(),
            entries@.len() <= MAX_SAMPLES_PER_BATCH,
        ensures
            final(self).wf(),
            ingest_post(
                *old(self),
                *final(self),
                r,
                timestamp_ms,
                spec_feed_points(
                    entries@,
                    old(self).target_pids@,
                    old(self).buffer@,
                    old(self).total_memory_bytes,
                    timestamp_ms,
                ),
            ),
    {
        let points = self.build_feed_points(timestamp_ms, entries);
        self.ingest_points(timestamp_ms, points)
    }

    /// The push-feed entry point. Payloads are accepted only while the active
    /// session is configured for browser-aligned metrics; in OS-aligned
    /// sessions they are dropped before the merge step, to avoid mixing
    /// incompatible memory definitions within one run.
    pub fn process_websocket_metric_payload(
        &mut self,
        timestamp_ms: i64,
        entries: &Vec<FeedSample>,
    ) -> (r: IngestOutcome)
        requires
            old(self).wf(),
            entries@.len() <= MAX_SAMPLES_PER_BATCH,
        ensures
            final(self).wf(),
            !old(self).browser_mode ==> *final(self) == *old(self) && r is Ignored,
            old(self).browser_mode ==> ingest_post(
                *old(self),
                *final(self),
                r,
                timestamp_ms,
                spec_feed_points(
                    entries@,
                    old(self).target_pids@,
                    old(self).buffer@,
                    old(self).total_memory_bytes,
                    timestamp_ms,
                ),
            ),
    {
        if !self.browser_mode {
            return IngestOutcome::Ignored;
        }
        self.process_metric_payload(timestamp_ms, entries)
    }

    /// Record a named metric extracted from a console log or custom event as
    /// a one-sample batch, routed like any other sample.
    pub fn push_custom_metric(
        &mut self,
        pid: u32,
        timestamp_ms: i64,
        name: String,
        value_milli: i64,
    ) -> (r: IngestOutcome)
        requires
            old(self).wf(),
        ensures
            final(self).wf(),
            ingest_post(
                *old(self),
                *final(self),
                r,
                timestamp_ms,
                seq![(pid, spec_custom_point(pid, timestamp_ms, name, value_milli))],
            ),
    {
        let point = MetricPoint {
            timestamp_ms,
            pid,
            cpu_milli: 0,
            cpu_os_milli: 0,
            cpu_chrome_milli: None,
            memory_rss: 0,
            memory_footprint: None,
            js_heap_size: None,
            memory_private: None,
            custom_metrics: Some((name, value_milli)),
        };
        let mut points: Vec<(u32, MetricPoint)> = Vec::new();
        points.push((pid, point));
        proof {
            assert(points@ =~= seq![
                (pid, spec_custom_point(pid, timestamp_ms, name, value_milli)),
            ]);
        }
        self.ingest_points(timestamp_ms, points)
    }
}

/// The samples a locally collected batch contributes after validation: the
/// first sample per process id wins, every sample is restamped with the batch
/// timestamp and its own id, and readings are clamped into the representable
/// range.
pub open spec fn spec_sanitized_points(points: Seq<(u32, MetricPoint)>, ts: i64) -> Seq<
    (u32, MetricPoint),
>
    decreases points.len(),
{
    if points.len() == 0 {
        Seq::<(u32, MetricPoint)>::empty()
    } else {
        let rest = spec_sanitized_points(points.drop_last(), ts);
        let x = points.last();
        if contains_key(rest, x.0) || rest.len() >= MAX_SAMPLES_PER_BATCH {
            rest
        } else {
            rest.push((x.0, spec_sanitize_point(x.1, x.0, ts)))
        }
    }
}

/// One sample forced into the well-formed range for its batch.
pub open spec fn spec_sanitize_point(p: MetricPoint, pid: u32, ts: i64) -> MetricPoint {
    MetricPoint {
        timestamp_ms: ts,
        pid: pid,
        cpu_milli: spec_clamp_cpu(p.cpu_milli),
        cpu_os_milli: spec_clamp_cpu(p.cpu_os_milli),
        cpu_chrome_milli: match p.cpu_chrome_milli {
            Some(v) => Some(spec_clamp_cpu(v)),
            None => None,
        },
        memory_rss: spec_clamp_mem(p.memory_rss),
        memory_footprint: match p.memory_footprint {
            Some(v) => Some(spec_clamp_mem(v)),
            None => None,
        },
        js_heap_size: p.js_heap_size,
        memory_private: match p.memory_private {
            Some(v) => Some(spec_clamp_mem(v)),
            None => None,
        },
        custom_metrics: p.custom_metrics,
    }
}

fn sanitize_point(p: MetricPoint, pid: u32, ts: i64) -> (r: MetricPoint)
    ensures
        r == spec_sanitize_point(p, pid, ts),
        r.wf(),
        r.pid == pid,
        r.timestamp_ms == ts,
{
    MetricPoint {
        timestamp_ms: ts,
        pid,
        cpu_milli: clamp_cpu(p.cpu_milli),
        cpu_os_milli: clamp_cpu(p.cpu_os_milli),
        cpu_chrome_milli: match p.cpu_chrome_milli {
            Some(v) => Some(clamp_cpu(v)),
            None => None,
        },
        memory_rss: clamp_mem(p.memory_rss),
        memory_footprint: match p.memory_footprint {
            Some(v) => Some(clamp_mem(v)),
            None => None,
        },
        js_heap_size: p.js_heap_size,
        memory_private: match p.memory_private {
            Some(v) => Some(clamp_mem(v)),
            None => None,
        },
        custom_metrics: p.custom_metrics,
    }
}

impl CollectionState {
    /// Accept one locally collected batch of per-process samples (the
    /// sampling-loop path): validate it, then route it like any other batch
    /// (see [`ingest_post`]).
    pub fn ingest_collector_batch(&mut self, timestamp_ms: i64, points: Vec<(u32, MetricPoint)>)
        -> (r: IngestOutcome)
        requires
            old(self).wf(),
        ensures
            final(self).wf(),
            ingest_post(
                *old(self),
                *final(self),
                r,
                timestamp_ms,
                spec_sanitized_points(points@, timestamp_ms),
            ),
    {
        let n = points.len();
        let mut clean: Vec<(u32, MetricPoint)> = Vec::new();
        let mut i: usize = 0;
        proof {
            assert(points@.take(0) =~= Seq::<(u32, MetricPoint)>::empty());
        }
        while i < n
            invariant
                n == points@.len(),
                0 <= i <= n,
                clean@ == spec_sanitized_points(points@.take(i as int), timestamp_ms),
                wf_samples(clean@, timestamp_ms),
            decreases n - i,
        {
            proof {
                assert(points@.take(i + 1).drop_last() =~= points@.take(i as int));
                assert(points@.take(i + 1).last() == points@[i as int]);
            }
            let pid = points[i].0;
            let already = samples_contain_key(&clean, pid);
            if !already && clean.len() < MAX_SAMPLES_PER_BATCH {
                let cleaned = sanitize_point(copy_point(&points[i].1), pid, timestamp_ms);
                proof {
                    assert(cleaned == spec_sanitize_point(points@[i as int].1, pid, timestamp_ms));
                }
                clean.push((pid, cleaned));
            }
            i = i + 1;
        }
        proof {
            assert(points@.take(n as int) =~= points@);
        }
        self.ingest_points(timestamp_ms, clean)
    }
}

/// The sample that carries one named custom metric and nothing else.
pub open spec fn spec_custom_point(pid: u32, ts: i64, name: String, value_milli: i64)
    -> MetricPoint {
    MetricPoint {
        timestamp_ms: ts,
        pid: pid,
        cpu_milli: 0,
        cpu_os_milli: 0,
        cpu_chrome_milli: None,
        memory_rss: 0,
        memory_footprint: None,
        js_heap_size: None,
        memory_private: None,
        custom_metrics: Some((name, value_milli)),
    }
}

/// A snapshot of the session state for the embedding program's status query.
pub struct CollectionStatus {
    pub is_running: bool,
    pub target_pids: Vec<u32>,
    /// "system" or "browser".
    pub mode: String,
    pub interval_ms: u64,
    pub started_at_ms: Option<i64>,
    pub process_aliases: Vec<ProcessAlias>,
    pub folder_path: Option<String>,
    pub stop_after_seconds: Option<u64>,
}

impl CollectionState {
    /// Report the session's current configuration and whether a run is
    /// active.
    pub fn get_collection_status(&self) -> (r: CollectionStatus)
        ensures
            r.is_running == self.running,
            r.target_pids@ == self.target_pids@,
            r.mode@ == self.mode@,
            r.interval_ms == self.interval_ms,
            r.started_at_ms == self.started_at_ms,
            r.stop_after_seconds == self.stop_after_seconds,
            r.process_aliases@.len() == self.process_aliases@.len(),
            forall|i: int|
                0 <= i < r.process_aliases@.len() ==> (#[trigger] r.process_aliases@[i]).pid
                    == self.process_aliases@[i].pid && r.process_aliases@[i].alias@
                    == self.process_aliases@[i].alias@,
            (r.folder_path is Some) == (self.folder_path is Some),
    {
        let mut pids: Vec<u32> = Vec::new();
        let np = self.target_pids.len();
        let mut i: usize = 0;
        while i < np
            invariant
                np == self.target_pids@.len(),
                0 <= i <= np,
                pids@.len() == i,
                forall|t: int| 0 <= t < i ==> (#[trigger] pids@[t]) == self.target_pids@[t],
            decreases np - i,
        {
            pids.push(self.target_pids[i]);
            i = i + 1;
        }
        proof {
            assert(pids@ =~= self.target_pids@);
        }
        let mut aliases: Vec<ProcessAlias> = Vec::new();
        let na = self.process_aliases.len();
        let mut i: usize = 0;
        while i < na
            invariant
                na == self.process_aliases@.len(),
                0 <= i <= na,
                aliases@.len() == i,
                forall|t: int|
                    0 <= t < i ==> (#[trigger] aliases@[t]).pid == self.process_aliases@[t].pid
                        && aliases@[t].alias@ == self.process_aliases@[t].alias@,
            decreases na - i,
        {
            aliases.push(
                ProcessAlias {
                    pid: self.process_aliases[i].pid,
                    alias: self.process_aliases[i].alias.clone(),
                },
            );
            i = i + 1;
        }
        CollectionStatus {
            is_running: self.running,
            target_pids: pids,
            mode: self.mode.clone(),
            interval_ms: self.interval_ms,
            started_at_ms: self.started_at_ms,
            process_aliases: aliases,
            folder_path: match &self.folder_path {
                Some(f) => Some(f.clone()),
                None => None,
            },
            stop_after_seconds: self.stop_after_seconds,
        }
    }
}

/// The run buffer's timestamps never decrease: every batch appended through
/// the ingestion path keeps the buffer ordered, so any two buffered batches
/// stand in timestamp order.
pub proof fn lemma_buffer_monotone(st: CollectionState)
    requires
        st.wf(),
    ensures
        forall|i: int, j: int|
            0 <= i <= j < st.buffer@.len() ==> (#[trigger] st.buffer@[i]).timestamp_ms
                <= (#[trigger] st.buffer@[j]).timestamp_ms,
{
}

} // verus!
