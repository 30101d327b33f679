//! Statistical analysis of a completed run buffer: per-timestamp totals,
//! distributional statistics, a least-squares memory trend, a bounded health
//! score, and top-resource-consumer rankings.
//!
//! The analysis is a pure function of the buffer: recomputing it on the same
//! buffer yields the same report.

use vstd::prelude::*;
use vstd::relations::{sorted_by, total_ordering};
use vstd::seq_lib::lemma_sorted_unique;
use crate::models::{BatchMetric, MetricPoint, MAX_CPU_MILLI, MAX_MEM_BYTES, MAX_SAMPLES_PER_BATCH, MAX_BATCHES, wf_buffer};
use crate::text::{spec_dec_str, spec_fmt_one_dec, spec_fmt_two_dec, spec_round_pct, dec_string, fmt_one_dec, fmt_two_dec, round_pct};

verus! {

broadcast use vstd::seq_lib::group_to_multiset_ensures;

/// Largest possible per-batch CPU total, in milli-percent
/// (`MAX_SAMPLES_PER_BATCH * MAX_CPU_MILLI`).
pub const MAX_CPU_POINT: u64 = 65536 * 4_000_000_000;

/// Largest possible per-batch memory total, in bytes
/// (`MAX_SAMPLES_PER_BATCH * MAX_MEM_BYTES`).
pub const MAX_MEM_POINT_BYTES: u64 = 65536 * 16_000_000_000_000;

/// Largest possible per-batch memory total, in milli-MB
/// (`MAX_MEM_POINT_BYTES * 1000 / 1048576`).
pub const MAX_MEM_POINT_MILLI: u64 = 1_000_000_000_000_000;

/// Distributional statistics over one run.
///
/// CPU figures are milli-percent, memory figures milli-MB, ratios thousandths,
/// and the growth rate milli-MB per sample interval.
#[derive(Clone, Copy, Debug, PartialEq, Eq, Structural)]
pub struct MetricSummary {
    pub avg_cpu_milli: u64,
    pub max_cpu_milli: u64,
    pub p50_cpu_milli: u64,
    pub p90_cpu_milli: u64,
    pub p95_cpu_milli: u64,
    pub p99_cpu_milli: u64,
    pub cpu_stddev_milli: u64,
    /// Fraction of samples where total CPU exceeded 30%, in thousandths.
    pub cpu_high_ratio_30_milli: u64,
    /// Fraction of samples where total CPU exceeded 60%, in thousandths.
    pub cpu_high_ratio_60_milli: u64,
    pub avg_mem_milli_mb: u64,
    pub max_mem_milli_mb: u64,
    pub p50_mem_milli_mb: u64,
    pub p90_mem_milli_mb: u64,
    pub p95_mem_milli_mb: u64,
    pub p99_mem_milli_mb: u64,
    pub mem_stddev_milli_mb: u64,
    /// Fraction of samples where total memory exceeded 512 MB, in thousandths.
    pub mem_high_ratio_512mb_milli: u64,
    /// Fraction of samples where total memory exceeded 1024 MB, in thousandths.
    pub mem_high_ratio_1024mb_milli: u64,
    /// Least-squares slope of the memory series, in milli-MB per sample.
    pub mem_growth_rate_milli: i64,
}

/// One process's aggregate contribution over the whole run.
/// Shares are thousandths of the run total.
#[derive(Clone, Copy, Debug, PartialEq, Eq, Structural)]
pub struct Contributor {
    pub pid: u32,
    pub avg_cpu_milli: u64,
    pub cpu_share_milli: u64,
    pub avg_mem_milli_mb: u64,
    pub mem_share_milli: u64,
}

/// The report computed from one run buffer.
#[derive(Clone, Debug, PartialEq)]
pub struct AnalysisReport {
    /// Health score, 0–100.
    pub score: u8,
    pub summary: MetricSummary,
    pub top_cpu: Vec<Contributor>,
    pub top_mem: Vec<Contributor>,
    pub insights: Vec<String>,
}

// ---------------------------------------------------------------------------
// Per-batch totals
// ---------------------------------------------------------------------------

/// Total CPU (milli-percent) over a sample list.
pub open spec fn sum_cpu(s: Seq<(u32, MetricPoint)>) -> int
    decreases s.len(),
{
    if s.len() == 0 {
        0
    } else {
        sum_cpu(s.drop_last()) + s.last().1.cpu_milli
    }
}

/// Total effective memory (bytes) over a sample list.
pub open spec fn sum_mem_bytes(s: Seq<(u32, MetricPoint)>) -> int
    decreases s.len(),
{
    if s.len() == 0 {
        0
    } else {
        sum_mem_bytes(s.drop_last()) + s.last().1.spec_effective_memory()
    }
}

pub open spec fn spec_cpu_point(b: BatchMetric) -> int {
    sum_cpu(b.metrics@)
}

pub open spec fn spec_mem_point_bytes(b: BatchMetric) -> int {
    sum_mem_bytes(b.metrics@)
}

/// The batch memory total converted from bytes to milli-MB.
pub open spec fn spec_mem_point_milli(b: BatchMetric) -> int {
    spec_mem_point_bytes(b) * 1000 / 0x100000
}

proof fn lemma_sum_cpu_take(s: Seq<(u32, MetricPoint)>, i: int)
    requires
        0 <= i < s.len(),
    ensures
        sum_cpu(s.take(i + 1)) == sum_cpu(s.take(i)) + s[i].1.cpu_milli,
{
    assert(s.take(i + 1).drop_last() =~= s.take(i));
    assert(s.take(i + 1).last() == s[i]);
}

proof fn lemma_sum_mem_take(s: Seq<(u32, MetricPoint)>, i: int)
    requires
        0 <= i < s.len(),
    ensures
        sum_mem_bytes(s.take(i + 1)) == sum_mem_bytes(s.take(i)) + s[i].1.spec_effective_memory(),
{
    assert(s.take(i + 1).drop_last() =~= s.take(i));
    assert(s.take(i + 1).last() == s[i]);
}

/// Total CPU of one batch, in milli-percent.
pub fn batch_cpu_point(b: &BatchMetric) -> (r: u64)
    requires
        b.wf(),
    ensures
        r as int == spec_cpu_point(*b),
        r <= MAX_CPU_POINT,
{
    let n = b.metrics.len();
    let mut sum: u64 = 0;
    let mut i: usize = 0;
    proof {
        assert(b.metrics@.take(0) =~= Seq::<(u32, MetricPoint)>::empty());
    }
    while i < n
        invariant
            b.wf(),
            n == b.metrics@.len(),
            0 <= i <= n,
            sum as int == sum_cpu(b.metrics@.take(i as int)),
            sum <= i * MAX_CPU_MILLI,
        decreases n - i,
    {
        proof {
            lemma_sum_cpu_take(b.metrics@, i as int);
            assert(b.metrics@[i as int].1.wf());
        }
        sum = sum + b.metrics[i].1.cpu_milli;
        i = i + 1;
    }
    proof {
        assert(b.metrics@.take(n as int) =~= b.metrics@);
    }
    sum
}

/// Total effective memory of one batch, in bytes.
pub fn batch_mem_point_bytes(b: &BatchMetric) -> (r: u64)
    requires
        b.wf(),
    ensures
        r as int == spec_mem_point_bytes(*b),
        r <= MAX_MEM_POINT_BYTES,
{
    let n = b.metrics.len();
    let mut sum: u64 = 0;
    let mut i: usize = 0;
    proof {
        assert(b.metrics@.take(0) =~= Seq::<(u32, MetricPoint)>::empty());
    }
    while i < n
        invariant
            b.wf(),
            n == b.metrics@.len(),
            0 <= i <= n,
            sum as int == sum_mem_bytes(b.metrics@.take(i as int)),
            sum <= i * MAX_MEM_BYTES,
        decreases n - i,
    {
        proof {
            lemma_sum_mem_take(b.metrics@, i as int);
            assert(b.metrics@[i as int].1.wf());
        }
        sum = sum + b.metrics[i].1.effective_memory();
        i = i + 1;
    }
    proof {
        assert(b.metrics@.take(n as int) =~= b.metrics@);
    }
    sum
}

/// Total effective memory of one batch, in milli-MB.
pub fn batch_mem_point_milli(b: &BatchMetric) -> (r: u64)
    requires
        b.wf(),
    ensures
        r as int == spec_mem_point_milli(*b),
        r <= MAX_MEM_POINT_MILLI,
{
    let bytes = batch_mem_point_bytes(b);
    let wide: u128 = (bytes as u128) * 1000 / 0x100000;
    proof {
        assert((bytes as u128) * 1000 / 0x100000 <= (MAX_MEM_POINT_BYTES as u128) * 1000
            / 0x100000) by {
            vstd::arithmetic::div_mod::lemma_div_is_ordered(
                (bytes as int) * 1000,
                (MAX_MEM_POINT_BYTES as int) * 1000,
                0x100000,
            );
        }
    }
    wide as u64
}

// ---------------------------------------------------------------------------
// The per-timestamp point series
// ---------------------------------------------------------------------------

/// The CPU point series: one total per batch, in milli-percent.
pub open spec fn spec_cpu_points(bs: Seq<BatchMetric>) -> Seq<u64> {
    Seq::new(bs.len(), |i: int| spec_cpu_point(bs[i]) as u64)
}

/// The memory point series: one total per batch, in milli-MB.
pub open spec fn spec_mem_points(bs: Seq<BatchMetric>) -> Seq<u64> {
    Seq::new(bs.len(), |i: int| spec_mem_point_milli(bs[i]) as u64)
}

/// Compute both point series for a buffer.
pub fn compute_points(ms: &Vec<BatchMetric>) -> (r: (Vec<u64>, Vec<u64>))
    requires
        wf_buffer(ms@),
    ensures
        r.0@ == spec_cpu_points(ms@),
        r.1@ == spec_mem_points(ms@),
        forall|i: int| 0 <= i < r.0@.len() ==> r.0@[i] <= MAX_CPU_POINT,
        forall|i: int| 0 <= i < r.1@.len() ==> r.1@[i] <= MAX_MEM_POINT_MILLI,
{
    let n = ms.len();
    let mut cpu: Vec<u64> = Vec::new();
    let mut mem: Vec<u64> = Vec::new();
    let mut i: usize = 0;
    while i < n
        invariant
            wf_buffer(ms@),
            n == ms@.len(),
            0 <= i <= n,
            cpu@.len() == i,
            mem@.len() == i,
            forall|k: int| 0 <= k < i ==> cpu@[k] == spec_cpu_point(ms@[k]) as u64,
            forall|k: int| 0 <= k < i ==> mem@[k] == spec_mem_point_milli(ms@[k]) as u64,
            forall|k: int| 0 <= k < i ==> cpu@[k] <= MAX_CPU_POINT,
            forall|k: int| 0 <= k < i ==> mem@[k] <= MAX_MEM_POINT_MILLI,
        decreases n - i,
    {
        let c = batch_cpu_point(&ms[i]);
        let m = batch_mem_point_milli(&ms[i]);
        cpu.push(c);
        mem.push(m);
        i = i + 1;
    }
    proof {
        assert(cpu@ =~= spec_cpu_points(ms@));
        assert(mem@ =~= spec_mem_points(ms@));
    }
    (cpu, mem)
}

// ---------------------------------------------------------------------------
// Sorting (ascending, for percentiles)
// ---------------------------------------------------------------------------

/// The series sorted ascending.
pub open spec fn spec_sorted_asc(s: Seq<u64>) -> Seq<u64> {
    s.sort_by(|x: u64, y: u64| x <= y)
}

pub proof fn lemma_sorted_asc(s: Seq<u64>)
    ensures
        spec_sorted_asc(s).to_multiset() =~= s.to_multiset(),
        sorted_by(spec_sorted_asc(s), |x: u64, y: u64| x <= y),
        spec_sorted_asc(s).len() == s.len(),
        forall|i: int, j: int|
            0 <= i <= j < s.len() ==> spec_sorted_asc(s)[i] <= spec_sorted_asc(s)[j],
        forall|i: int|
            0 <= i < s.len() ==> s.to_multiset().contains(#[trigger] spec_sorted_asc(s)[i]),
{
    let leq = |x: u64, y: u64| x <= y;
    assert(total_ordering(leq));
    s.lemma_sort_by_ensures(leq);
    let t = spec_sorted_asc(s);
    assert(t.to_multiset().len() == t.len());
    assert(s.to_multiset().len() == s.len());
    assert forall|i: int, j: int| 0 <= i <= j < s.len() implies t[i] <= t[j] by {
        if i < j {
            assert(leq(t[i], t[j]));
        }
    }
    assert forall|i: int| 0 <= i < s.len() implies s.to_multiset().contains(
        #[trigger] t[i],
    ) by {
        assert(t.contains(t[i]));
        assert(t.to_multiset().count(t[i]) > 0);
    }
}

/// Sort a series ascending (insertion sort).
pub fn sort_points(v: &Vec<u64>) -> (r: Vec<u64>)
    ensures
        r@ == spec_sorted_asc(v@),
        r@.len() == v@.len(),
{
    let ghost leq = |x: u64, y: u64| x <= y;
    let n = v.len();
    let mut out: Vec<u64> = Vec::new();
    let mut i: usize = 0;
    proof {
        assert(v@.take(0) =~= Seq::<u64>::empty());
        assert(v@.take(0).to_multiset() =~= out@.to_multiset());
    }
    while i < n
        invariant
            n == v@.len(),
            0 <= i <= n,
            out@.len() == i,
            out@.to_multiset() == v@.take(i as int).to_multiset(),
            sorted_by(out@, |x: u64, y: u64| x <= y),
        decreases n - i,
    {
        let x = v[i];
        let m = out.len();
        let mut j: usize = 0;
        while j < m && out[j] <= x
            invariant
                m == out@.len(),
                0 <= j <= m,
                forall|k: int| 0 <= k < j ==> out@[k] <= x,
            decreases m - j,
        {
            j = j + 1;
        }
        // out[0..j] <= x, and either j == m or out[j] > x
        proof {
            assert(j == m || out@[j as int] > x);
        }
        let ghost old_out = out@;
        out.insert(j, x);
        proof {
            assert(out@ == old_out.insert(j as int, x));
            old_out.insert_ensures(j as int, x);
            // sortedness of the result
            assert forall|a: int, b: int| 0 <= a < b < out@.len() implies (|x0: u64, y0: u64|
                x0 <= y0)(out@[a], out@[b]) by {
                assert((|x0: u64, y0: u64| x0 <= y0)(out@[a], out@[b]) == (out@[a] <= out@[b]));
                if a < j && b < j {
                    assert((|x1: u64, y1: u64| x1 <= y1)(old_out[a], old_out[b]));
                } else if a < j && b == j {
                    assert(out@[a] == old_out[a]);
                    assert(out@[b] == x);
                } else if a < j && b > j {
                    assert(out@[b] == old_out[b - 1]);
                    if a < b - 1 {
                        assert((|x1: u64, y1: u64| x1 <= y1)(old_out[a], old_out[b - 1]));
                    }
                } else if a == j {
                    // out[a] == x, b > j so out[b] == old_out[b-1] with b-1 >= j
                    assert(out@[b] == old_out[b - 1]);
                    if b - 1 == j {
                        assert(old_out[j as int] > x);
                    } else {
                        assert((|x1: u64, y1: u64| x1 <= y1)(old_out[j as int], old_out[b - 1]));
                        assert(old_out[j as int] > x);
                    }
                } else {
                    // a > j, b > j
                    assert(out@[a] == old_out[a - 1]);
                    assert(out@[b] == old_out[b - 1]);
                    assert((|x1: u64, y1: u64| x1 <= y1)(old_out[a - 1], old_out[b - 1]));
                }
            }
            // multiset of the result
            assert(out@.to_multiset() == old_out.to_multiset().insert(x));
            assert(v@.take(i + 1).drop_last() =~= v@.take(i as int));
            assert(v@.take(i + 1) =~= v@.take(i as int).push(x));
            assert(v@.take(i + 1).to_multiset() == v@.take(i as int).to_multiset().insert(x));
        }
        i = i + 1;
    }
    proof {
        assert(v@.take(n as int) =~= v@);
        lemma_sorted_asc(v@);
        lemma_sorted_unique(out@, spec_sorted_asc(v@), |x: u64, y: u64| x <= y);
    }
    out
}

// ---------------------------------------------------------------------------
// Percentiles
// ---------------------------------------------------------------------------

/// Nearest-rank index for percentile `p` over `n` points:
/// `round((n-1) * p / 100)`, clamped to a valid index.
pub open spec fn spec_pct_index(n: int, p: int) -> int {
    let raw = ((n - 1) * p + 50) / 100;
    if raw >= n {
        n - 1
    } else {
        raw
    }
}

/// Percentile `p` (0–100) of the series by nearest rank; 0 for an empty series.
pub open spec fn spec_percentile(s: Seq<u64>, p: int) -> u64 {
    if s.len() == 0 {
        0
    } else {
        spec_sorted_asc(s)[spec_pct_index(s.len() as int, p)]
    }
}

proof fn lemma_pct_index_bounds(n: int, p: int)
    requires
        1 <= n,
        0 <= p,
    ensures
        0 <= spec_pct_index(n, p) < n,
{
    vstd::arithmetic::div_mod::lemma_div_is_ordered(0, (n - 1) * p + 50, 100);
}

proof fn lemma_pct_index_monotone(n: int, p: int, q: int)
    requires
        1 <= n,
        0 <= p <= q,
    ensures
        spec_pct_index(n, p) <= spec_pct_index(n, q),
{
    assert((n - 1) * p <= (n - 1) * q) by (nonlinear_arith)
        requires
            1 <= n,
            0 <= p <= q,
    ;
    vstd::arithmetic::div_mod::lemma_div_is_ordered((n - 1) * p + 50, (n - 1) * q + 50, 100);
}

/// Percentile lookup from the already-sorted series.
pub fn percentile_from_sorted(sorted: &Vec<u64>, p: u64) -> (r: u64)
    requires
        1 <= sorted@.len(),
        sorted@.len() <= MAX_BATCHES,
        p <= 100,
    ensures
        r == sorted@[spec_pct_index(sorted@.len() as int, p as int)],
{
    let n = sorted.len();
    proof {
        assert((n - 1) * (p as int) <= 104857600) by (nonlinear_arith)
            requires
                1 <= n <= 1048576,
                p <= 100,
        ;
        lemma_pct_index_bounds(n as int, p as int);
    }
    let raw = ((n - 1) * (p as usize) + 50) / 100;
    let idx = if raw >= n {
        n - 1
    } else {
        raw
    };
    sorted[idx]
}

// ---------------------------------------------------------------------------
// Sums, mean, deviation
// ---------------------------------------------------------------------------

/// Sum of a point series.
pub open spec fn seq_sum(s: Seq<u64>) -> int
    decreases s.len(),
{
    if s.len() == 0 {
        0
    } else {
        seq_sum(s.drop_last()) + s.last()
    }
}

/// Mean of a point series (0 for an empty series).
pub open spec fn spec_mean(s: Seq<u64>) -> int {
    if s.len() == 0 {
        0
    } else {
        seq_sum(s) / (s.len() as int)
    }
}

proof fn lemma_seq_sum_take(s: Seq<u64>, i: int)
    requires
        0 <= i < s.len(),
    ensures
        seq_sum(s.take(i + 1)) == seq_sum(s.take(i)) + s[i],
{
    assert(s.take(i + 1).drop_last() =~= s.take(i));
    assert(s.take(i + 1).last() == s[i]);
}

proof fn lemma_seq_sum_bounds(s: Seq<u64>, cap: u64)
    requires
        forall|i: int| 0 <= i < s.len() ==> (#[trigger] s[i]) <= cap,
    ensures
        0 <= seq_sum(s) <= s.len() * cap,
    decreases s.len(),
{
    if s.len() > 0 {
        assert(forall|i: int| 0 <= i < s.drop_last().len() ==> (#[trigger] s.drop_last()[i]) <= cap);
        lemma_seq_sum_bounds(s.drop_last(), cap);
        assert(s.last() <= cap);
        assert((s.len() - 1) * cap + cap == s.len() * cap) by (nonlinear_arith);
    }
}

/// Sum a series into a wide accumulator.
pub fn seq_sum_wide(v: &Vec<u64>, cap: u64) -> (r: u128)
    requires
        v@.len() <= MAX_BATCHES,
        forall|i: int| 0 <= i < v@.len() ==> (#[trigger] v@[i]) <= cap,
    ensures
        r as int == seq_sum(v@),
        r as int <= v@.len() * cap,
{
    let n = v.len();
    let mut sum: u128 = 0;
    let mut i: usize = 0;
    proof {
        assert(v@.take(0) =~= Seq::<u64>::empty());
    }
    while i < n
        invariant
            n == v@.len(),
            n <= MAX_BATCHES,
            forall|k: int| 0 <= k < n ==> (#[trigger] v@[k]) <= cap,
            0 <= i <= n,
            sum as int == seq_sum(v@.take(i as int)),
            sum as int <= i * cap,
        decreases n - i,
    {
        proof {
            lemma_seq_sum_take(v@, i as int);
            assert(i * cap + cap == (i + 1) * cap) by (nonlinear_arith);
            assert((i + 1) * cap <= 1048576 * (u64::MAX as int)) by (nonlinear_arith)
                requires
                    0 <= i + 1 <= 1048576,
                    cap <= u64::MAX,
            ;
        }
        sum = sum + (v[i] as u128);
        i = i + 1;
    }
    proof {
        assert(v@.take(n as int) =~= v@);
    }
    sum
}

/// Mean of a non-empty series whose points are bounded by `cap`.
pub fn mean_points(v: &Vec<u64>, cap: u64) -> (r: u64)
    requires
        1 <= v@.len() <= MAX_BATCHES,
        forall|i: int| 0 <= i < v@.len() ==> (#[trigger] v@[i]) <= cap,
    ensures
        r as int == spec_mean(v@),
        r <= cap,
{
    let n = v.len();
    let sum = seq_sum_wide(v, cap);
    let m = sum / (n as u128);
    proof {
        let s = seq_sum(v@);
        vstd::arithmetic::div_mod::lemma_div_is_ordered(s, (n as int) * cap, n as int);
        vstd::arithmetic::div_mod::lemma_div_multiples_vanish(cap as int, n as int);
        assert((n as int) * cap == cap * (n as int)) by (nonlinear_arith);
        vstd::arithmetic::div_mod::lemma_div_is_ordered(0, s, n as int);
    }
    m as u64
}

/// Sum of squared deviations from `m`.
pub open spec fn sum_sq_dev(s: Seq<u64>, m: int) -> int
    decreases s.len(),
{
    if s.len() == 0 {
        0
    } else {
        sum_sq_dev(s.drop_last(), m) + (s.last() - m) * (s.last() - m)
    }
}

/// Population variance: `sum_sq_dev / n`, and 0 when fewer than two points.
pub open spec fn spec_variance(s: Seq<u64>) -> int {
    if s.len() < 2 {
        0
    } else {
        sum_sq_dev(s, spec_mean(s)) / (s.len() as int)
    }
}

/// The integer square root: the unique `r >= 0` with `r^2 <= x < (r+1)^2`.
pub closed spec fn spec_isqrt(x: int) -> int {
    choose|r: int| 0 <= r && #[trigger] (r * r) <= x < (r + 1) * (r + 1)
}

proof fn lemma_isqrt_exists(x: int) -> (r: int)
    requires
        x >= 0,
    ensures
        0 <= r,
        r * r <= x < (r + 1) * (r + 1),
    decreases x,
{
    if x == 0 {
        0
    } else {
        let p = lemma_isqrt_exists(x - 1);
        if (p + 1) * (p + 1) <= x {
            // then x == (p+1)^2 because x - 1 < (p+1)^2
            assert(x < (p + 2) * (p + 2)) by (nonlinear_arith)
                requires
                    0 <= p,
                    x <= (p + 1) * (p + 1),
            ;
            p + 1
        } else {
            p
        }
    }
}

/// The integer square root is unique.
pub proof fn lemma_isqrt_unique(x: int, r: int)
    requires
        x >= 0,
        0 <= r,
        r * r <= x < (r + 1) * (r + 1),
    ensures
        spec_isqrt(x) == r,
{
    let w = lemma_isqrt_exists(x);
    let c = spec_isqrt(x);
    assert(0 <= c && c * c <= x < (c + 1) * (c + 1));
    if c < r {
        assert((c + 1) * (c + 1) <= r * r) by (nonlinear_arith)
            requires
                0 <= c + 1 <= r,
        ;
    }
    if r < c {
        assert((r + 1) * (r + 1) <= c * c) by (nonlinear_arith)
            requires
                0 <= r + 1 <= c,
        ;
    }
}

/// Integer square root by bisection.
pub fn isqrt(x: u128) -> (r: u64)
    requires
        x <= 1_000_000_000_000_000_000_000_000_000_000,
    ensures
        r as int == spec_isqrt(x as int),
        (r as int) * (r as int) <= x as int,
        (x as int) < ((r as int) + 1) * ((r as int) + 1),
{
    let mut lo: u64 = 0;
    let mut hi: u64 = 1_000_000_000_000_001;
    proof {
        assert((1_000_000_000_000_001 as int) * (1_000_000_000_000_001 as int)
            > 1_000_000_000_000_000_000_000_000_000_000);
    }
    while hi - lo > 1
        invariant
            lo < hi,
            hi <= 1_000_000_000_000_001,
            (lo as int) * (lo as int) <= x as int,
            (x as int) < (hi as int) * (hi as int),
        decreases hi - lo,
    {
        let mid = lo + (hi - lo) / 2;
        proof {
            assert((mid as int) * (mid as int) <= (1_000_000_000_000_001 as int)
                * (1_000_000_000_000_001 as int)) by (nonlinear_arith)
                requires
                    0 <= mid <= 1_000_000_000_000_001,
            ;
        }
        if (mid as u128) * (mid as u128) <= x {
            lo = mid;
        } else {
            hi = mid;
        }
    }
    proof {
        assert(hi == lo + 1);
        lemma_isqrt_unique(x as int, lo as int);
    }
    lo
}

/// Population standard deviation of a series: the integer square root of the
/// variance. Zero when fewer than two points.
pub open spec fn spec_stddev(s: Seq<u64>) -> int {
    spec_isqrt(spec_variance(s))
}

proof fn lemma_sum_sq_dev_take(s: Seq<u64>, m: int, i: int)
    requires
        0 <= i < s.len(),
    ensures
        sum_sq_dev(s.take(i + 1), m) == sum_sq_dev(s.take(i), m) + (s[i] - m) * (s[i] - m),
{
    assert(s.take(i + 1).drop_last() =~= s.take(i));
    assert(s.take(i + 1).last() == s[i]);
}

/// Standard deviation of a series with points bounded by `cap` and
/// pre-computed mean `m`.
pub fn stddev_points(v: &Vec<u64>, m: u64, cap: u64) -> (r: u64)
    requires
        v@.len() <= MAX_BATCHES,
        forall|i: int| 0 <= i < v@.len() ==> (#[trigger] v@[i]) <= cap,
        m as int == spec_mean(v@),
        cap <= MAX_MEM_POINT_MILLI,
    ensures
        r as int == spec_stddev(v@),
        r <= cap,
{
    let n = v.len();
    if n < 2 {
        proof {
            assert(spec_variance(v@) == 0);
            lemma_isqrt_unique(0, 0);
        }
        return 0;
    }
    proof {
        if v@.len() > 0 {
            lemma_seq_sum_bounds(v@, cap);
            vstd::arithmetic::div_mod::lemma_div_is_ordered(0, seq_sum(v@), n as int);
            vstd::arithmetic::div_mod::lemma_div_is_ordered(seq_sum(v@), (n as int) * cap, n as int);
            vstd::arithmetic::div_mod::lemma_div_multiples_vanish(cap as int, n as int);
            assert((n as int) * cap == cap * (n as int)) by (nonlinear_arith);
        }
    }
    // 0 <= m <= cap now known
    let mut acc: u128 = 0;
    let mut i: usize = 0;
    proof {
        assert(v@.take(0) =~= Seq::<u64>::empty());
    }
    while i < n
        invariant
            n == v@.len(),
            2 <= n <= MAX_BATCHES,
            forall|k: int| 0 <= k < n ==> (#[trigger] v@[k]) <= cap,
            m <= cap,
            cap <= MAX_MEM_POINT_MILLI,
            0 <= i <= n,
            acc as int == sum_sq_dev(v@.take(i as int), m as int),
            acc as int <= i * ((cap as int) * (cap as int)),
        decreases n - i,
    {
        let x = v[i];
        let d: u64 = if x >= m {
            x - m
        } else {
            m - x
        };
        proof {
            assert((d as int) * (d as int) <= (1_000_000_000_000_000 as int)
                * (1_000_000_000_000_000 as int)) by (nonlinear_arith)
                requires
                    0 <= d <= 1_000_000_000_000_000,
            ;
        }
        let sq: u128 = (d as u128) * (d as u128);
        proof {
            lemma_sum_sq_dev_take(v@, m as int, i as int);
            assert((v@[i as int] - m) * (v@[i as int] - m) == (d as int) * (d as int))
                by (nonlinear_arith)
                requires
                    d == if v@[i as int] >= m {
                        v@[i as int] - m
                    } else {
                        m - v@[i as int]
                    },
            ;
            assert((d as int) * (d as int) <= (cap as int) * (cap as int)) by (nonlinear_arith)
                requires
                    0 <= d <= cap,
            ;
            assert(i * ((cap as int) * (cap as int)) + (cap as int) * (cap as int) == (i + 1) * ((
            cap as int) * (cap as int))) by (nonlinear_arith);
            assert((i + 1) * ((cap as int) * (cap as int)) <= 1048576 * ((
            MAX_MEM_POINT_MILLI as int) * (MAX_MEM_POINT_MILLI as int))) by (nonlinear_arith)
                requires
                    0 <= i + 1 <= 1048576,
                    0 <= cap <= MAX_MEM_POINT_MILLI,
            ;
        }
        acc = acc + sq;
        i = i + 1;
    }
    proof {
        assert(v@.take(n as int) =~= v@);
    }
    let var: u128 = acc / (n as u128);
    proof {
        vstd::arithmetic::div_mod::lemma_div_is_ordered(0, acc as int, n as int);
        vstd::arithmetic::div_mod::lemma_div_is_ordered(
            acc as int,
            (n as int) * ((cap as int) * (cap as int)),
            n as int,
        );
        vstd::arithmetic::div_mod::lemma_div_multiples_vanish(
            (cap as int) * (cap as int),
            n as int,
        );
        assert((n as int) * ((cap as int) * (cap as int)) == ((cap as int) * (cap as int)) * (
        n as int)) by (nonlinear_arith);
        assert((cap as int) * (cap as int)
            <= 1_000_000_000_000_000_000_000_000_000_000) by (nonlinear_arith)
            requires
                0 <= cap <= 1_000_000_000_000_000,
        ;
    }
    let r = isqrt(var);
    proof {
        // r <= cap: otherwise r >= cap + 1 and r^2 > cap^2 >= var
        if r > cap {
            assert((cap as int + 1) * (cap as int + 1) <= (r as int) * (r as int))
                by (nonlinear_arith)
                requires
                    0 <= cap as int + 1 <= r as int,
            ;
            assert((cap as int) * (cap as int) < (cap as int + 1) * (cap as int + 1))
                by (nonlinear_arith)
                requires
                    0 <= cap,
            ;
        }
    }
    r
}

// ---------------------------------------------------------------------------
// Threshold counts
// ---------------------------------------------------------------------------

/// How many points exceed `t`.
pub open spec fn count_above(s: Seq<u64>, t: u64) -> int
    decreases s.len(),
{
    if s.len() == 0 {
        0
    } else {
        count_above(s.drop_last(), t) + if s.last() > t {
            1int
        } else {
            0int
        }
    }
}

proof fn lemma_count_above_take(s: Seq<u64>, t: u64, i: int)
    requires
        0 <= i < s.len(),
    ensures
        count_above(s.take(i + 1), t) == count_above(s.take(i), t) + if s[i] > t {
            1int
        } else {
            0int
        },
{
    assert(s.take(i + 1).drop_last() =~= s.take(i));
    assert(s.take(i + 1).last() == s[i]);
}

proof fn lemma_count_above_bounds(s: Seq<u64>, t: u64)
    ensures
        0 <= count_above(s, t) <= s.len(),
    decreases s.len(),
{
    if s.len() > 0 {
        lemma_count_above_bounds(s.drop_last(), t);
    }
}

/// Count the points strictly above a threshold.
pub fn count_points_above(v: &Vec<u64>, t: u64) -> (r: usize)
    ensures
        r as int == count_above(v@, t),
        r <= v@.len(),
{
    let n = v.len();
    let mut c: usize = 0;
    let mut i: usize = 0;
    proof {
        assert(v@.take(0) =~= Seq::<u64>::empty());
        lemma_count_above_bounds(v@.take(0), t);
    }
    while i < n
        invariant
            n == v@.len(),
            0 <= i <= n,
            c as int == count_above(v@.take(i as int), t),
            c <= i,
        decreases n - i,
    {
        proof {
            lemma_count_above_take(v@, t, i as int);
        }
        if v[i] > t {
            c = c + 1;
        }
        i = i + 1;
    }
    proof {
        assert(v@.take(n as int) =~= v@);
    }
    c
}

/// A sample ratio in thousandths: `count * 1000 / n`.
pub open spec fn spec_ratio_milli(count: int, n: int) -> int {
    if n == 0 {
        0
    } else {
        count * 1000 / n
    }
}

/// Compute a sample ratio in thousandths.
pub fn ratio_milli(count: usize, n: usize) -> (r: u64)
    requires
        count <= n,
        n <= MAX_BATCHES,
    ensures
        r as int == spec_ratio_milli(count as int, n as int),
        r <= 1000,
{
    if n == 0 {
        0
    } else {
        let r = (count as u64) * 1000 / (n as u64);
        proof {
            assert((count as int) * 1000 <= (n as int) * 1000) by (nonlinear_arith)
                requires
                    count <= n,
            ;
            vstd::arithmetic::div_mod::lemma_div_is_ordered(
                (count as int) * 1000,
                (n as int) * 1000,
                n as int,
            );
            vstd::arithmetic::div_mod::lemma_div_multiples_vanish(1000, n as int);
            assert((n as int) * 1000 == 1000 * (n as int)) by (nonlinear_arith);
            vstd::arithmetic::div_mod::lemma_div_is_ordered(0, (count as int) * 1000, n as int);
        }
        r
    }
}

// ---------------------------------------------------------------------------
// Least-squares memory trend
// ---------------------------------------------------------------------------

/// `0 + 1 + ... + (n-1)`.
pub open spec fn sum_idx(n: int) -> int
    decreases n,
{
    if n <= 0 {
        0
    } else {
        sum_idx(n - 1) + (n - 1)
    }
}

/// `0^2 + 1^2 + ... + (n-1)^2`.
pub open spec fn sum_idx_sq(n: int) -> int
    decreases n,
{
    if n <= 0 {
        0
    } else {
        sum_idx_sq(n - 1) + (n - 1) * (n - 1)
    }
}

/// `sum over i of i * s[i]`.
pub open spec fn sum_xy(s: Seq<u64>) -> int
    decreases s.len(),
{
    if s.len() == 0 {
        0
    } else {
        sum_xy(s.drop_last()) + (s.len() - 1) * s.last()
    }
}

/// Numerator of the ordinary least-squares slope of value against index:
/// `n * Σ(i·y_i) - Σi * Σy_i`.
pub open spec fn spec_slope_num(s: Seq<u64>) -> int {
    s.len() * sum_xy(s) - sum_idx(s.len() as int) * seq_sum(s)
}

/// Denominator of the ordinary least-squares slope: `n * Σi² - (Σi)²`.
pub open spec fn spec_slope_den(n: int) -> int {
    n * sum_idx_sq(n) - sum_idx(n) * sum_idx(n)
}

/// Division truncating toward zero (for a positive divisor), as machine
/// signed division does.
pub open spec fn spec_div_trunc(a: int, b: int) -> int {
    if a >= 0 {
        a / b
    } else {
        -((-a) / b)
    }
}

/// `num/den > thr_n/thr_d` over exact rationals, for positive denominators.
pub open spec fn spec_slope_gt(num: int, den: int, thr_n: int, thr_d: int) -> bool {
    den > 0 && num * thr_d > thr_n * den
}

/// Clamp to the `i64` range.
pub open spec fn spec_clamp_i64(v: int) -> int {
    if v > i64::MAX {
        i64::MAX as int
    } else if v < i64::MIN {
        i64::MIN as int
    } else {
        v
    }
}

/// The reported memory growth rate in milli-MB per sample: the truncated
/// slope, 0 when the series has fewer than two points.
pub open spec fn spec_slope_report(num: int, den: int) -> int {
    spec_clamp_i64(
        if den > 0 {
            spec_div_trunc(num, den)
        } else {
            0
        },
    )
}

proof fn lemma_sum_xy_take(s: Seq<u64>, i: int)
    requires
        0 <= i < s.len(),
    ensures
        sum_xy(s.take(i + 1)) == sum_xy(s.take(i)) + i * s[i],
{
    assert(s.take(i + 1).drop_last() =~= s.take(i));
    assert(s.take(i + 1).last() == s[i]);
}

/// Compute the slope numerator and denominator for a memory series.
pub fn slope_parts(v: &Vec<u64>) -> (r: (i128, i128))
    requires
        v@.len() <= MAX_BATCHES,
        forall|i: int| 0 <= i < v@.len() ==> (#[trigger] v@[i]) <= MAX_MEM_POINT_MILLI,
    ensures
        r.0 == spec_slope_num(v@),
        r.1 == spec_slope_den(v@.len() as int),
        -3_000_000_000_000_000_000_000_000_000_000_000 <= r.0
            <= 3_000_000_000_000_000_000_000_000_000_000_000,
        -3_000_000_000_000_000_000_000_000 <= r.1 <= 3_000_000_000_000_000_000_000_000,
{
    let n = v.len();
    let mut sy: u128 = 0;
    let mut sxy: u128 = 0;
    let mut sx: u64 = 0;
    let mut sxx: u64 = 0;
    let mut i: usize = 0;
    proof {
        assert(v@.take(0) =~= Seq::<u64>::empty());
    }
    while i < n
        invariant
            n == v@.len(),
            n <= MAX_BATCHES,
            forall|k: int| 0 <= k < n ==> (#[trigger] v@[k]) <= MAX_MEM_POINT_MILLI,
            0 <= i <= n,
            sy as int == seq_sum(v@.take(i as int)),
            sy as int <= i * 1_000_000_000_000_000,
            sxy as int == sum_xy(v@.take(i as int)),
            sxy as int <= i * 1_100_000_000_000_000_000_000,
            sx as int == sum_idx(i as int),
            sx as int <= i * 1_048_576,
            sxx as int == sum_idx_sq(i as int),
            sxx as int <= i * 1_099_511_627_776,
        decreases n - i,
    {
        let y = v[i];
        proof {
            lemma_seq_sum_take(v@, i as int);
            lemma_sum_xy_take(v@, i as int);
            assert((i as int) * (y as int) <= 1_100_000_000_000_000_000_000) by (nonlinear_arith)
                requires
                    0 <= i <= 1_048_576,
                    0 <= y <= 1_000_000_000_000_000,
            ;
            assert((i as int) * (i as int) <= 1_099_511_627_776) by (nonlinear_arith)
                requires
                    0 <= i <= 1_048_576,
            ;
            assert(0 <= (i as int) * (y as int)) by (nonlinear_arith)
                requires
                    0 <= i,
                    0 <= y,
            ;
            assert(0 <= (i as int) * (i as int)) by (nonlinear_arith);
        }
        sy = sy + (y as u128);
        sxy = sxy + (i as u128) * (y as u128);
        sx = sx + (i as u64);
        sxx = sxx + (i as u64) * (i as u64);
        i = i + 1;
    }
    proof {
        assert(v@.take(n as int) =~= v@);
        assert((n as int) * (sxy as int) <= 1_300_000_000_000_000_000_000_000_000_000_000)
            by (nonlinear_arith)
            requires
                0 <= n <= 1_048_576,
                0 <= sxy as int <= 1_200_000_000_000_000_000_000_000_000,
        ;
        assert(0 <= (n as int) * (sxy as int)) by (nonlinear_arith)
            requires
                0 <= n,
                0 <= sxy as int,
        ;
        assert((sx as int) * (sy as int) <= 1_300_000_000_000_000_000_000_000_000_000_000)
            by (nonlinear_arith)
            requires
                0 <= sx as int <= 1_100_000_000_000,
                0 <= sy as int <= 1_100_000_000_000_000_000_000,
        ;
        assert(0 <= (sx as int) * (sy as int)) by (nonlinear_arith)
            requires
                0 <= sx as int,
                0 <= sy as int,
        ;
        assert((n as int) * (sxx as int) <= 1_300_000_000_000_000_000_000_000) by (nonlinear_arith)
            requires
                0 <= n <= 1_048_576,
                0 <= sxx as int <= 1_200_000_000_000_000_000,
        ;
        assert(0 <= (n as int) * (sxx as int)) by (nonlinear_arith)
            requires
                0 <= n,
                0 <= sxx as int,
        ;
        assert((sx as int) * (sx as int) <= 1_300_000_000_000_000_000_000_000) by (nonlinear_arith)
            requires
                0 <= sx as int <= 1_100_000_000_000,
        ;
        assert(0 <= (sx as int) * (sx as int)) by (nonlinear_arith);
    }
    let num: i128 = (n as i128) * (sxy as i128) - (sx as i128) * (sy as i128);
    let den: i128 = (n as i128) * (sxx as i128) - (sx as i128) * (sx as i128);
    (num, den)
}

/// The reported growth rate from the slope parts, truncating toward zero and
/// saturating at the `i64` range.
pub fn slope_report_value(num: i128, den: i128) -> (r: i64)
    requires
        -3_000_000_000_000_000_000_000_000_000_000_000 <= num
            <= 3_000_000_000_000_000_000_000_000_000_000_000,
    ensures
        r as int == spec_slope_report(num as int, den as int),
{
    if den <= 0 {
        return 0;
    }
    if num >= 0 {
        let q: u128 = (num as u128) / (den as u128);
        proof {
            vstd::arithmetic::div_mod::lemma_div_is_ordered(0, num as int, den as int);
        }
        if q > 0x7FFF_FFFF_FFFF_FFFF {
            i64::MAX
        } else {
            q as i64
        }
    } else {
        let mag: i128 = -num;
        let q: u128 = (mag as u128) / (den as u128);
        proof {
            vstd::arithmetic::div_mod::lemma_div_is_ordered(0, mag as int, den as int);
        }
        if q >= 0x8000_0000_0000_0000 {
            i64::MIN
        } else {
            -(q as i64)
        }
    }
}

// ---------------------------------------------------------------------------
// Score and insights
// ---------------------------------------------------------------------------

/// The health score in milli-points, before the final clamp to [0, 100000]:
/// penalties per the scoring rules, from 100000 down.
pub open spec fn spec_score_milli(
    avg: int,
    maxv: int,
    c60: int,
    c1024: int,
    n: int,
    num: int,
    den: int,
) -> int {
    let s0: int = 100_000;
    let s1 = if avg > 30_000 {
        s0 - (avg - 30_000) / 2
    } else {
        s0
    };
    let s2 = if 20 * c60 > n {
        s1 - 5_000
    } else {
        s1
    };
    let s3 = if maxv > 80_000 {
        s2 - 10_000
    } else {
        s2
    };
    let s4 = if spec_slope_gt(num, den, 500, 1) {
        s3 - spec_div_trunc(20 * num, den)
    } else if spec_slope_gt(num, den, 100, 1) {
        s3 - 5_000
    } else {
        s3
    };
    let s5 = if 20 * c1024 > n {
        s4 - 5_000
    } else {
        s4
    };
    if s5 < 0 {
        0
    } else {
        s5
    }
}

/// The reported score: milli-points scaled down to 0–100.
pub open spec fn spec_score(
    avg: int,
    maxv: int,
    c60: int,
    c1024: int,
    n: int,
    num: int,
    den: int,
) -> int {
    spec_score_milli(avg, maxv, c60, c1024, n, num, den) / 1000
}

pub open spec fn spec_txt_no_data() -> Seq<char> {
    "No data collected"@
}

pub open spec fn spec_txt_high_avg(avg: int) -> Seq<char> {
    "High average CPU usage: "@ + spec_fmt_one_dec(avg) + "%"@
}

pub open spec fn spec_txt_sustained(c60: int, n: int) -> Seq<char> {
    "Sustained high CPU: "@ + spec_dec_str(spec_round_pct(c60, n)) + "% of samples > 60%"@
}

pub open spec fn spec_txt_spike(maxv: int) -> Seq<char> {
    "CPU spike detected: "@ + spec_fmt_one_dec(maxv) + "%"@
}

pub open spec fn spec_txt_growth(slope_milli: int) -> Seq<char> {
    "High Memory Growth detected (+"@ + spec_fmt_two_dec(slope_milli) + " MB/sample)"@
}

pub open spec fn spec_txt_slight() -> Seq<char> {
    "Slight memory growth trend detected"@
}

pub open spec fn spec_txt_mem_high(c1024: int, n: int) -> Seq<char> {
    "High memory usage: "@ + spec_dec_str(spec_round_pct(c1024, n)) + "% of samples > 1 GB"@
}

/// The insight list: one human-readable line per triggered penalty, in the
/// order the penalties are assessed.
pub open spec fn spec_insights(
    avg: int,
    maxv: int,
    c60: int,
    c1024: int,
    n: int,
    num: int,
    den: int,
    slope_milli: int,
) -> Seq<Seq<char>> {
    (if avg > 30_000 {
        seq![spec_txt_high_avg(avg)]
    } else {
        Seq::<Seq<char>>::empty()
    }) + (if 20 * c60 > n {
        seq![spec_txt_sustained(c60, n)]
    } else {
        Seq::<Seq<char>>::empty()
    }) + (if maxv > 80_000 {
        seq![spec_txt_spike(maxv)]
    } else {
        Seq::<Seq<char>>::empty()
    }) + (if spec_slope_gt(num, den, 500, 1) {
        seq![spec_txt_growth(slope_milli)]
    } else if spec_slope_gt(num, den, 100, 1) {
        seq![spec_txt_slight()]
    } else {
        Seq::<Seq<char>>::empty()
    }) + (if 20 * c1024 > n {
        seq![spec_txt_mem_high(c1024, n)]
    } else {
        Seq::<Seq<char>>::empty()
    })
}

/// A string vector whose entries spell exactly the given character sequences.
pub open spec fn strings_match(v: Seq<String>, s: Seq<Seq<char>>) -> bool {
    &&& v.len() == s.len()
    &&& (forall|i: int| 0 <= i < v.len() ==> (#[trigger] v[i])@ == s[i])
}

/// Compute the score and the insight list from the summary statistics.
#[verifier::rlimit(60)]
pub fn score_and_insights(
    avg_cpu: u64,
    max_cpu: u64,
    c60: usize,
    c1024: usize,
    n: usize,
    num: i128,
    den: i128,
    slope_milli: i64,
) -> (r: (u8, Vec<String>))
    requires
        avg_cpu <= MAX_CPU_POINT,
        max_cpu <= MAX_CPU_POINT,
        c60 <= n,
        c1024 <= n,
        1 <= n <= MAX_BATCHES,
        -3_000_000_000_000_000_000_000_000_000_000_000 <= num
            <= 3_000_000_000_000_000_000_000_000_000_000_000,
        -3_000_000_000_000_000_000_000_000 <= den <= 3_000_000_000_000_000_000_000_000,
        slope_milli as int == spec_slope_report(num as int, den as int),
    ensures
        r.0 as int == spec_score(
            avg_cpu as int,
            max_cpu as int,
            c60 as int,
            c1024 as int,
            n as int,
            num as int,
            den as int,
        ),
        strings_match(
            r.1@,
            spec_insights(
                avg_cpu as int,
                max_cpu as int,
                c60 as int,
                c1024 as int,
                n as int,
                num as int,
                den as int,
                slope_milli as int,
            ),
        ),
{
    let mut score: i128 = 100_000;
    let mut ins: Vec<String> = Vec::new();
    let ghost mut acc: Seq<Seq<char>> = Seq::<Seq<char>>::empty();

    if avg_cpu > 30_000 {
        score = score - (((avg_cpu - 30_000) / 2) as i128);
        let mut t = String::from_str("High average CPU usage: ");
        t.append(fmt_one_dec(avg_cpu).as_str());
        t.append("%");
        ins.push(t);
        proof {
            acc = acc + seq![spec_txt_high_avg(avg_cpu as int)];
        }
    }
    if 20 * c60 > n {
        score = score - 5_000;
        let mut t = String::from_str("Sustained high CPU: ");
        t.append(dec_string(round_pct(c60 as u64, n as u64)).as_str());
        t.append("% of samples > 60%");
        ins.push(t);
        proof {
            acc = acc + seq![spec_txt_sustained(c60 as int, n as int)];
        }
    }
    if max_cpu > 80_000 {
        score = score - 10_000;
        let mut t = String::from_str("CPU spike detected: ");
        t.append(fmt_one_dec(max_cpu).as_str());
        t.append("%");
        ins.push(t);
        proof {
            acc = acc + seq![spec_txt_spike(max_cpu as int)];
        }
    }
    // growth above 500 milli-MB per sample: strong penalty scaled by the
    // slope; above 100: a slight-growth note
    if den > 0 && num > 500 * den {
        // slope is positive here, so the reported milli value is non-negative
        proof {
            assert(spec_slope_gt(num as int, den as int, 500, 1));
            assert(num >= 1);
        }
        let penalty_u: u128 = ((num as u128) * 20) / (den as u128);
        proof {
            vstd::arithmetic::div_mod::lemma_div_is_ordered(
                0,
                (num as int) * 20,
                den as int,
            );
            vstd::arithmetic::div_mod::lemma_div_is_ordered(
                (num as int) * 20,
                60_000_000_000_000_000_000_000_000_000_000_000_000,
                den as int,
            );
            assert(penalty_u as int == spec_div_trunc(20 * (num as int), den as int));
            assert(slope_milli >= 0) by {
                vstd::arithmetic::div_mod::lemma_div_is_ordered(0, num as int, den as int);
            }
        }
        score = score - (penalty_u as i128);
        let mut t = String::from_str("High Memory Growth detected (+");
        t.append(fmt_two_dec(slope_milli as u64).as_str());
        t.append(" MB/sample)");
        ins.push(t);
        proof {
            acc = acc + seq![spec_txt_growth(slope_milli as int)];
        }
    } else if den > 0 && num > 100 * den {
        score = score - 5_000;
        let t = String::from_str("Slight memory growth trend detected");
        ins.push(t);
        proof {
            acc = acc + seq![spec_txt_slight()];
        }
    }
    if 20 * c1024 > n {
        score = score - 5_000;
        let mut t = String::from_str("High memory usage: ");
        t.append(dec_string(round_pct(c1024 as u64, n as u64)).as_str());
        t.append("% of samples > 1 GB");
        ins.push(t);
        proof {
            acc = acc + seq![spec_txt_mem_high(c1024 as int, n as int)];
        }
    }
    if score < 0 {
        score = 0;
    }
    proof {
        assert(score as int == spec_score_milli(
            avg_cpu as int,
            max_cpu as int,
            c60 as int,
            c1024 as int,
            n as int,
            num as int,
            den as int,
        ));
        assert(acc =~= spec_insights(
            avg_cpu as int,
            max_cpu as int,
            c60 as int,
            c1024 as int,
            n as int,
            num as int,
            den as int,
            slope_milli as int,
        ));
        assert(strings_match(ins@, acc));
        vstd::arithmetic::div_mod::lemma_div_is_ordered(0, score as int, 1000);
        vstd::arithmetic::div_mod::lemma_div_is_ordered(score as int, 100_000, 1000);
    }
    let s8: u8 = ((score as u128) / 1000) as u8;
    (s8, ins)
}

// ---------------------------------------------------------------------------
// Per-process aggregation
// ---------------------------------------------------------------------------

/// All samples of a buffer, in batch order then sample order.
pub open spec fn all_samples(bs: Seq<BatchMetric>) -> Seq<(u32, MetricPoint)>
    decreases bs.len(),
{
    if bs.len() == 0 {
        Seq::<(u32, MetricPoint)>::empty()
    } else {
        all_samples(bs.drop_last()) + bs.last().metrics@
    }
}

/// The distinct process ids of a sample list, in first-appearance order.
pub open spec fn spec_distinct_pids(s: Seq<(u32, MetricPoint)>) -> Seq<u32>
    decreases s.len(),
{
    if s.len() == 0 {
        Seq::<u32>::empty()
    } else {
        let d = spec_distinct_pids(s.drop_last());
        if d.contains(s.last().0) {
            d
        } else {
            d.push(s.last().0)
        }
    }
}

/// The distinct-pid list never repeats an id.
proof fn lemma_distinct_no_dup(s: Seq<(u32, MetricPoint)>)
    ensures
        forall|i: int, j: int|
            0 <= i < j < spec_distinct_pids(s).len() ==> (#[trigger] spec_distinct_pids(s)[i])
                != (#[trigger] spec_distinct_pids(s)[j]),
    decreases s.len(),
{
    if s.len() > 0 {
        let t = s.drop_last();
        let d = spec_distinct_pids(t);
        lemma_distinct_no_dup(t);
        if !d.contains(s.last().0) {
            let dn = spec_distinct_pids(s);
            assert(dn == d.push(s.last().0));
            assert forall|i: int, j: int| 0 <= i < j < dn.len() implies (#[trigger] dn[i]) != (
            #[trigger] dn[j]) by {
                if j == d.len() {
                    assert(dn[j] == s.last().0);
                    assert(dn[i] == d[i]);
                    assert(d.contains(d[i]));
                } else {
                    assert(dn[i] == d[i]);
                    assert(dn[j] == d[j]);
                }
            }
        }
    }
}

/// Total CPU of one process over a sample list.
pub open spec fn pid_cpu_sum(s: Seq<(u32, MetricPoint)>, pid: u32) -> int
    decreases s.len(),
{
    if s.len() == 0 {
        0
    } else {
        pid_cpu_sum(s.drop_last(), pid) + if s.last().0 == pid {
            s.last().1.cpu_milli as int
        } else {
            0
        }
    }
}

/// Total effective memory (bytes) of one process over a sample list.
pub open spec fn pid_mem_sum(s: Seq<(u32, MetricPoint)>, pid: u32) -> int
    decreases s.len(),
{
    if s.len() == 0 {
        0
    } else {
        pid_mem_sum(s.drop_last(), pid) + if s.last().0 == pid {
            s.last().1.spec_effective_memory() as int
        } else {
            0
        }
    }
}

proof fn lemma_all_samples_take(bs: Seq<BatchMetric>, i: int)
    requires
        0 <= i < bs.len(),
    ensures
        all_samples(bs.take(i + 1)) == all_samples(bs.take(i)) + bs[i].metrics@,
{
    assert(bs.take(i + 1).drop_last() =~= bs.take(i));
    assert(bs.take(i + 1).last() == bs[i]);
}

proof fn lemma_pid_sums_push(s: Seq<(u32, MetricPoint)>, x: (u32, MetricPoint), pid: u32)
    ensures
        pid_cpu_sum(s.push(x), pid) == pid_cpu_sum(s, pid) + if x.0 == pid {
            x.1.cpu_milli as int
        } else {
            0
        },
        pid_mem_sum(s.push(x), pid) == pid_mem_sum(s, pid) + if x.0 == pid {
            x.1.spec_effective_memory() as int
        } else {
            0
        },
        spec_distinct_pids(s.push(x)) == (if spec_distinct_pids(s).contains(x.0) {
            spec_distinct_pids(s)
        } else {
            spec_distinct_pids(s).push(x.0)
        }),
{
    assert(s.push(x).drop_last() =~= s);
    assert(s.push(x).last() == x);
}

proof fn lemma_pid_sums_concat(a: Seq<(u32, MetricPoint)>, b: Seq<(u32, MetricPoint)>, pid: u32)
    ensures
        pid_cpu_sum(a + b, pid) == pid_cpu_sum(a, pid) + pid_cpu_sum(b, pid),
        pid_mem_sum(a + b, pid) == pid_mem_sum(a, pid) + pid_mem_sum(b, pid),
    decreases b.len(),
{
    if b.len() == 0 {
        assert(a + b =~= a);
    } else {
        lemma_pid_sums_concat(a, b.drop_last(), pid);
        assert((a + b).drop_last() =~= a + b.drop_last());
        assert((a + b).last() == b.last());
    }
}

proof fn lemma_pid_sums_unique_batch(s: Seq<(u32, MetricPoint)>, pid: u32)
    requires
        forall|i: int, j: int| 0 <= i < j < s.len() ==> (#[trigger] s[i]).0 != (#[trigger] s[j]).0,
        forall|i: int| 0 <= i < s.len() ==> (#[trigger] s[i]).1.wf(),
    ensures
        0 <= pid_cpu_sum(s, pid) <= MAX_CPU_MILLI,
        0 <= pid_mem_sum(s, pid) <= MAX_MEM_BYTES,
    decreases s.len(),
{
    if s.len() > 0 {
        let t = s.drop_last();
        assert(forall|i: int, j: int|
            0 <= i < j < t.len() ==> (#[trigger] t[i]).0 != (#[trigger] t[j]).0);
        assert(forall|i: int| 0 <= i < t.len() ==> (#[trigger] t[i]).1.wf());
        lemma_pid_sums_unique_batch(t, pid);
        if s.last().0 == pid {
            // the prefix cannot contain pid again
            lemma_pid_sums_absent(t, pid);
            assert(s.last().1.wf());
        }
    }
}

proof fn lemma_pid_sums_absent(s: Seq<(u32, MetricPoint)>, pid: u32)
    requires
        forall|i: int| 0 <= i < s.len() ==> (#[trigger] s[i]).0 != pid,
    ensures
        pid_cpu_sum(s, pid) == 0,
        pid_mem_sum(s, pid) == 0,
    decreases s.len(),
{
    if s.len() > 0 {
        let t = s.drop_last();
        assert(forall|i: int| 0 <= i < t.len() ==> (#[trigger] t[i]).0 != pid);
        lemma_pid_sums_absent(t, pid);
    }
}

/// Over a well-formed buffer each process's totals are bounded, because a
/// process id occurs at most once per batch.
proof fn lemma_pid_sums_buffer(bs: Seq<BatchMetric>, pid: u32)
    requires
        forall|i: int| 0 <= i < bs.len() ==> (#[trigger] bs[i]).wf(),
    ensures
        0 <= pid_cpu_sum(all_samples(bs), pid) <= bs.len() * MAX_CPU_MILLI,
        0 <= pid_mem_sum(all_samples(bs), pid) <= bs.len() * MAX_MEM_BYTES,
    decreases bs.len(),
{
    if bs.len() > 0 {
        let t = bs.drop_last();
        assert(forall|i: int| 0 <= i < t.len() ==> (#[trigger] t[i]).wf());
        lemma_pid_sums_buffer(t, pid);
        lemma_pid_sums_concat(all_samples(t), bs.last().metrics@, pid);
        assert(bs.last().wf());
        lemma_pid_sums_unique_batch(bs.last().metrics@, pid);
        assert((bs.len() - 1) * MAX_CPU_MILLI + MAX_CPU_MILLI == bs.len() * MAX_CPU_MILLI)
            by (nonlinear_arith);
        assert((bs.len() - 1) * MAX_MEM_BYTES + MAX_MEM_BYTES == bs.len() * MAX_MEM_BYTES)
            by (nonlinear_arith);
    }
}

proof fn lemma_sum_concat(a: Seq<(u32, MetricPoint)>, b: Seq<(u32, MetricPoint)>)
    ensures
        sum_cpu(a + b) == sum_cpu(a) + sum_cpu(b),
        sum_mem_bytes(a + b) == sum_mem_bytes(a) + sum_mem_bytes(b),
    decreases b.len(),
{
    if b.len() == 0 {
        assert(a + b =~= a);
    } else {
        lemma_sum_concat(a, b.drop_last());
        assert((a + b).drop_last() =~= a + b.drop_last());
        assert((a + b).last() == b.last());
    }
}

/// A process's total never exceeds the run total.
proof fn lemma_pid_sum_le_total(s: Seq<(u32, MetricPoint)>, pid: u32)
    ensures
        pid_cpu_sum(s, pid) <= sum_cpu(s),
        pid_mem_sum(s, pid) <= sum_mem_bytes(s),
    decreases s.len(),
{
    if s.len() > 0 {
        lemma_pid_sum_le_total(s.drop_last(), pid);
    }
}

/// The aggregate contribution of one process over the buffer.
pub open spec fn spec_contributor(bs: Seq<BatchMetric>, pid: u32) -> Contributor {
    let n = bs.len() as int;
    let all = all_samples(bs);
    let csum = pid_cpu_sum(all, pid);
    let msum = pid_mem_sum(all, pid);
    let ct = sum_cpu(all);
    let mt = sum_mem_bytes(all);
    Contributor {
        pid: pid,
        avg_cpu_milli: (csum / n) as u64,
        cpu_share_milli: (if ct > 0 {
            csum * 1000 / ct
        } else {
            0
        }) as u64,
        avg_mem_milli_mb: (msum * 1000 / (0x100000 * n)) as u64,
        mem_share_milli: (if mt > 0 {
            msum * 1000 / mt
        } else {
            0
        }) as u64,
    }
}

/// All contributors, in order of each process id's first appearance.
pub open spec fn spec_contributors(bs: Seq<BatchMetric>) -> Seq<Contributor> {
    spec_distinct_pids(all_samples(bs)).map_values(|pid: u32| spec_contributor(bs, pid))
}

/// Aggregate per-process CPU and memory totals over the whole buffer:
/// `(pid, cpu total in milli-percent, memory total in bytes)` per process,
/// in first-appearance order, plus the run totals.
#[verifier::loop_isolation(false)]
fn aggregate_by_pid(ms: &Vec<BatchMetric>) -> (r: (Vec<(u32, u64, u64)>, u128, u128))
    requires
        wf_buffer(ms@),
    ensures
        ({
            let all = all_samples(ms@);
            let d = spec_distinct_pids(all);
            &&& r.0@.len() == d.len()
            &&& (forall|k: int| 0 <= k < d.len() ==> (#[trigger] r.0@[k]).0 == d[k])
            &&& (forall|k: int|
                0 <= k < d.len() ==> (#[trigger] r.0@[k]).1 as int == pid_cpu_sum(all, d[k]))
            &&& (forall|k: int|
                0 <= k < d.len() ==> (#[trigger] r.0@[k]).2 as int == pid_mem_sum(all, d[k]))
            &&& r.1 as int == sum_cpu(all)
            &&& r.2 as int == sum_mem_bytes(all)
        }),
{
    let nb = ms.len();
    let mut agg: Vec<(u32, u64, u64)> = Vec::new();
    let mut total_cpu: u128 = 0;
    let mut total_mem: u128 = 0;
    let mut bi: usize = 0;
    proof {
        assert(ms@.take(0) =~= Seq::<BatchMetric>::empty());
        assert(all_samples(ms@.take(0)) =~= Seq::<(u32, MetricPoint)>::empty());
    }
    while bi < nb
        invariant
            wf_buffer(ms@),
            nb == ms@.len(),
            0 <= bi <= nb,
            ({
                let proc = all_samples(ms@.take(bi as int));
                let d = spec_distinct_pids(proc);
                &&& agg@.len() == d.len()
                &&& (forall|k: int| 0 <= k < d.len() ==> (#[trigger] agg@[k]).0 == d[k])
                &&& (forall|k: int|
                    0 <= k < d.len() ==> (#[trigger] agg@[k]).1 as int == pid_cpu_sum(proc, d[k]))
                &&& (forall|k: int|
                    0 <= k < d.len() ==> (#[trigger] agg@[k]).2 as int == pid_mem_sum(proc, d[k]))
                &&& total_cpu as int == sum_cpu(proc)
                &&& total_mem as int == sum_mem_bytes(proc)
                &&& total_cpu as int <= (bi as int) * (MAX_CPU_POINT as int)
                &&& total_mem as int <= (bi as int) * (MAX_MEM_POINT_BYTES as int)
            }),
        decreases nb - bi,
    {
        let b = &ms[bi];
        let nsamp = b.metrics.len();
        let mut si: usize = 0;
        proof {
            assert(b.metrics@.take(0) =~= Seq::<(u32, MetricPoint)>::empty());
            lemma_pid_sums_concat_all(all_samples(ms@.take(bi as int)), b.metrics@.take(0));
        }
        while si < nsamp
            invariant
                wf_buffer(ms@),
                nb == ms@.len(),
                0 <= bi < nb,
                b == ms@[bi as int],
                nsamp == b.metrics@.len(),
                0 <= si <= nsamp,
                ({
                    let proc = all_samples(ms@.take(bi as int)) + b.metrics@.take(si as int);
                    let d = spec_distinct_pids(proc);
                    &&& agg@.len() == d.len()
                    &&& (forall|k: int| 0 <= k < d.len() ==> (#[trigger] agg@[k]).0 == d[k])
                    &&& (forall|k: int|
                        0 <= k < d.len() ==> (#[trigger] agg@[k]).1 as int == pid_cpu_sum(
                            proc,
                            d[k],
                        ))
                    &&& (forall|k: int|
                        0 <= k < d.len() ==> (#[trigger] agg@[k]).2 as int == pid_mem_sum(
                            proc,
                            d[k],
                        ))
                }),
            decreases nsamp - si,
        {
            let pid = b.metrics[si].0;
            let cpu = b.metrics[si].1.cpu_milli;
            let mem = b.metrics[si].1.effective_memory();
            let ghost proc = all_samples(ms@.take(bi as int)) + b.metrics@.take(si as int);
            let ghost procn = all_samples(ms@.take(bi as int)) + b.metrics@.take(si + 1);
            proof {
                assert(b.metrics@.take(si + 1) =~= b.metrics@.take(si as int).push(
                    b.metrics@[si as int],
                ));
                assert(procn =~= proc.push(b.metrics@[si as int]));
                lemma_pid_sums_push(proc, b.metrics@[si as int], pid);
                assert(b.metrics@[si as int].0 == pid);
                assert(b.metrics@[si as int].1.wf());
                // bounds for the running per-pid sums
                lemma_take_wf_prefix(ms@, bi as int, si as int);
            }
            // find pid in agg
            let mut k: usize = 0;
            let na = agg.len();
            while k < na && agg[k].0 != pid
                invariant
                    na == agg@.len(),
                    0 <= k <= na,
                    forall|t: int| 0 <= t < k ==> (#[trigger] agg@[t]).0 != pid,
                decreases na - k,
            {
                k = k + 1;
            }
            let found = k < na;
            let ghost d = spec_distinct_pids(proc);
            if found {
                proof {
                    assert(d.contains(agg@[k as int].0));
                    assert(spec_distinct_pids(procn) == d);
                    // per-pid bound over the processed prefix
                    lemma_take_wf_prefix(ms@, bi as int, si as int);
                    // the new entries still satisfy the sum equations
                    lemma_pid_sums_push_other(proc, b.metrics@[si as int], d);
                }
                let entry = agg[k];
                proof {
                    assert(d[k as int] == pid);
                    assert(pid_cpu_sum(
                        all_samples(ms@.take(bi as int)) + b.metrics@.take(si as int),
                        pid,
                    ) <= (bi as int + 1) * MAX_CPU_MILLI);
                    assert(pid_mem_sum(
                        all_samples(ms@.take(bi as int)) + b.metrics@.take(si as int),
                        pid,
                    ) <= (bi as int + 1) * MAX_MEM_BYTES);
                    assert((bi as int + 1) * MAX_CPU_MILLI <= 4_194_304_000_000_000);
                    assert((bi as int + 1) * MAX_MEM_BYTES <= 16_777_216_000_000_000_000);
                }
                agg.set(k, (pid, entry.1 + cpu, entry.2 + mem));
                proof {
                    assert forall|t: int| 0 <= t < d.len() implies (#[trigger] agg@[t]).1 as int
                        == pid_cpu_sum(procn, d[t]) && agg@[t].2 as int == pid_mem_sum(
                        procn,
                        d[t],
                    ) by {
                        lemma_pid_sums_push(proc, b.metrics@[si as int], d[t]);
                        if t != k {
                            lemma_distinct_no_dup(proc);
                            assert(d[k as int] == pid);
                            assert(d[t] != pid);
                        }
                    }
                }
            } else {
                proof {
                    assert forall|t: int| 0 <= t < d.len() implies d[t] != pid by {
                        assert(agg@[t].0 == d[t]);
                    }
                    assert(!d.contains(pid));
                    assert(spec_distinct_pids(procn) == d.push(pid));
                    lemma_pid_sums_absent_of_distinct(proc, pid);
                }
                agg.push((pid, cpu, mem));
                proof {
                    let dn = spec_distinct_pids(procn);
                    assert forall|t: int| 0 <= t < dn.len() implies (#[trigger] agg@[t]).1 as int
                        == pid_cpu_sum(procn, dn[t]) && agg@[t].2 as int == pid_mem_sum(
                        procn,
                        dn[t],
                    ) by {
                        lemma_pid_sums_push(proc, b.metrics@[si as int], dn[t]);
                        if t < d.len() {
                            assert(dn[t] == d[t]);
                            assert(d.contains(d[t]));
                            assert(d[t] != pid);
                        } else {
                            assert(dn[t] == pid);
                        }
                    }
                }
            }
            si = si + 1;
        }
        // fold this batch into the run totals
        let c = batch_cpu_point(b);
        let m = batch_mem_point_bytes(b);
        proof {
            assert(b.metrics@.take(nsamp as int) =~= b.metrics@);
            lemma_all_samples_take(ms@, bi as int);
            lemma_sum_concat(all_samples(ms@.take(bi as int)), b.metrics@);
        }
        total_cpu = total_cpu + (c as u128);
        total_mem = total_mem + (m as u128);
        bi = bi + 1;
    }
    proof {
        assert(ms@.take(nb as int) =~= ms@);
    }
    (agg, total_cpu, total_mem)
}

/// Helper: concatenating an empty tail changes nothing.
proof fn lemma_pid_sums_concat_all(a: Seq<(u32, MetricPoint)>, b: Seq<(u32, MetricPoint)>)
    requires
        b.len() == 0,
    ensures
        a + b =~= a,
{
}

/// Helper: every id in the distinct list of a sample list keeps its sums when
/// a sample with a different id is appended.
proof fn lemma_pid_sums_push_other(
    s: Seq<(u32, MetricPoint)>,
    x: (u32, MetricPoint),
    d: Seq<u32>,
)
    ensures
        forall|t: int|
            0 <= t < d.len() && d[t] != x.0 ==> pid_cpu_sum(s.push(x), d[t]) == pid_cpu_sum(
                s,
                d[t],
            ) && pid_mem_sum(s.push(x), d[t]) == pid_mem_sum(s, d[t]),
{
    assert forall|t: int| 0 <= t < d.len() && d[t] != x.0 implies pid_cpu_sum(s.push(x), d[t])
        == pid_cpu_sum(s, d[t]) && pid_mem_sum(s.push(x), d[t]) == pid_mem_sum(s, d[t]) by {
        lemma_pid_sums_push(s, x, d[t]);
    }
}

/// Helper: an id that never occurs in a sample list has zero sums there.
proof fn lemma_pid_sums_absent_of_distinct(s: Seq<(u32, MetricPoint)>, pid: u32)
    requires
        !spec_distinct_pids(s).contains(pid),
    ensures
        pid_cpu_sum(s, pid) == 0,
        pid_mem_sum(s, pid) == 0,
    decreases s.len(),
{
    if s.len() > 0 {
        let t = s.drop_last();
        let d = spec_distinct_pids(t);
        if d.contains(s.last().0) {
            assert(spec_distinct_pids(s) == d);
        } else {
            assert(spec_distinct_pids(s) == d.push(s.last().0));
            assert(spec_distinct_pids(s).contains(s.last().0)) by {
                assert(spec_distinct_pids(s)[d.len() as int] == s.last().0);
            }
        }
        assert(!d.contains(pid)) by {
            if d.contains(pid) {
                let j = choose|j: int| 0 <= j < d.len() && d[j] == pid;
                if spec_distinct_pids(s) == d {
                    assert(spec_distinct_pids(s)[j] == pid);
                } else {
                    assert(spec_distinct_pids(s)[j] == pid);
                }
            }
        }
        lemma_pid_sums_absent_of_distinct(t, pid);
        assert(s.last().0 != pid);
    }
}

/// Helper: a prefix of a well-formed buffer plus a batch prefix is made of
/// well-formed, per-batch-unique samples; the per-pid sums over it are bounded.
proof fn lemma_take_wf_prefix(bs: Seq<BatchMetric>, bi: int, si: int)
    requires
        wf_buffer(bs),
        0 <= bi < bs.len(),
        0 <= si <= bs[bi].metrics@.len(),
    ensures
        forall|pid: u32|
            0 <= #[trigger] pid_cpu_sum(
                all_samples(bs.take(bi)) + bs[bi].metrics@.take(si),
                pid,
            ) <= (bi + 1) * MAX_CPU_MILLI,
        forall|pid: u32|
            0 <= #[trigger] pid_mem_sum(
                all_samples(bs.take(bi)) + bs[bi].metrics@.take(si),
                pid,
            ) <= (bi + 1) * MAX_MEM_BYTES,
{
    let pre = bs.take(bi);
    let part = bs[bi].metrics@.take(si);
    assert(forall|i: int| 0 <= i < pre.len() ==> (#[trigger] pre[i]).wf());
    assert(bs[bi].wf());
    assert(forall|i: int, j: int|
        0 <= i < j < part.len() ==> (#[trigger] part[i]).0 != (#[trigger] part[j]).0);
    assert(forall|i: int| 0 <= i < part.len() ==> (#[trigger] part[i]).1.wf());
    assert(bi * MAX_CPU_MILLI + MAX_CPU_MILLI == (bi + 1) * MAX_CPU_MILLI) by (nonlinear_arith);
    assert(bi * MAX_MEM_BYTES + MAX_MEM_BYTES == (bi + 1) * MAX_MEM_BYTES) by (nonlinear_arith);
    assert forall|pid: u32|
        0 <= #[trigger] pid_cpu_sum(all_samples(bs.take(bi)) + bs[bi].metrics@.take(si), pid) <= (
    bi + 1) * MAX_CPU_MILLI by {
        lemma_pid_sums_buffer(pre, pid);
        lemma_pid_sums_unique_batch(part, pid);
        lemma_pid_sums_concat(all_samples(pre), part, pid);
    }
    assert forall|pid: u32|
        0 <= #[trigger] pid_mem_sum(all_samples(bs.take(bi)) + bs[bi].metrics@.take(si), pid) <= (
    bi + 1) * MAX_MEM_BYTES by {
        lemma_pid_sums_buffer(pre, pid);
        lemma_pid_sums_unique_batch(part, pid);
        lemma_pid_sums_concat(all_samples(pre), part, pid);
    }
}

/// Build the contributor records from the per-process aggregates.
#[verifier::loop_isolation(false)]
fn finalize_contributors(
    agg: &Vec<(u32, u64, u64)>,
    total_cpu: u128,
    total_mem: u128,
    n: usize,
    Ghost(bs): Ghost<Seq<BatchMetric>>,
) -> (r: Vec<Contributor>)
    requires
        wf_buffer(bs),
        1 <= n,
        n == bs.len(),
        ({
            let all = all_samples(bs);
            let d = spec_distinct_pids(all);
            &&& agg@.len() == d.len()
            &&& (forall|k: int| 0 <= k < d.len() ==> (#[trigger] agg@[k]).0 == d[k])
            &&& (forall|k: int|
                0 <= k < d.len() ==> (#[trigger] agg@[k]).1 as int == pid_cpu_sum(all, d[k]))
            &&& (forall|k: int|
                0 <= k < d.len() ==> (#[trigger] agg@[k]).2 as int == pid_mem_sum(all, d[k]))
            &&& total_cpu as int == sum_cpu(all)
            &&& total_mem as int == sum_mem_bytes(all)
        }),
    ensures
        r@ == spec_contributors(bs),
{
    let ghost all = all_samples(bs);
    let ghost d = spec_distinct_pids(all);
    let na = agg.len();
    let mut out: Vec<Contributor> = Vec::new();
    let mut k: usize = 0;
    while k < na
        invariant
            0 <= k <= na,
            out@.len() == k,
            forall|t: int| 0 <= t < k ==> (#[trigger] out@[t]) == spec_contributor(bs, d[t]),
        decreases na - k,
    {
        let entry = agg[k];
        let ghost pid = d[k as int];
        proof {
            assert(entry.0 == pid);
            lemma_pid_sum_le_total(all, pid);
            lemma_pid_sums_buffer(bs, pid);
            assert((n as int) * MAX_CPU_MILLI <= 4_194_304_000_000_000);
            assert((n as int) * MAX_MEM_BYTES <= 16_777_216_000_000_000_000);
        }
        let avg_cpu: u64 = entry.1 / (n as u64);
        let cpu_share: u64 = if total_cpu > 0 {
            let sh: u128 = (entry.1 as u128) * 1000 / total_cpu;
            proof {
                assert((entry.1 as int) * 1000 <= (total_cpu as int) * 1000) by (nonlinear_arith)
                    requires
                        entry.1 as int <= total_cpu as int,
                ;
                vstd::arithmetic::div_mod::lemma_div_is_ordered(
                    (entry.1 as int) * 1000,
                    (total_cpu as int) * 1000,
                    total_cpu as int,
                );
                vstd::arithmetic::div_mod::lemma_div_multiples_vanish(1000, total_cpu as int);
                assert((total_cpu as int) * 1000 == 1000 * (total_cpu as int)) by (nonlinear_arith);
                vstd::arithmetic::div_mod::lemma_div_is_ordered(
                    0,
                    (entry.1 as int) * 1000,
                    total_cpu as int,
                );
            }
            sh as u64
        } else {
            0
        };
        let mem_avg: u128 = (entry.2 as u128) * 1000 / ((0x100000 as u128) * (n as u128));
        proof {
            assert((0x100000 as int) * (n as int) >= 0x100000) by (nonlinear_arith)
                requires
                    n >= 1,
            ;
            vstd::arithmetic::div_mod::lemma_div_is_ordered_by_denominator(
                (entry.2 as int) * 1000,
                0x100000,
                (0x100000 as int) * (n as int),
            );
            vstd::arithmetic::div_mod::lemma_div_is_ordered(
                (entry.2 as int) * 1000,
                16_777_216_000_000_000_000_000,
                0x100000,
            );
            vstd::arithmetic::div_mod::lemma_div_is_ordered(
                0,
                (entry.2 as int) * 1000,
                (0x100000 as int) * (n as int),
            );
        }
        let avg_mem: u64 = mem_avg as u64;
        let mem_share: u64 = if total_mem > 0 {
            let sh: u128 = (entry.2 as u128) * 1000 / total_mem;
            proof {
                assert((entry.2 as int) * 1000 <= (total_mem as int) * 1000) by (nonlinear_arith)
                    requires
                        entry.2 as int <= total_mem as int,
                ;
                vstd::arithmetic::div_mod::lemma_div_is_ordered(
                    (entry.2 as int) * 1000,
                    (total_mem as int) * 1000,
                    total_mem as int,
                );
                vstd::arithmetic::div_mod::lemma_div_multiples_vanish(1000, total_mem as int);
                assert((total_mem as int) * 1000 == 1000 * (total_mem as int)) by (nonlinear_arith);
                vstd::arithmetic::div_mod::lemma_div_is_ordered(
                    0,
                    (entry.2 as int) * 1000,
                    total_mem as int,
                );
            }
            sh as u64
        } else {
            0
        };
        let c = Contributor {
            pid: entry.0,
            avg_cpu_milli: avg_cpu,
            cpu_share_milli: cpu_share,
            avg_mem_milli_mb: avg_mem,
            mem_share_milli: mem_share,
        };
        proof {
            vstd::arithmetic::div_mod::lemma_div_is_ordered(0, entry.1 as int, n as int);
            assert(c == spec_contributor(bs, pid));
        }
        out.push(c);
        k = k + 1;
    }
    proof {
        assert(out@ =~= spec_contributors(bs));
    }
    out
}

// ---------------------------------------------------------------------------
// Top-consumer ranking
// ---------------------------------------------------------------------------

/// Ranking order on `(key, original index)` pairs: larger keys first, ties by
/// original position (so equal keys keep first-appearance order).
pub open spec fn desc_leq(a: (u64, usize), b: (u64, usize)) -> bool {
    a.0 > b.0 || (a.0 == b.0 && a.1 <= b.1)
}

pub open spec fn spec_key_pairs(keys: Seq<u64>) -> Seq<(u64, usize)> {
    Seq::new(keys.len(), |i: int| (keys[i], i as usize))
}

/// The ranking permutation for a key sequence.
pub open spec fn spec_rank(keys: Seq<u64>) -> Seq<(u64, usize)> {
    spec_key_pairs(keys).sort_by(|a: (u64, usize), b: (u64, usize)| desc_leq(a, b))
}

/// The top five entries by key, ties resolved toward earlier entries.
pub open spec fn spec_top5(cs: Seq<Contributor>, keys: Seq<u64>) -> Seq<Contributor> {
    spec_rank(keys).take(
        if keys.len() < 5 {
            keys.len() as int
        } else {
            5
        },
    ).map_values(|p: (u64, usize)| cs[p.1 as int])
}

proof fn lemma_desc_total()
    ensures
        total_ordering(|a: (u64, usize), b: (u64, usize)| desc_leq(a, b)),
{
    let leq = |a: (u64, usize), b: (u64, usize)| desc_leq(a, b);
    assert forall|a: (u64, usize), b: (u64, usize)| #[trigger] leq(a, b) && #[trigger] leq(b, a)
        implies a == b by {
        assert(a.0 == b.0 && a.1 == b.1);
    }
    assert(vstd::relations::reflexive(leq));
    assert(vstd::relations::transitive(leq));
    assert(vstd::relations::strongly_connected(leq));
}

proof fn lemma_rank(keys: Seq<u64>)
    requires
        keys.len() <= usize::MAX,
    ensures
        spec_rank(keys).len() == keys.len(),
        sorted_by(spec_rank(keys), |a: (u64, usize), b: (u64, usize)| desc_leq(a, b)),
        spec_rank(keys).to_multiset() =~= spec_key_pairs(keys).to_multiset(),
        forall|r: int|
            0 <= r < keys.len() ==> (#[trigger] spec_rank(keys)[r]).1 < keys.len()
                && spec_rank(keys)[r] == (keys[spec_rank(keys)[r].1 as int], spec_rank(keys)[r].1),
{
    let leq = |a: (u64, usize), b: (u64, usize)| desc_leq(a, b);
    lemma_desc_total();
    let pairs = spec_key_pairs(keys);
    pairs.lemma_sort_by_ensures(leq);
    let ranked = spec_rank(keys);
    assert(ranked.to_multiset().len() == ranked.len());
    assert(pairs.to_multiset().len() == pairs.len());
    assert forall|r: int|
        0 <= r < keys.len() implies (#[trigger] ranked[r]).1 < keys.len() && ranked[r] == (
    keys[ranked[r].1 as int], ranked[r].1) by {
        assert(ranked.contains(ranked[r]));
        assert(ranked.to_multiset().count(ranked[r]) > 0);
        assert(pairs.to_multiset().count(ranked[r]) > 0);
        assert(pairs.contains(ranked[r]));
        let i = choose|i: int| 0 <= i < pairs.len() && pairs[i] == ranked[r];
        assert(pairs[i] == (keys[i], i as usize));
    }
}

/// Sort `(key, index)` pairs into ranking order (insertion sort).
fn rank_pairs(keys: &Vec<u64>) -> (r: Vec<(u64, usize)>)
    ensures
        r@ == spec_rank(keys@),
{
    let n = keys.len();
    let mut pairs: Vec<(u64, usize)> = Vec::new();
    let mut i: usize = 0;
    while i < n
        invariant
            n == keys@.len(),
            0 <= i <= n,
            pairs@.len() == i,
            forall|t: int| 0 <= t < i ==> (#[trigger] pairs@[t]) == (keys@[t], t as usize),
        decreases n - i,
    {
        pairs.push((keys[i], i));
        i = i + 1;
    }
    proof {
        assert(pairs@ =~= spec_key_pairs(keys@));
    }
    let mut out: Vec<(u64, usize)> = Vec::new();
    let mut i: usize = 0;
    proof {
        assert(pairs@.take(0) =~= Seq::<(u64, usize)>::empty());
        assert(pairs@.take(0).to_multiset() =~= out@.to_multiset());
    }
    while i < n
        invariant
            n == pairs@.len(),
            0 <= i <= n,
            out@.len() == i,
            out@.to_multiset() == pairs@.take(i as int).to_multiset(),
            sorted_by(out@, |a: (u64, usize), b: (u64, usize)| desc_leq(a, b)),
        decreases n - i,
    {
        let x = pairs[i];
        let m = out.len();
        let mut j: usize = 0;
        while j < m && (out[j].0 > x.0 || (out[j].0 == x.0 && out[j].1 <= x.1))
            invariant
                m == out@.len(),
                0 <= j <= m,
                forall|t: int| 0 <= t < j ==> desc_leq(#[trigger] out@[t], x),
            decreases m - j,
        {
            j = j + 1;
        }
        proof {
            assert(j == m || !desc_leq(out@[j as int], x));
        }
        let ghost old_out = out@;
        out.insert(j, x);
        proof {
            let leq = |a: (u64, usize), b: (u64, usize)| desc_leq(a, b);
            assert(out@ == old_out.insert(j as int, x));
            old_out.insert_ensures(j as int, x);
            lemma_desc_total();
            assert forall|a: int, b: int| 0 <= a < b < out@.len() implies #[trigger] leq(
                out@[a],
                out@[b],
            ) by {
                if a < j && b < j {
                    assert(leq(old_out[a], old_out[b]));
                } else if a < j && b == j {
                    assert(out@[a] == old_out[a]);
                    assert(desc_leq(old_out[a], x));
                } else if a < j && b > j {
                    assert(out@[b] == old_out[b - 1]);
                    if a < b - 1 {
                        assert(leq(old_out[a], old_out[b - 1]));
                    } else {
                        assert(desc_leq(old_out[a], x));
                        assert(!desc_leq(old_out[j as int], x));
                        assert(desc_leq(x, old_out[j as int]));
                    }
                } else if a == j {
                    assert(out@[b] == old_out[b - 1]);
                    assert(!desc_leq(old_out[j as int], x));
                    assert(desc_leq(x, old_out[j as int]));
                    if b - 1 > j {
                        assert(leq(old_out[j as int], old_out[b - 1]));
                    }
                } else {
                    assert(out@[a] == old_out[a - 1]);
                    assert(out@[b] == old_out[b - 1]);
                    assert(leq(old_out[a - 1], old_out[b - 1]));
                }
            }
            assert(out@.to_multiset() == old_out.to_multiset().insert(x));
            assert(pairs@.take(i + 1).drop_last() =~= pairs@.take(i as int));
            assert(pairs@.take(i + 1) =~= pairs@.take(i as int).push(x));
            assert(pairs@.take(i + 1).to_multiset() == pairs@.take(i as int).to_multiset().insert(
                x,
            ));
        }
        i = i + 1;
    }
    proof {
        let leq = |a: (u64, usize), b: (u64, usize)| desc_leq(a, b);
        assert(pairs@.take(n as int) =~= pairs@);
        lemma_desc_total();
        pairs@.lemma_sort_by_ensures(leq);
        lemma_sorted_unique(out@, spec_rank(keys@), leq);
    }
    out
}

/// Keep the top five contributors by the given key.
fn top_five(cs: &Vec<Contributor>, keys: &Vec<u64>) -> (r: Vec<Contributor>)
    requires
        keys@.len() == cs@.len(),
    ensures
        r@ == spec_top5(cs@, keys@),
{
    let ranked = rank_pairs(keys);
    let nk = keys.len();
    proof {
        assert(keys@.len() == nk);
        lemma_rank(keys@);
    }
    let limit = if cs.len() < 5 {
        cs.len()
    } else {
        5
    };
    let mut out: Vec<Contributor> = Vec::new();
    let mut r: usize = 0;
    while r < limit
        invariant
            limit <= cs@.len(),
            keys@.len() == cs@.len(),
            ranked@ == spec_rank(keys@),
            ranked@.len() == keys@.len(),
            forall|t: int|
                0 <= t < keys@.len() ==> (#[trigger] spec_rank(keys@)[t]).1 < keys@.len(),
            0 <= r <= limit,
            out@.len() == r,
            forall|t: int| 0 <= t < r ==> (#[trigger] out@[t]) == cs@[ranked@[t].1 as int],
        decreases limit - r,
    {
        proof {
            assert((spec_rank(keys@)[r as int]).1 < keys@.len());
        }
        let idx = ranked[r].1;
        out.push(cs[idx]);
        r = r + 1;
    }
    proof {
        assert(out@ =~= spec_top5(cs@, keys@));
    }
    out
}

// ---------------------------------------------------------------------------
// The report
// ---------------------------------------------------------------------------

/// The all-zero summary reported for an empty run.
pub open spec fn spec_zero_summary() -> MetricSummary {
    MetricSummary {
        avg_cpu_milli: 0,
        max_cpu_milli: 0,
        p50_cpu_milli: 0,
        p90_cpu_milli: 0,
        p95_cpu_milli: 0,
        p99_cpu_milli: 0,
        cpu_stddev_milli: 0,
        cpu_high_ratio_30_milli: 0,
        cpu_high_ratio_60_milli: 0,
        avg_mem_milli_mb: 0,
        max_mem_milli_mb: 0,
        p50_mem_milli_mb: 0,
        p90_mem_milli_mb: 0,
        p95_mem_milli_mb: 0,
        p99_mem_milli_mb: 0,
        mem_stddev_milli_mb: 0,
        mem_high_ratio_512mb_milli: 0,
        mem_high_ratio_1024mb_milli: 0,
        mem_growth_rate_milli: 0,
    }
}

/// The summary of a buffer.
pub open spec fn spec_summary(bs: Seq<BatchMetric>) -> MetricSummary {
    if bs.len() == 0 {
        spec_zero_summary()
    } else {
        let cpu = spec_cpu_points(bs);
        let mem = spec_mem_points(bs);
        let n = bs.len() as int;
        MetricSummary {
            avg_cpu_milli: spec_mean(cpu) as u64,
            max_cpu_milli: spec_sorted_asc(cpu)[n - 1],
            p50_cpu_milli: spec_percentile(cpu, 50),
            p90_cpu_milli: spec_percentile(cpu, 90),
            p95_cpu_milli: spec_percentile(cpu, 95),
            p99_cpu_milli: spec_percentile(cpu, 99),
            cpu_stddev_milli: spec_stddev(cpu) as u64,
            cpu_high_ratio_30_milli: spec_ratio_milli(count_above(cpu, 30_000), n) as u64,
            cpu_high_ratio_60_milli: spec_ratio_milli(count_above(cpu, 60_000), n) as u64,
            avg_mem_milli_mb: spec_mean(mem) as u64,
            max_mem_milli_mb: spec_sorted_asc(mem)[n - 1],
            p50_mem_milli_mb: spec_percentile(mem, 50),
            p90_mem_milli_mb: spec_percentile(mem, 90),
            p95_mem_milli_mb: spec_percentile(mem, 95),
            p99_mem_milli_mb: spec_percentile(mem, 99),
            mem_stddev_milli_mb: spec_stddev(mem) as u64,
            mem_high_ratio_512mb_milli: spec_ratio_milli(count_above(mem, 512_000), n) as u64,
            mem_high_ratio_1024mb_milli: spec_ratio_milli(count_above(mem, 1_024_000), n) as u64,
            mem_growth_rate_milli: spec_slope_report(
                spec_slope_num(mem),
                spec_slope_den(n),
            ) as i64,
        }
    }
}

/// The reported score of a buffer: 0 for an empty run.
pub open spec fn spec_report_score(bs: Seq<BatchMetric>) -> int {
    if bs.len() == 0 {
        0
    } else {
        let cpu = spec_cpu_points(bs);
        let mem = spec_mem_points(bs);
        let n = bs.len() as int;
        spec_score(
            spec_mean(cpu),
            spec_sorted_asc(cpu)[n - 1] as int,
            count_above(cpu, 60_000),
            count_above(mem, 1_024_000),
            n,
            spec_slope_num(mem),
            spec_slope_den(n),
        )
    }
}

/// The reported insight lines of a buffer.
pub open spec fn spec_report_insights(bs: Seq<BatchMetric>) -> Seq<Seq<char>> {
    if bs.len() == 0 {
        seq![spec_txt_no_data()]
    } else {
        let cpu = spec_cpu_points(bs);
        let mem = spec_mem_points(bs);
        let n = bs.len() as int;
        spec_insights(
            spec_mean(cpu),
            spec_sorted_asc(cpu)[n - 1] as int,
            count_above(cpu, 60_000),
            count_above(mem, 1_024_000),
            n,
            spec_slope_num(mem),
            spec_slope_den(n),
            spec_slope_report(spec_slope_num(mem), spec_slope_den(n)),
        )
    }
}

/// The reported top CPU consumers of a buffer.
pub open spec fn spec_top_cpu(bs: Seq<BatchMetric>) -> Seq<Contributor> {
    spec_top5(
        spec_contributors(bs),
        spec_contributors(bs).map_values(|c: Contributor| c.avg_cpu_milli),
    )
}

/// The reported top memory consumers of a buffer.
pub open spec fn spec_top_mem(bs: Seq<BatchMetric>) -> Seq<Contributor> {
    spec_top5(
        spec_contributors(bs),
        spec_contributors(bs).map_values(|c: Contributor| c.avg_mem_milli_mb),
    )
}

/// Everything `analyze` promises of its report: each part of the report is a
/// function of the buffer alone.
pub open spec fn analyze_post(bs: Seq<BatchMetric>, r: AnalysisReport) -> bool {
    &&& r.summary == spec_summary(bs)
    &&& r.score as int == spec_report_score(bs)
    &&& r.top_cpu@ == spec_top_cpu(bs)
    &&& r.top_mem@ == spec_top_mem(bs)
    &&& strings_match(r.insights@, spec_report_insights(bs))
}

/// Analyze a completed run buffer: percentiles, deviation, threshold ratios,
/// memory trend, health score with insight lines, and top consumers.
///
/// An empty buffer yields score 0, an all-zero summary and the single insight
/// "No data collected"; this is the producible floor, not a failure.
pub fn analyze(metrics: &Vec<BatchMetric>) -> (r: AnalysisReport)
    requires
        wf_buffer(metrics@),
    ensures
        analyze_post(metrics@, r),
{
    let n = metrics.len();
    if n == 0 {
        let mut ins: Vec<String> = Vec::new();
        ins.push(String::from_str("No data collected"));
        let report = AnalysisReport {
            score: 0,
            summary: MetricSummary {
                avg_cpu_milli: 0,
                max_cpu_milli: 0,
                p50_cpu_milli: 0,
                p90_cpu_milli: 0,
                p95_cpu_milli: 0,
                p99_cpu_milli: 0,
                cpu_stddev_milli: 0,
                cpu_high_ratio_30_milli: 0,
                cpu_high_ratio_60_milli: 0,
                avg_mem_milli_mb: 0,
                max_mem_milli_mb: 0,
                p50_mem_milli_mb: 0,
                p90_mem_milli_mb: 0,
                p95_mem_milli_mb: 0,
                p99_mem_milli_mb: 0,
                mem_stddev_milli_mb: 0,
                mem_high_ratio_512mb_milli: 0,
                mem_high_ratio_1024mb_milli: 0,
                mem_growth_rate_milli: 0,
            },
            top_cpu: Vec::new(),
            top_mem: Vec::new(),
            insights: ins,
        };
        proof {
            assert(spec_contributors(metrics@) =~= Seq::<Contributor>::empty());
            assert(spec_top_cpu(metrics@) =~= Seq::<Contributor>::empty());
            assert(spec_top_mem(metrics@) =~= Seq::<Contributor>::empty());
        }
        return report;
    }
    let (cpu_points, mem_points) = compute_points(metrics);
    let sorted_cpu = sort_points(&cpu_points);
    let sorted_mem = sort_points(&mem_points);
    let avg_cpu = mean_points(&cpu_points, MAX_CPU_POINT);
    let avg_mem = mean_points(&mem_points, MAX_MEM_POINT_MILLI);
    let max_cpu = sorted_cpu[n - 1];
    let max_mem = sorted_mem[n - 1];
    proof {
        lemma_sorted_asc(cpu_points@);
        assert(cpu_points@.to_multiset().contains(sorted_cpu@[n as int - 1]));
        assert(cpu_points@.contains(sorted_cpu@[n as int - 1]));
        let kc = choose|k: int|
            0 <= k < cpu_points@.len() && cpu_points@[k] == sorted_cpu@[n as int - 1];
        assert(cpu_points@[kc] <= MAX_CPU_POINT);
        lemma_sorted_asc(mem_points@);
        assert(mem_points@.to_multiset().contains(sorted_mem@[n as int - 1]));
        assert(mem_points@.contains(sorted_mem@[n as int - 1]));
        let km = choose|k: int|
            0 <= k < mem_points@.len() && mem_points@[k] == sorted_mem@[n as int - 1];
        assert(mem_points@[km] <= MAX_MEM_POINT_MILLI);
    }
    let p50_cpu = percentile_from_sorted(&sorted_cpu, 50);
    let p90_cpu = percentile_from_sorted(&sorted_cpu, 90);
    let p95_cpu = percentile_from_sorted(&sorted_cpu, 95);
    let p99_cpu = percentile_from_sorted(&sorted_cpu, 99);
    let p50_mem = percentile_from_sorted(&sorted_mem, 50);
    let p90_mem = percentile_from_sorted(&sorted_mem, 90);
    let p95_mem = percentile_from_sorted(&sorted_mem, 95);
    let p99_mem = percentile_from_sorted(&sorted_mem, 99);
    let sd_cpu = stddev_points(&cpu_points, avg_cpu, MAX_CPU_POINT);
    let sd_mem = stddev_points(&mem_points, avg_mem, MAX_MEM_POINT_MILLI);
    let c30 = count_points_above(&cpu_points, 30_000);
    let c60 = count_points_above(&cpu_points, 60_000);
    let c512 = count_points_above(&mem_points, 512_000);
    let c1024 = count_points_above(&mem_points, 1_024_000);
    let r30 = ratio_milli(c30, n);
    let r60 = ratio_milli(c60, n);
    let r512 = ratio_milli(c512, n);
    let r1024 = ratio_milli(c1024, n);
    let (num, den) = slope_parts(&mem_points);
    let slope_val = slope_report_value(num, den);
    let (score, insights) = score_and_insights(
        avg_cpu,
        max_cpu,
        c60,
        c1024,
        n,
        num,
        den,
        slope_val,
    );
    let (agg, total_cpu, total_mem) = aggregate_by_pid(metrics);
    let contribs = finalize_contributors(&agg, total_cpu, total_mem, n, Ghost(metrics@));
    let nc = contribs.len();
    let mut cpu_keys: Vec<u64> = Vec::new();
    let mut mem_keys: Vec<u64> = Vec::new();
    let mut i: usize = 0;
    while i < nc
        invariant
            nc == contribs@.len(),
            0 <= i <= nc,
            cpu_keys@.len() == i,
            mem_keys@.len() == i,
            forall|t: int| 0 <= t < i ==> (#[trigger] cpu_keys@[t]) == contribs@[t].avg_cpu_milli,
            forall|t: int| 0 <= t < i ==> (#[trigger] mem_keys@[t]) == contribs@[t].avg_mem_milli_mb,
        decreases nc - i,
    {
        cpu_keys.push(contribs[i].avg_cpu_milli);
        mem_keys.push(contribs[i].avg_mem_milli_mb);
        i = i + 1;
    }
    proof {
        assert(cpu_keys@ =~= spec_contributors(metrics@).map_values(
            |c: Contributor| c.avg_cpu_milli,
        ));
        assert(mem_keys@ =~= spec_contributors(metrics@).map_values(
            |c: Contributor| c.avg_mem_milli_mb,
        ));
    }
    let top_cpu = top_five(&contribs, &cpu_keys);
    let top_mem = top_five(&contribs, &mem_keys);
    let summary = MetricSummary {
        avg_cpu_milli: avg_cpu,
        max_cpu_milli: max_cpu,
        p50_cpu_milli: p50_cpu,
        p90_cpu_milli: p90_cpu,
        p95_cpu_milli: p95_cpu,
        p99_cpu_milli: p99_cpu,
        cpu_stddev_milli: sd_cpu,
        cpu_high_ratio_30_milli: r30,
        cpu_high_ratio_60_milli: r60,
        avg_mem_milli_mb: avg_mem,
        max_mem_milli_mb: max_mem,
        p50_mem_milli_mb: p50_mem,
        p90_mem_milli_mb: p90_mem,
        p95_mem_milli_mb: p95_mem,
        p99_mem_milli_mb: p99_mem,
        mem_stddev_milli_mb: sd_mem,
        mem_high_ratio_512mb_milli: r512,
        mem_high_ratio_1024mb_milli: r1024,
        mem_growth_rate_milli: slope_val,
    };
    AnalysisReport { score, summary, top_cpu, top_mem, insights }
}

// ---------------------------------------------------------------------------
// Laws
// ---------------------------------------------------------------------------

/// For every non-empty point series, the percentiles are ordered between the
/// smallest and the largest point:
/// `min(series) <= p50 <= p90 <= p95 <= p99 <= max(series)`.
pub proof fn lemma_percentile_order(s: Seq<u64>)
    requires
        1 <= s.len(),
    ensures
        forall|i: int|
            0 <= i < s.len() ==> spec_sorted_asc(s)[0] <= #[trigger] s[i] <= spec_sorted_asc(
                s,
            )[s.len() - 1],
        spec_sorted_asc(s)[0] <= spec_percentile(s, 50),
        spec_percentile(s, 50) <= spec_percentile(s, 90),
        spec_percentile(s, 90) <= spec_percentile(s, 95),
        spec_percentile(s, 95) <= spec_percentile(s, 99),
        spec_percentile(s, 99) <= spec_sorted_asc(s)[s.len() - 1],
{
    let n = s.len() as int;
    let t = spec_sorted_asc(s);
    lemma_sorted_asc(s);
    lemma_pct_index_bounds(n, 50);
    lemma_pct_index_bounds(n, 90);
    lemma_pct_index_bounds(n, 95);
    lemma_pct_index_bounds(n, 99);
    lemma_pct_index_monotone(n, 50, 90);
    lemma_pct_index_monotone(n, 90, 95);
    lemma_pct_index_monotone(n, 95, 99);
    assert forall|i: int| 0 <= i < s.len() implies t[0] <= #[trigger] s[i] <= t[n - 1] by {
        assert(s.contains(s[i]));
        assert(s.to_multiset().count(s[i]) > 0);
        assert(t.to_multiset().count(s[i]) > 0);
        assert(t.contains(s[i]));
        let k = choose|k: int| 0 <= k < t.len() && t[k] == s[i];
        assert(t[0] <= t[k]);
        assert(t[k] <= t[n - 1]);
    }
}

/// The report's percentile fields are ordered between the smallest and the
/// largest per-timestamp total, for both series: each percentile is at least
/// the 50th and at most the maximum, and no total falls outside the
/// minimum-maximum band.
pub proof fn lemma_summary_percentiles_ordered(bs: Seq<BatchMetric>)
    requires
        1 <= bs.len(),
    ensures
        spec_summary(bs).p50_cpu_milli <= spec_summary(bs).p90_cpu_milli,
        spec_summary(bs).p90_cpu_milli <= spec_summary(bs).p95_cpu_milli,
        spec_summary(bs).p95_cpu_milli <= spec_summary(bs).p99_cpu_milli,
        spec_summary(bs).p99_cpu_milli <= spec_summary(bs).max_cpu_milli,
        forall|i: int|
            0 <= i < bs.len() ==> #[trigger] spec_cpu_points(bs)[i] <= spec_summary(
                bs,
            ).max_cpu_milli,
        spec_summary(bs).p50_mem_milli_mb <= spec_summary(bs).p90_mem_milli_mb,
        spec_summary(bs).p90_mem_milli_mb <= spec_summary(bs).p95_mem_milli_mb,
        spec_summary(bs).p95_mem_milli_mb <= spec_summary(bs).p99_mem_milli_mb,
        spec_summary(bs).p99_mem_milli_mb <= spec_summary(bs).max_mem_milli_mb,
        forall|i: int|
            0 <= i < bs.len() ==> #[trigger] spec_mem_points(bs)[i] <= spec_summary(
                bs,
            ).max_mem_milli_mb,
{
    lemma_percentile_order(spec_cpu_points(bs));
    lemma_percentile_order(spec_mem_points(bs));
}

/// The analysis is deterministic: two reports computed from the same buffer
/// agree in every part (recomputing `analyze` cannot change the result).
pub proof fn lemma_analyze_deterministic(
    bs: Seq<BatchMetric>,
    r1: AnalysisReport,
    r2: AnalysisReport,
)
    requires
        analyze_post(bs, r1),
        analyze_post(bs, r2),
    ensures
        r1.score == r2.score,
        r1.summary == r2.summary,
        r1.top_cpu@ == r2.top_cpu@,
        r1.top_mem@ == r2.top_mem@,
        r1.insights@.len() == r2.insights@.len(),
        forall|i: int| 0 <= i < r1.insights@.len() ==> (#[trigger] r1.insights@[i])@ == r2.insights@[i]@,
{
}

/// An empty run yields score 0, the all-zero summary, no contributors, and
/// the single insight "No data collected".
pub proof fn lemma_empty_run_report()
    ensures
        spec_summary(Seq::<BatchMetric>::empty()) == spec_zero_summary(),
        spec_report_score(Seq::<BatchMetric>::empty()) == 0,
        spec_report_insights(Seq::<BatchMetric>::empty()) =~= seq!["No data collected"@],
        spec_top_cpu(Seq::<BatchMetric>::empty()) =~= Seq::<Contributor>::empty(),
        spec_top_mem(Seq::<BatchMetric>::empty()) =~= Seq::<Contributor>::empty(),
{
    assert(spec_contributors(Seq::<BatchMetric>::empty()) =~= Seq::<Contributor>::empty());
}

} // verus!
