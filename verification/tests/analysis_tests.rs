use perf_sight::analysis::analyze;
use perf_sight::models::{BatchMetric, MetricPoint};

fn point(pid: u32, ts: i64, cpu_milli: u64, mem_bytes: u64) -> MetricPoint {
    MetricPoint {
        timestamp_ms: ts,
        pid,
        cpu_milli,
        cpu_os_milli: cpu_milli,
        cpu_chrome_milli: None,
        memory_rss: mem_bytes,
        memory_footprint: None,
        js_heap_size: None,
        memory_private: None,
        custom_metrics: None,
    }
}

fn batch(ts: i64, samples: Vec<(u32, MetricPoint)>) -> BatchMetric {
    BatchMetric { timestamp_ms: ts, metrics: samples }
}

const MB: u64 = 1048576;

#[test]
fn empty_run_yields_zero_report() {
    let report = analyze(&vec![]);
    assert_eq!(report.score, 0);
    assert_eq!(report.summary.avg_cpu_milli, 0);
    assert_eq!(report.summary.max_cpu_milli, 0);
    assert_eq!(report.summary.p50_cpu_milli, 0);
    assert_eq!(report.summary.p99_cpu_milli, 0);
    assert_eq!(report.summary.cpu_stddev_milli, 0);
    assert_eq!(report.summary.avg_mem_milli_mb, 0);
    assert_eq!(report.summary.max_mem_milli_mb, 0);
    assert_eq!(report.summary.mem_growth_rate_milli, 0);
    assert_eq!(report.summary.cpu_high_ratio_30_milli, 0);
    assert_eq!(report.summary.mem_high_ratio_1024mb_milli, 0);
    assert!(report.top_cpu.is_empty());
    assert!(report.top_mem.is_empty());
    assert_eq!(report.insights, vec!["No data collected".to_string()]);
}

#[test]
fn analyze_is_deterministic() {
    let buffer = vec![
        batch(0, vec![(1, point(1, 0, 10_000, 100 * MB))]),
        batch(1, vec![(1, point(1, 1, 90_000, 100 * MB))]),
        batch(2, vec![(1, point(1, 2, 20_000, 700 * MB))]),
    ];
    let a = analyze(&buffer);
    let b = analyze(&buffer);
    assert_eq!(a, b);
}

#[test]
fn end_to_end_three_batches() {
    // total CPU points [10, 90, 20] percent, memory points [100, 100, 700] MB
    let buffer = vec![
        batch(0, vec![(1, point(1, 0, 10_000, 100 * MB))]),
        batch(1, vec![(1, point(1, 1, 90_000, 100 * MB))]),
        batch(2, vec![(1, point(1, 2, 20_000, 700 * MB))]),
    ];
    let report = analyze(&buffer);
    assert_eq!(report.summary.max_cpu_milli, 90_000);
    assert_eq!(report.summary.avg_cpu_milli, 40_000);
    // least-squares slope of [100000, 100000, 700000] milli-MB against [0,1,2]
    assert_eq!(report.summary.mem_growth_rate_milli, 300_000);
    // the CPU spike penalty and the huge growth penalty floor the score
    assert_eq!(report.score, 0);
    assert!(report.insights.iter().any(|s| s.starts_with("CPU spike detected: 90.0%")));
    assert!(report.insights.iter().any(|s| s.starts_with("High Memory Growth detected")));
    assert!(report.insights.contains(&"High Memory Growth detected (+300.00 MB/sample)".to_string()));
}

#[test]
fn percentiles_are_ordered() {
    let cpus: Vec<u64> = vec![77_000, 3_000, 15_000, 42_000, 8_000, 91_000, 26_000];
    let buffer: Vec<BatchMetric> = cpus
        .iter()
        .enumerate()
        .map(|(i, &c)| batch(i as i64, vec![(1, point(1, i as i64, c, 10 * MB))]))
        .collect();
    let report = analyze(&buffer);
    let s = &report.summary;
    assert!(s.p50_cpu_milli <= s.p90_cpu_milli);
    assert!(s.p90_cpu_milli <= s.p95_cpu_milli);
    assert!(s.p95_cpu_milli <= s.p99_cpu_milli);
    assert!(s.p99_cpu_milli <= s.max_cpu_milli);
    assert!(cpus.iter().all(|&c| c <= s.max_cpu_milli));
    assert!(cpus.iter().any(|&c| c == s.max_cpu_milli));
}

#[test]
fn summary_statistics_exact() {
    // CPU 10%, 20%, 30%, 40%: mean 25%, population stddev sqrt(125) ~ 11.180%
    let cpus: Vec<u64> = vec![10_000, 20_000, 30_000, 40_000];
    let buffer: Vec<BatchMetric> = cpus
        .iter()
        .enumerate()
        .map(|(i, &c)| batch(i as i64, vec![(1, point(1, i as i64, c, 50 * MB))]))
        .collect();
    let report = analyze(&buffer);
    let s = &report.summary;
    assert_eq!(s.avg_cpu_milli, 25_000);
    assert_eq!(s.max_cpu_milli, 40_000);
    // nearest-rank percentiles: idx = round((n-1)*p/100) over the sorted series
    assert_eq!(s.p50_cpu_milli, 30_000); // round(1.5) = 2
    assert_eq!(s.p90_cpu_milli, 40_000); // round(2.7) = 3
    assert_eq!(s.p95_cpu_milli, 40_000);
    assert_eq!(s.p99_cpu_milli, 40_000);
    assert_eq!(s.cpu_stddev_milli, 11_180);
    // 2 of 4 points exceed 30% is false (30000 is not > 30000): only 40000
    assert_eq!(s.cpu_high_ratio_30_milli, 250);
    assert_eq!(s.cpu_high_ratio_60_milli, 0);
    // memory is flat: zero slope
    assert_eq!(s.mem_growth_rate_milli, 0);
    assert_eq!(s.avg_mem_milli_mb, 50_000);
    assert_eq!(s.mem_stddev_milli_mb, 0);
}

#[test]
fn effective_memory_prefers_private() {
    let mut p = point(1, 0, 1_000, 100 * MB);
    p.memory_private = Some(300 * MB);
    let buffer = vec![batch(0, vec![(1, p)])];
    let report = analyze(&buffer);
    assert_eq!(report.summary.avg_mem_milli_mb, 300_000);
}

#[test]
fn top_contributors_ranked_and_shared() {
    // pid 1 uses 30% and 100 MB, pid 2 uses 10% and 300 MB, over 2 batches
    let buffer = vec![
        batch(
            0,
            vec![
                (1, point(1, 0, 30_000, 100 * MB)),
                (2, point(2, 0, 10_000, 300 * MB)),
            ],
        ),
        batch(
            1,
            vec![
                (1, point(1, 1, 30_000, 100 * MB)),
                (2, point(2, 1, 10_000, 300 * MB)),
            ],
        ),
    ];
    let report = analyze(&buffer);
    assert_eq!(report.top_cpu.len(), 2);
    assert_eq!(report.top_cpu[0].pid, 1);
    assert_eq!(report.top_cpu[0].avg_cpu_milli, 30_000);
    assert_eq!(report.top_cpu[0].cpu_share_milli, 750);
    assert_eq!(report.top_cpu[1].pid, 2);
    assert_eq!(report.top_cpu[1].cpu_share_milli, 250);
    assert_eq!(report.top_mem[0].pid, 2);
    assert_eq!(report.top_mem[0].mem_share_milli, 750);
    assert_eq!(report.top_mem[0].avg_mem_milli_mb, 300_000);
    assert_eq!(report.top_mem[1].pid, 1);
}

#[test]
fn top_contributors_keep_first_appearance_on_ties() {
    let buffer = vec![batch(
        0,
        vec![
            (7, point(7, 0, 10_000, 50 * MB)),
            (3, point(3, 0, 10_000, 50 * MB)),
            (9, point(9, 0, 10_000, 50 * MB)),
        ],
    )];
    let report = analyze(&buffer);
    let pids: Vec<u32> = report.top_cpu.iter().map(|c| c.pid).collect();
    assert_eq!(pids, vec![7, 3, 9]);
}

#[test]
fn top_contributors_truncated_to_five() {
    let samples: Vec<(u32, MetricPoint)> = (1..=8u32)
        .map(|pid| (pid, point(pid, 0, (pid as u64) * 1_000, 10 * MB)))
        .collect();
    let buffer = vec![batch(0, samples)];
    let report = analyze(&buffer);
    assert_eq!(report.top_cpu.len(), 5);
    let pids: Vec<u32> = report.top_cpu.iter().map(|c| c.pid).collect();
    assert_eq!(pids, vec![8, 7, 6, 5, 4]);
}

#[test]
fn average_cpu_penalty_and_insight() {
    // constant 40% CPU, low flat memory: only the average-CPU penalty fires
    let buffer: Vec<BatchMetric> = (0..4)
        .map(|i| batch(i as i64, vec![(1, point(1, i as i64, 40_000, 10 * MB))]))
        .collect();
    let report = analyze(&buffer);
    // 100 - 0.5 * (40 - 30) = 95
    assert_eq!(report.score, 95);
    assert_eq!(report.insights, vec!["High average CPU usage: 40.0%".to_string()]);
}

#[test]
fn sustained_high_cpu_insight() {
    // every sample above 60%: sustained penalty and spike penalty fire
    let buffer: Vec<BatchMetric> = (0..4)
        .map(|i| batch(i as i64, vec![(1, point(1, i as i64, 85_000, 10 * MB))]))
        .collect();
    let report = analyze(&buffer);
    // 100 - 0.5*(85-30) - 5 - 10 = 57.5, truncated to 57
    assert_eq!(report.score, 57);
    assert!(report.insights.contains(&"Sustained high CPU: 100% of samples > 60%".to_string()));
    assert!(report.insights.contains(&"CPU spike detected: 85.0%".to_string()));
}

#[test]
fn slight_memory_growth_insight() {
    // memory grows 0.3 MB per sample: slight-growth note, not the big penalty
    let buffer: Vec<BatchMetric> = (0..5)
        .map(|i| {
            let mem = 100 * MB + (i as u64) * 314_573; // ~0.3 MB per tick
            batch(i as i64, vec![(1, point(1, i as i64, 1_000, mem))])
        })
        .collect();
    let report = analyze(&buffer);
    assert_eq!(report.score, 95);
    assert_eq!(report.insights, vec!["Slight memory growth trend detected".to_string()]);
}

#[test]
fn high_memory_ratio_insight() {
    let buffer: Vec<BatchMetric> = (0..4)
        .map(|i| batch(i as i64, vec![(1, point(1, i as i64, 1_000, 2048 * MB))]))
        .collect();
    let report = analyze(&buffer);
    assert_eq!(report.summary.mem_high_ratio_1024mb_milli, 1000);
    assert_eq!(report.summary.mem_high_ratio_512mb_milli, 1000);
    assert!(report.insights.contains(&"High memory usage: 100% of samples > 1 GB".to_string()));
    assert_eq!(report.score, 95);
}
