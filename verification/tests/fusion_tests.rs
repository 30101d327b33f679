use perf_sight::fusion::{
    clamp_memory, feed_memory_bytes, CollectionState, FeedSample, IngestOutcome,
};
use perf_sight::logmetrics::{compile_log_metrics, process_console_log};
use perf_sight::models::{CollectionConfig, LogMetricConfig, MetricPoint, MAX_CPU_MILLI};

const MIB: u64 = 1024 * 1024;
const GIB: u64 = 1024 * MIB;
const TOTAL_16_GIB: u64 = 16 * GIB;

fn browser_config(pids: Vec<u32>) -> CollectionConfig {
    CollectionConfig {
        target_pids: pids,
        interval_ms: 1000,
        mode: "browser".to_string(),
        test_context: None,
        process_aliases: None,
        stop_after_seconds: None,
        log_metric_configs: None,
        folder_path: None,
    }
}

fn feed(pid: u32, cpu_milli: u64, mem_mb: u64) -> FeedSample {
    FeedSample { pid, cpu_milli, mem_raw_milli_mb: mem_mb * 1000 }
}

#[test]
fn spike_clamp_rejects_implausible_jump() {
    // previous 100 MiB, new 5 GiB: rejected, previous value kept
    assert_eq!(clamp_memory(100 * MIB, 5 * GIB, TOTAL_16_GIB), 100 * MIB);
    // previous 100 MiB, new 150 MiB: accepted unmodified
    assert_eq!(clamp_memory(100 * MIB, 150 * MIB, TOTAL_16_GIB), 150 * MIB);
}

#[test]
fn spike_clamp_rules() {
    // 2 GiB absolute jump is rejected even when under 6x
    assert_eq!(clamp_memory(10 * GIB, 13 * GIB, 16 * GIB), 10 * GIB);
    // above 90% of total memory is rejected
    assert_eq!(clamp_memory(1 * GIB, 15 * GIB, 16 * GIB), 1 * GIB);
    // no previous value and under 90% of total: accepted
    assert_eq!(clamp_memory(0, 5 * GIB, 16 * GIB), 5 * GIB);
    // gradual growth survives
    assert_eq!(clamp_memory(1000 * MIB, 1100 * MIB, TOTAL_16_GIB), 1100 * MIB);
}

#[test]
fn feed_memory_unit_disambiguation() {
    // 100 MB on a 16 GiB machine: read as megabytes
    assert_eq!(feed_memory_bytes(100 * 1000, TOTAL_16_GIB), 100 * MIB);
    // 200 million "MB" would be 200 TB; the raw value is a plausible byte
    // count, so it is read as bytes
    assert_eq!(feed_memory_bytes(200_000_000 * 1000, TOTAL_16_GIB), 200_000_000);
    // implausible both ways: still read as megabytes
    let raw_mb = 400_000_000_000u64; // 400 billion MB
    assert_eq!(feed_memory_bytes(raw_mb * 1000, TOTAL_16_GIB), raw_mb * MIB);
}

#[test]
fn buffer_timestamps_non_decreasing() {
    let mut state = CollectionState::new(TOTAL_16_GIB);
    state.start_run(browser_config(vec![1]), 0);
    for ts in [1000i64, 2000, 2000, 3000, 2500, 4000] {
        let _ = state.process_metric_payload(ts, &vec![feed(1, 5_000, 100)]);
    }
    let stopped = state.stop_run();
    // the out-of-order arrival at 2500 was dropped; 2000 was merged
    let times: Vec<i64> = stopped.iter().map(|b| b.timestamp_ms).collect();
    assert_eq!(times, vec![1000, 2000, 3000, 4000]);
    for w in times.windows(2) {
        assert!(w[0] <= w[1]);
    }
}

#[test]
fn merge_same_timestamp_batches() {
    let mut state = CollectionState::new(TOTAL_16_GIB);
    state.start_run(browser_config(vec![1, 2]), 0);
    let _ = state.process_metric_payload(1000, &vec![feed(1, 5_000, 100)]);
    let r = state.process_metric_payload(1000, &vec![feed(2, 7_000, 200)]);
    assert!(matches!(r, IngestOutcome::Recorded));
    let buffer = state.stop_run();
    assert_eq!(buffer.len(), 1);
    assert_eq!(buffer[0].metrics.len(), 2);
    let pids: Vec<u32> = buffer[0].metrics.iter().map(|(p, _)| *p).collect();
    assert_eq!(pids, vec![1, 2]);
}

#[test]
fn merge_overwrites_supplied_fields_only() {
    let mut state = CollectionState::new(TOTAL_16_GIB);
    state.start_run(browser_config(vec![1]), 0);
    let _ = state.process_metric_payload(1000, &vec![feed(1, 5_000, 100)]);
    // a custom metric for the same pid and timestamp merges in without
    // clobbering the CPU and memory readings
    let _ = state.push_custom_metric(1, 1000, "fps".to_string(), 60_000);
    let buffer = state.stop_run();
    assert_eq!(buffer.len(), 1);
    let p = &buffer[0].metrics[0].1;
    assert_eq!(p.cpu_milli, 5_000);
    assert_eq!(p.memory_rss, 100 * MIB);
    assert_eq!(p.custom_metrics, Some(("fps".to_string(), 60_000)));
}

#[test]
fn websocket_payload_dropped_in_system_mode() {
    let mut state = CollectionState::new(TOTAL_16_GIB);
    let mut cfg = browser_config(vec![1]);
    cfg.mode = "system".to_string();
    state.start_run(cfg, 0);
    let r = state.process_websocket_metric_payload(1000, &vec![feed(1, 5_000, 100)]);
    assert!(matches!(r, IngestOutcome::Ignored));
    assert!(state.stop_run().is_empty());
}

#[test]
fn untracked_pids_filtered() {
    let mut state = CollectionState::new(TOTAL_16_GIB);
    state.start_run(browser_config(vec![1]), 0);
    let r = state.process_metric_payload(1000, &vec![feed(9, 5_000, 100)]);
    assert!(matches!(r, IngestOutcome::Ignored));
    assert!(state.stop_run().is_empty());
}

#[test]
fn spike_clamped_against_buffered_reading() {
    let mut state = CollectionState::new(TOTAL_16_GIB);
    state.start_run(browser_config(vec![1]), 0);
    let _ = state.process_metric_payload(1000, &vec![feed(1, 5_000, 100)]);
    // a 5 GiB reading right after 100 MB is substituted by the previous value
    let _ = state.process_metric_payload(2000, &vec![feed(1, 5_000, 5 * 1024)]);
    let buffer = state.stop_run();
    assert_eq!(buffer.len(), 2);
    assert_eq!(buffer[1].metrics[0].1.memory_rss, 100 * MIB);
}

#[test]
fn forwarded_when_not_recording() {
    let mut state = CollectionState::new(TOTAL_16_GIB);
    let mut cfg = browser_config(vec![1]);
    cfg.target_pids = vec![1];
    state.start_run(cfg, 0);
    let stopped = state.stop_run();
    assert!(stopped.is_empty());
    // run is over: payloads are still forwarded for live preview, not stored
    state.browser_mode = true;
    state.target_pids = vec![1];
    let r = state.process_metric_payload(1000, &vec![feed(1, 5_000, 100)]);
    match r {
        IngestOutcome::Forwarded(b) => {
            assert_eq!(b.timestamp_ms, 1000);
            assert_eq!(b.metrics.len(), 1);
        },
        _ => panic!("expected a forwarded batch"),
    }
    assert!(state.stop_run().is_empty());
}

#[test]
fn stop_run_is_idempotent() {
    let mut state = CollectionState::new(TOTAL_16_GIB);
    state.start_run(browser_config(vec![1]), 0);
    let _ = state.process_metric_payload(1000, &vec![feed(1, 5_000, 100)]);
    let first = state.stop_run();
    assert_eq!(first.len(), 1);
    let second = state.stop_run();
    assert!(second.is_empty());
    assert!(!state.running);
}

#[test]
fn custom_metric_batch_recorded() {
    let mut state = CollectionState::new(TOTAL_16_GIB);
    state.start_run(browser_config(vec![1]), 0);
    let r = state.push_custom_metric(42, 5000, "Inference Time".to_string(), 12_500);
    assert!(matches!(r, IngestOutcome::Recorded));
    let buffer = state.stop_run();
    assert_eq!(buffer.len(), 1);
    assert_eq!(buffer[0].metrics[0].0, 42);
    assert_eq!(
        buffer[0].metrics[0].1.custom_metrics,
        Some(("Inference Time".to_string(), 12_500))
    );
}

#[test]
fn status_reports_session_configuration() {
    let mut state = CollectionState::new(TOTAL_16_GIB);
    let mut cfg = browser_config(vec![4, 5]);
    cfg.interval_ms = 250;
    cfg.stop_after_seconds = Some(30);
    state.start_run(cfg, 1234);
    let status = state.get_collection_status();
    assert!(status.is_running);
    assert_eq!(status.target_pids, vec![4, 5]);
    assert_eq!(status.mode, "browser");
    assert_eq!(status.interval_ms, 250);
    assert_eq!(status.started_at_ms, Some(1234));
    assert_eq!(status.stop_after_seconds, Some(30));
    state.stop_run();
    assert!(!state.get_collection_status().is_running);
}

#[test]
fn collector_batch_ingested_and_sanitized() {
    let mut state = CollectionState::new(TOTAL_16_GIB);
    state.start_run(browser_config(vec![1, 2]), 0);
    let wild = MetricPoint {
        timestamp_ms: 999, // restamped with the batch timestamp
        pid: 77,           // rekeyed under its map key
        cpu_milli: u64::MAX, // clamped into the representable range
        cpu_os_milli: 1_000,
        cpu_chrome_milli: None,
        memory_rss: 100 * MIB,
        memory_footprint: None,
        js_heap_size: None,
        memory_private: None,
        custom_metrics: None,
    };
    let dup = MetricPoint { cpu_milli: 2_000, ..wild.clone() };
    let r = state.ingest_collector_batch(5_000, vec![(1, wild), (1, dup)]);
    assert!(matches!(r, IngestOutcome::Recorded));
    let buffer = state.stop_run();
    assert_eq!(buffer.len(), 1);
    assert_eq!(buffer[0].timestamp_ms, 5_000);
    // the duplicate process id was dropped (first entry wins)
    assert_eq!(buffer[0].metrics.len(), 1);
    let (pid, p) = &buffer[0].metrics[0];
    assert_eq!(*pid, 1);
    assert_eq!(p.pid, 1);
    assert_eq!(p.timestamp_ms, 5_000);
    assert_eq!(p.cpu_milli, MAX_CPU_MILLI);
    assert_eq!(p.memory_rss, 100 * MIB);
}

#[test]
fn console_log_metrics_recorded_through_session() {
    let compiled = compile_log_metrics(vec![LogMetricConfig {
        name: "Inference Time".to_string(),
        pattern: "Inference Time: ([0-9.]+) ms".to_string(),
        unit: Some("ms".to_string()),
        target_pid: None,
    }]);
    let mut state = CollectionState::new(TOTAL_16_GIB);
    state.start_run(browser_config(vec![7]), 0);
    let hits = process_console_log(&mut state, &compiled, "Inference Time: 42.5 ms", 7, 1000);
    assert_eq!(hits, 1);
    let buffer = state.stop_run();
    assert_eq!(buffer.len(), 1);
    assert_eq!(
        buffer[0].metrics[0].1.custom_metrics,
        Some(("Inference Time".to_string(), 42_500))
    );
}
