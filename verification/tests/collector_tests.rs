use perf_sight::collector::{
    assemble_metric_point, assemble_system_process, classify_from_args, CpuNormPolicy,
    CpuTimeTracker, is_browser_process_name, os_cpu_pct_for_task_manager, Platform,
    policy_for_platform, sanitize_rss, select_footprint, OsReading, ONE_TB,
};
use perf_sight::models::ProcKind;
use perf_sight::cdp::BrowserProcessInfo;
use perf_sight::collector::{assemble_browser_scan, GeneralCollector, PageEntry};

const GIB: u64 = 1024 * 1024 * 1024;

#[test]
fn cpu_normalization_follows_platform_policy() {
    let windows = policy_for_platform(Platform::Windows);
    let macos = policy_for_platform(Platform::MacOs);
    assert!(windows.divide_by_logical_cores);
    assert!(!macos.divide_by_logical_cores);
    // 200% raw on 4 logical cores: 50% of total capacity on Windows
    assert_eq!(os_cpu_pct_for_task_manager(200_000, 4, windows), 50_000);
    // per-core-summed convention passes through
    assert_eq!(os_cpu_pct_for_task_manager(200_000, 4, macos), 200_000);
}

#[test]
fn rss_sanity_reinterprets_only_implausible_readings() {
    let total = 16 * GIB;
    // a plausible reading passes through
    assert_eq!(sanitize_rss(2 * GIB, total), 2 * GIB);
    // 100 GiB on a 16 GiB machine looks like KiB: reinterpreted
    assert_eq!(sanitize_rss(100 * GIB, total), 100 * GIB / 1024);
    // unknown total memory: no check possible
    assert_eq!(sanitize_rss(100 * GIB, 0), 100 * GIB);
}

#[test]
fn footprint_fallback_chain() {
    let total = 16 * GIB;
    // plausible footprint wins, no fallback
    assert_eq!(select_footprint(2 * GIB, 1 * GIB, total), Some((2 * GIB, false)));
    // footprint above 2x total memory: resident fallback, flagged
    assert_eq!(select_footprint(40 * GIB, 1 * GIB, total), Some((1 * GIB, true)));
    // footprint above the hard 1 TB ceiling: resident fallback
    assert_eq!(select_footprint(ONE_TB + 1, 1 * GIB, total), Some((1 * GIB, true)));
    // nothing plausible at all
    assert_eq!(select_footprint(0, 0, total), None);
    assert_eq!(select_footprint(2 * ONE_TB, 3 * ONE_TB, total), None);
}

#[test]
fn cpu_time_tracker_computes_rates() {
    let mut tracker = CpuTimeTracker::new();
    // first tick stores state but yields no percent
    assert_eq!(tracker.observe(1, 10_000, 1_000, 2), None);
    // 500 ms of CPU over 1000 ms of wall time on 2 cores: 25%
    assert_eq!(tracker.observe(1, 10_500, 2_000, 2), Some(25_000));
    // a counter that goes backwards clamps to zero
    assert_eq!(tracker.observe(1, 9_000, 3_000, 2), Some(0));
    // no wall time elapsed: no percent, but the entry updates
    assert_eq!(tracker.observe(1, 9_100, 3_000, 2), None);
    // an unrelated process starts fresh
    assert_eq!(tracker.observe(2, 50, 3_000, 2), None);
}

#[test]
fn launch_argument_classification() {
    assert_eq!(classify_from_args("--type=gpu-process --foo"), ProcKind::Gpu);
    assert_eq!(classify_from_args("--type=renderer --bar"), ProcKind::Renderer);
    assert_eq!(classify_from_args("--type=utility --lang=en"), ProcKind::Utility);
    assert_eq!(classify_from_args("--no-sandbox"), ProcKind::Browser);
}

#[test]
fn browser_name_matching() {
    assert!(is_browser_process_name("chrome"));
    assert!(is_browser_process_name("Google Chrome Helper"));
    assert!(is_browser_process_name("msedge"));
    assert!(is_browser_process_name("firefox-bin"));
    assert!(!is_browser_process_name("explorer"));
}

#[test]
fn system_scan_record() {
    let windows = policy_for_platform(Platform::Windows);
    let p = assemble_system_process(
        1234,
        "chrome".to_string(),
        "--type=renderer --lang=en",
        512 * 1024 * 1024,
        100_000,
        4,
        windows,
    )
    .expect("browser-family process");
    assert_eq!(p.pid, 1234);
    assert_eq!(p.proc_type, ProcKind::Renderer);
    assert_eq!(p.cpu_milli, 25_000);
    assert_eq!(p.memory_usage, 512 * 1024 * 1024);
    assert_eq!(p.title, Some("Renderer / Tab".to_string()));
    assert!(assemble_system_process(
        1,
        "explorer".to_string(),
        "",
        0,
        0,
        4,
        windows
    )
    .is_none());
}

#[test]
fn sample_assembly_browser_mode() {
    let policy = CpuNormPolicy { divide_by_logical_cores: false };
    let p = assemble_metric_point(
        100,
        5_000,
        Some(OsReading { cpu_raw_milli: 12_000, rss_raw: 1 * GIB }),
        policy,
        4,
        16 * GIB,
        Some(64 * 1024 * 1024),
        Some(33_000),
        None,
        Some(2 * GIB),
        true,
    );
    assert_eq!(p.pid, 100);
    assert_eq!(p.timestamp_ms, 5_000);
    assert_eq!(p.cpu_os_milli, 12_000);
    // browser-aligned CPU takes over as the primary figure
    assert_eq!(p.cpu_chrome_milli, Some(33_000));
    assert_eq!(p.cpu_milli, 33_000);
    assert_eq!(p.memory_rss, 1 * GIB);
    // missing protocol private memory falls back to the footprint
    assert_eq!(p.memory_footprint, Some(2 * GIB));
    assert_eq!(p.memory_private, Some(2 * GIB));
    assert_eq!(p.js_heap_size, Some(64 * 1024 * 1024));
}

#[test]
fn sample_assembly_virtual_pid_ignores_os_readings() {
    let policy = CpuNormPolicy { divide_by_logical_cores: false };
    let p = assemble_metric_point(
        90001,
        0,
        Some(OsReading { cpu_raw_milli: 50_000, rss_raw: 1 * GIB }),
        policy,
        4,
        16 * GIB,
        None,
        None,
        None,
        Some(2 * GIB),
        true,
    );
    assert_eq!(p.cpu_milli, 0);
    assert_eq!(p.memory_rss, 0);
    // footprint applies to real pids only
    assert_eq!(p.memory_footprint, None);
    assert_eq!(p.memory_private, None);
}

#[test]
fn sample_assembly_system_mode() {
    let policy = CpuNormPolicy { divide_by_logical_cores: true };
    let p = assemble_metric_point(
        77,
        0,
        Some(OsReading { cpu_raw_milli: 80_000, rss_raw: 256 * 1024 * 1024 }),
        policy,
        4,
        16 * GIB,
        None,
        Some(33_000),
        Some(1 * GIB),
        Some(2 * GIB),
        false,
    );
    // browser-aligned figures are ignored outside browser mode
    assert_eq!(p.cpu_chrome_milli, None);
    assert_eq!(p.cpu_milli, 20_000);
    assert_eq!(p.memory_private, None);
    assert_eq!(p.memory_footprint, None);
    assert_eq!(p.memory_rss, 256 * 1024 * 1024);
}

#[test]
fn browser_scan_assembly() {
    let pages = vec![
        PageEntry {
            title: "Docs".to_string(),
            url: "https://example.test/docs".to_string(),
            resolved_pid: Some(501),
            os_cpu_milli: 12_000,
            os_memory: 100 * 1024 * 1024,
        },
        PageEntry {
            title: "Mail".to_string(),
            url: "https://example.test/mail".to_string(),
            resolved_pid: None,
            os_cpu_milli: 0,
            os_memory: 0,
        },
    ];
    let procinfo = vec![
        (400, BrowserProcessInfo { cpu_time_milli: 0, private_mem_bytes: Some(64 * 1024 * 1024), proc_type: ProcKind::Gpu }),
        (501, BrowserProcessInfo { cpu_time_milli: 0, private_mem_bytes: None, proc_type: ProcKind::Browser }),
        (502, BrowserProcessInfo { cpu_time_milli: 0, private_mem_bytes: None, proc_type: ProcKind::Renderer }),
    ];
    let (infos, pids) = assemble_browser_scan(&pages, &procinfo);
    // the second page gets a scan-local virtual id
    assert_eq!(pids, vec![501, 90001]);
    // two pages, plus the GPU process; pid 501 is already represented and the
    // extra renderer is skipped
    assert_eq!(infos.len(), 3);
    assert_eq!(infos[0].pid, 501);
    assert_eq!(infos[0].proc_type, ProcKind::Renderer);
    assert_eq!(infos[0].title, Some("Docs".to_string()));
    assert_eq!(infos[0].cpu_milli, 12_000);
    assert_eq!(infos[1].pid, 90001);
    assert_eq!(infos[1].memory_usage, 0);
    assert_eq!(infos[2].pid, 400);
    assert_eq!(infos[2].proc_type, ProcKind::Gpu);
    assert_eq!(infos[2].title, Some("GPU Process".to_string()));
    assert_eq!(infos[2].memory_usage, 64 * 1024 * 1024);
}

#[test]
fn general_collector_update_and_collect() {
    let policy = CpuNormPolicy { divide_by_logical_cores: false };
    let mut collector = GeneralCollector::new(true, policy, 2, 16 * GIB);
    let tick1 = vec![
        (10, BrowserProcessInfo { cpu_time_milli: 1_000, private_mem_bytes: Some(200_000_000), proc_type: ProcKind::Renderer }),
    ];
    collector.update(tick1, 1_000);
    // first tick: state stored, no rate yet
    assert!(collector.browser_cpu_milli.is_empty());
    let tick2 = vec![
        (10, BrowserProcessInfo { cpu_time_milli: 1_500, private_mem_bytes: Some(200_000_000), proc_type: ProcKind::Renderer }),
        (20, BrowserProcessInfo { cpu_time_milli: 0, private_mem_bytes: None, proc_type: ProcKind::Gpu }),
    ];
    collector.update(tick2, 2_000);
    // 500 ms of CPU over 1000 ms on 2 cores: 25%
    assert_eq!(collector.browser_cpu_milli, vec![(10, 25_000)]);
    let p = collector.collect_process(
        10,
        2_000,
        Some(OsReading { cpu_raw_milli: 5_000, rss_raw: 100 * 1024 * 1024 }),
        None,
        None,
    );
    assert_eq!(p.cpu_chrome_milli, Some(25_000));
    assert_eq!(p.cpu_milli, 25_000);
    assert_eq!(p.memory_private, Some(200_000_000));
    assert_eq!(p.memory_rss, 100 * 1024 * 1024);
}
