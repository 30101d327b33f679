use perf_sight::cdp::{
    BrowserProcessInfo, CdpClient, classify_process_kind, disambiguate_private_memory,
};
use perf_sight::models::ProcKind;

const GIB: u64 = 1024 * 1024 * 1024;
const TOTAL_16_GIB: u64 = 16 * GIB;

#[test]
fn private_memory_prefers_documented_kib_unit() {
    // raw 2,000,000 read as KiB is ~1.9 GiB: plausible on a 16 GiB machine,
    // and the documented unit wins even though the bytes reading is plausible
    assert_eq!(
        disambiguate_private_memory(2_000_000, TOTAL_16_GIB),
        Some(2_048_000_000)
    );
}

#[test]
fn private_memory_byte_fallback_and_unknown() {
    // as KiB this would be ~95 TB, implausible; as bytes ~46.5 GiB, which is
    // within 4x of 16 GiB, so the bytes reading is accepted
    assert_eq!(
        disambiguate_private_memory(50_000_000_000, TOTAL_16_GIB),
        Some(50_000_000_000)
    );
    // neither interpretation plausible: unknown rather than a guess
    assert_eq!(disambiguate_private_memory(100_000_000_000, TOTAL_16_GIB), None);
}

#[test]
fn process_type_classification() {
    assert_eq!(classify_process_kind("GPU"), ProcKind::Gpu);
    assert_eq!(classify_process_kind("renderer"), ProcKind::Renderer);
    assert_eq!(classify_process_kind("Browser"), ProcKind::Browser);
    assert_eq!(classify_process_kind("utility"), ProcKind::Utility);
    assert_eq!(
        classify_process_kind("network.mojom.NetworkService"),
        ProcKind::Utility
    );
    assert_eq!(
        classify_process_kind("storage.mojom.StorageService"),
        ProcKind::Utility
    );
    assert_eq!(classify_process_kind("zygote"), ProcKind::Other);
}

#[test]
fn process_info_entry_parsing() {
    assert_eq!(
        CdpClient::parse_process_info_entry(0, 1_000, Some(1_000), "renderer", TOTAL_16_GIB),
        None
    );
    let (pid, info) = CdpClient::parse_process_info_entry(
        4242,
        12_345,
        Some(2_000_000),
        "GPU",
        TOTAL_16_GIB,
    )
    .expect("non-zero id");
    assert_eq!(pid, 4242);
    assert_eq!(info.cpu_time_milli, 12_345);
    assert_eq!(info.private_mem_bytes, Some(2_048_000_000));
    assert_eq!(info.proc_type, ProcKind::Gpu);
}

#[test]
fn pid_resolution_chain() {
    let entries = vec![
        (10, BrowserProcessInfo { cpu_time_milli: 0, private_mem_bytes: None, proc_type: ProcKind::Browser }),
        (20, BrowserProcessInfo { cpu_time_milli: 0, private_mem_bytes: None, proc_type: ProcKind::Renderer }),
        (30, BrowserProcessInfo { cpu_time_milli: 0, private_mem_bytes: None, proc_type: ProcKind::Renderer }),
    ];
    // a direct answer wins
    assert_eq!(CdpClient::resolve_process_id(Some(77), &entries), Some(77));
    // otherwise the first renderer entry is picked (best effort)
    assert_eq!(CdpClient::resolve_process_id(None, &entries), Some(20));
    // no renderer anywhere: unresolved
    let no_renderers = vec![
        (10, BrowserProcessInfo { cpu_time_milli: 0, private_mem_bytes: None, proc_type: ProcKind::Gpu }),
    ];
    assert_eq!(CdpClient::resolve_process_id(None, &no_renderers), None);
}

#[test]
fn request_lines_match_wire_format() {
    assert_eq!(
        CdpClient::build_request(101, "SystemInfo.getProcessInfo"),
        "{\"id\":101,\"method\":\"SystemInfo.getProcessInfo\"}"
    );
    assert_eq!(
        CdpClient::build_request(10, "Page.enable"),
        "{\"id\":10,\"method\":\"Page.enable\"}"
    );
    assert_eq!(
        CdpClient::build_request(2, "Runtime.getHeapUsage"),
        "{\"id\":2,\"method\":\"Runtime.getHeapUsage\"}"
    );
}
