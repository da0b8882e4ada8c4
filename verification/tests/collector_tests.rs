use std::time::Instant;
use wtop::collector::{next_history, resolve_service_accounts, service_account_for, ServiceAccount};
use wtop::model::{Float32, GpuSnapshot, History, HistorySample, NetworkSnapshot, Snapshot, SystemSnapshot, HISTORY_CAPACITY};
use wtop::collector::{
    command_line_from_arguments, gpu_luid_from_engine_instance, luid_to_u64, next_generation,
    normalize_service_account, pages_to_bytes, pdh_result, stale_metric, wide_c_string,
    well_known_windows_user,
};
use wtop::model::{CommandLine, Freshness, Metric};

#[test]
fn command_line_mapping_preserves_unavailable_state() {
    assert_eq!(command_line_from_arguments(&Vec::new()), CommandLine::Unavailable);
    assert_eq!(
        command_line_from_arguments(&vec!["worker.exe".into(), "--port".into(), "8080".into()]),
        CommandLine::Present("worker.exe --port 8080".into())
    );
}

#[test]
fn commit_pages_are_converted_to_bytes_without_rounding() {
    assert_eq!(pages_to_bytes(1_024, 4_096), Ok(4_194_304));
}

#[test]
fn commit_pages_that_overflow_are_rejected() {
    assert_eq!(
        pages_to_bytes(usize::MAX, 4_096),
        Err("commit byte count overflowed u64".to_string())
    );
}

#[test]
fn gpu_engine_instance_luid_maps_to_the_dxgi_adapter_identity() {
    assert_eq!(
        gpu_luid_from_engine_instance("pid_42_luid_0x00000001_0x00000002_phys_0_eng_0_engtype_3D"),
        Some(0x00000001_00000002)
    );
    assert_eq!(gpu_luid_from_engine_instance("pid_42_engtype_3D"), None);
}

#[test]
fn gpu_engine_instance_without_a_valid_low_part_has_no_identity() {
    assert_eq!(gpu_luid_from_engine_instance("pid_1_luid_0x0000000A_0x0000001F"), Some(0x0000000A_0000001F));
    assert_eq!(gpu_luid_from_engine_instance("pid_1_luid_0x0000000A_0xZZ_phys_0"), None);
    assert_eq!(gpu_luid_from_engine_instance("pid_1_luid_0x0000000A"), None);
}

#[test]
fn luid_halves_pack_high_then_low() {
    assert_eq!(luid_to_u64(0x0000_0002, 0x0000_0001), 0x0000_0001_0000_0002);
    assert_eq!(luid_to_u64(0xFFFF_FFFF, -1), u64::MAX);
}

#[test]
fn failed_commit_metric_reuses_the_previous_value() {
    let metric = stale_metric(Some(&Metric::fresh(123_u64)), "performance query failed");

    assert_eq!(metric.value, 123);
    assert_eq!(metric.freshness, Freshness::Stale { reason: "performance query failed".into() });
}

#[test]
fn failed_commit_metric_without_history_reads_zero() {
    let metric = stale_metric(None, "performance query failed");
    assert_eq!(metric.value, 0);
    assert_eq!(metric.freshness, Freshness::Stale { reason: "performance query failed".into() });
}

#[test]
fn well_known_service_sids_have_concise_labels() {
    assert_eq!(well_known_windows_user("S-1-5-18"), Some("SYSTEM"));
    assert_eq!(well_known_windows_user("S-1-5-19"), Some("LOCAL SERVICE"));
    assert_eq!(well_known_windows_user("S-1-5-20"), Some("NETWORK SERVICE"));
    assert_eq!(well_known_windows_user("S-1-5-21-123"), None);
}

#[test]
fn service_configuration_accounts_are_normalized_for_display() {
    assert_eq!(normalize_service_account("LocalSystem"), "SYSTEM");
    assert_eq!(normalize_service_account("NT AUTHORITY\\LocalSystem"), "SYSTEM");
    assert_eq!(normalize_service_account("NT AUTHORITY\\LocalService"), "LOCAL SERVICE");
    assert_eq!(normalize_service_account("NT AUTHORITY\\LOCAL SERVICE"), "LOCAL SERVICE");
    assert_eq!(normalize_service_account("NetworkService"), "NETWORK SERVICE");
    assert_eq!(normalize_service_account("NT AUTHORITY\\NetworkService"), "NETWORK SERVICE");
    assert_eq!(normalize_service_account("CONTOSO\\agent"), "CONTOSO\\agent");
}

#[test]
fn service_account_names_ignore_ascii_case() {
    assert_eq!(normalize_service_account("localsystem"), "SYSTEM");
    assert_eq!(normalize_service_account("nt authority\\system"), "SYSTEM");
    assert_eq!(normalize_service_account("NETWORKSERVICE"), "NETWORK SERVICE");
}

#[test]
fn pdh_statuses_other_than_success_are_errors() {
    assert_eq!(pdh_result(0, "PdhCollectQueryData"), Ok(()));
    assert_eq!(
        pdh_result(0xC0000BC6, "PdhCollectQueryData"),
        Err("PdhCollectQueryData failed with PDH status 0xC0000BC6".to_string())
    );
    assert_eq!(
        pdh_result(0x2A, "PdhOpenQueryW"),
        Err(format!("PdhOpenQueryW failed with PDH status 0x{:08X}", 0x2A))
    );
}

#[test]
fn wide_strings_stop_at_the_first_nul() {
    let text: Vec<u16> = "Intel(R) UHD\0junk".encode_utf16().collect();
    assert_eq!(wide_c_string(&text), "Intel(R) UHD");
    let unterminated: Vec<u16> = "Ethernet".encode_utf16().collect();
    assert_eq!(wide_c_string(&unterminated), "Ethernet");
    assert_eq!(wide_c_string(&[0xD800, 0x41, 0]), "\u{FFFD}A");
    assert_eq!(
        wide_c_string(&[0xD834, 0xDD1E, 0x006D, 0xDD1E, 0x0069, 0xD834]),
        "\u{1D11E}m\u{FFFD}i\u{FFFD}"
    );
}

#[test]
fn snapshot_generations_advance_by_one() {
    assert_eq!(next_generation(1), 2);
    assert_eq!(next_generation(41), 42);
}

#[test]
fn each_refresh_appends_one_history_sample() {

    let sample = |value: f32| Float32 { bits: value.to_bits() };
    let first = next_history(None, sample(1.0));
    assert_eq!(first.len(), 1);
    let snapshot = Snapshot {
        generation: 1,
        collected_at: Instant::now(),
        system: SystemSnapshot {
            cpu_percent: Metric::fresh(sample(1.0)),
            logical_cpu_percentages: Metric::fresh(Vec::new()),
            total_memory_bytes: Metric::fresh(0),
            used_memory_bytes: Metric::fresh(0),
            commit_charge_bytes: Metric::fresh(0),
            commit_limit_bytes: Metric::fresh(0),
            network: NetworkSnapshot::default(),
            gpu: GpuSnapshot::default(),
        },
        processes: Metric::fresh(Vec::new()),
        history: first,
    };
    let second = next_history(Some(&snapshot), sample(2.0));
    assert_eq!(second.len(), 2);
    assert_eq!(second.samples().back().unwrap().cpu_percent, sample(2.0));
    assert_eq!(snapshot.history.len(), 1);
    let mut full = History::default();
    for index in 0..HISTORY_CAPACITY {
        full.push(HistorySample { cpu_percent: sample(index as f32) });
    }
    let mut full_snapshot = snapshot.clone();
    full_snapshot.history = full;
    let rolled = next_history(Some(&full_snapshot), sample(99.0));
    assert_eq!(rolled.len(), HISTORY_CAPACITY);
    assert_eq!(rolled.samples().front().unwrap().cpu_percent, sample(1.0));
    assert_eq!(rolled.samples().back().unwrap().cpu_percent, sample(99.0));
}

#[test]
fn generations_saturate_at_the_largest_value() {
    assert_eq!(next_generation(0), 1);
    assert_eq!(next_generation(u64::MAX), u64::MAX);
}

#[test]
fn service_accounts_are_grouped_by_process_and_resolved_conservatively() {
    let services = vec![
        (0, Some("SYSTEM".to_string())),
        (40, Some("SYSTEM".to_string())),
        (52, Some("LOCAL SERVICE".to_string())),
        (40, Some("SYSTEM".to_string())),
        (52, Some("NETWORK SERVICE".to_string())),
        (60, None),
        (60, Some("SYSTEM".to_string())),
    ];
    assert_eq!(
        resolve_service_accounts(&services),
        vec![
            (40, ServiceAccount::Account("SYSTEM".to_string())),
            (52, ServiceAccount::Mixed),
        ]
    );
    assert_eq!(service_account_for(&vec![None]), None);
    assert_eq!(resolve_service_accounts(&Vec::new()), Vec::new());
}

#[test]
fn only_processes_hosting_a_service_get_an_account() {
    let services = vec![(12, Some("SYSTEM".to_string())), (0, Some("SYSTEM".to_string()))];
    let resolved = resolve_service_accounts(&services);
    assert_eq!(resolved, vec![(12, ServiceAccount::Account("SYSTEM".to_string()))]);
    assert!(resolved.iter().all(|(pid, _)| services.iter().any(|(host, _)| host == pid)));
}
